use ara::voxel::{brick_local_index, world_to_brick, world_to_local, BrickHeader, PackedVoxel};
use ara::BRICK_SIZE;
use ara::BRICK_VOLUME;
use std::mem::{align_of, size_of};

#[test]
fn voxel_layout() {
    assert_eq!(size_of::<PackedVoxel>(), 2);
    assert_eq!(align_of::<PackedVoxel>(), 2);
}

#[test]
fn packing() {
    let mut v = PackedVoxel::new(300);
    v.set_variant(3);
    v.set_level(5);
    v.set_active(true);
    v.set_dirty(true);
    assert_eq!(v.id(), 300);
    assert_eq!(v.variant(), 3);
    assert_eq!(v.level(), 5);
    assert!(v.is_active());
    assert!(v.is_dirty());
}

#[test]
fn voxel_max_values() {
    let mut v = PackedVoxel::new(511);
    v.set_variant(3);
    v.set_level(7);
    v.set_active(true);
    v.set_dirty(true);
    assert_eq!(v.id(), 511);
    assert_eq!(v.variant(), 3);
    assert_eq!(v.level(), 7);
    assert!(v.is_active());
    assert!(v.is_dirty());
}

#[test]
fn set_fields() {
    let mut v = PackedVoxel::new(42);
    assert_eq!(v.id(), 42);
    assert_eq!(v.variant(), 0);
    assert_eq!(v.level(), 0);
    assert!(!v.is_active());
    assert!(!v.is_dirty());

    v.set_variant(2);
    assert_eq!(v.id(), 42);
    assert_eq!(v.variant(), 2);

    v.set_level(6);
    assert_eq!(v.level(), 6);
    assert_eq!(v.variant(), 2);

    v.set_active(true);
    assert!(v.is_active());

    v.set_dirty(true);
    assert!(v.is_dirty());

    v.set_id(500);
    assert_eq!(v.id(), 500);
    assert_eq!(v.variant(), 2);
    assert_eq!(v.level(), 6);
    assert!(v.is_active());
    assert!(v.is_dirty());
}

#[test]
fn overflow_truncation() {
    let mut v = PackedVoxel::new(0);
    v.set_level(0xFF);
    assert_eq!(v.level(), 7);

    v.set_variant(0xFF);
    assert_eq!(v.variant(), 3);

    let v2 = PackedVoxel::new(1024);
    assert_eq!(v2.id(), 0);
}

#[test]
fn air() {
    assert!(PackedVoxel::air().is_air());
    let mut dirty_air = PackedVoxel::air();
    dirty_air.set_level(5);
    assert!(dirty_air.is_air());

    assert!(!PackedVoxel::new(1).is_air());
}

#[test]
fn flags_clear_again() {
    let mut v = PackedVoxel::new(7);
    v.set_active(true);
    v.set_dirty(true);
    v.set_active(false);
    assert!(!v.is_active());
    assert!(v.is_dirty());
    v.set_dirty(false);
    assert!(!v.is_dirty());
    assert_eq!(v.packed, 7);
}

#[test]
fn exact_bit_layout() {
    let mut v = PackedVoxel::new(0x1FF);
    v.set_variant(1);
    v.set_level(2);
    v.set_active(true);
    assert_eq!(v.packed, 0x1FF | (1 << 9) | (2 << 11) | (1 << 14));
    v.set_dirty(true);
    assert_eq!(v.packed, 0xD3FF);
}

#[test]
fn pack_unpack_coord() {
    let p = BrickHeader::pack_coord(5, 300, 511, 3);
    assert_eq!(p, 5 | (300 << 9) | (511 << 18) | (3 << 27));
    assert_eq!(BrickHeader::unpack_coord(p), [5, 300, 511]);
    // High bits beyond 9 per axis are dropped; LOD is masked off on unpack.
    assert_eq!(BrickHeader::unpack_coord(BrickHeader::pack_coord(512 + 1, 2, 3, 9)), [1, 2, 3]);
    // Negative brick coordinates pass through `as u32` and keep their low 9 bits.
    assert_eq!(BrickHeader::unpack_coord(BrickHeader::pack_coord(-1i32 as u32, 0, 0, 0)), [511, 0, 0]);
}

#[test]
fn world_to_brick_and_local_negative() {
    assert_eq!(world_to_brick(-1, -8, -9), [-1, -1, -2]);
    assert_eq!(world_to_local(-1, -8, -9), [7, 0, 7]);
    for w in -40..40 {
        let b = world_to_brick(w, 0, 0)[0];
        let l = world_to_local(w, 0, 0)[0];
        assert_eq!(b * BRICK_SIZE as i32 + l as i32, w);
    }
}

#[test]
fn brick_local_index_is_morton() {
    assert_eq!(brick_local_index(1, 1, 1), 7);
    assert_eq!(brick_local_index(7, 7, 7), BRICK_VOLUME - 1);
}
