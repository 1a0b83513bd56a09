use ara::visibility::{NormalIndex, VisibilityPayload};
use std::mem::size_of;

#[test]
fn visibility_layout() {
    assert_eq!(size_of::<VisibilityPayload>(), 8);
}

#[test]
fn pack_unpack_roundtrip() {
    let p = VisibilityPayload::pack(42, NormalIndex::PosY, 1000, 500, 200, 800, 2);
    assert_eq!(p.material_id(), 42);
    assert_eq!(p.normal_index(), NormalIndex::PosY as u32);
    assert_eq!(p.depth_fixed(), 1000);
    assert_eq!(p.voxel_x(), 500);
    assert_eq!(p.voxel_y(), 200);
    assert_eq!(p.voxel_z(), 800);
    assert_eq!(p.lod(), 2);
}

#[test]
fn miss_sentinel() {
    assert!(VisibilityPayload::miss().is_miss());
    assert_eq!(VisibilityPayload::miss().material_id(), 0);
}

#[test]
fn visibility_max_values() {
    let p = VisibilityPayload::pack(511, NormalIndex::NegZ, 8191, 1023, 1023, 1023, 3);
    assert_eq!(p.material_id(), 511);
    assert_eq!(p.normal_index(), NormalIndex::NegZ as u32);
    assert_eq!(p.depth_fixed(), 8191);
    assert_eq!(p.voxel_x(), 1023);
    assert_eq!(p.voxel_y(), 1023);
    assert_eq!(p.voxel_z(), 1023);
    assert_eq!(p.lod(), 3);
}

#[test]
fn all_normals() {
    for (i, n) in [
        NormalIndex::PosX,
        NormalIndex::NegX,
        NormalIndex::PosY,
        NormalIndex::NegY,
        NormalIndex::PosZ,
        NormalIndex::NegZ,
    ]
    .iter()
    .enumerate()
    {
        let p = VisibilityPayload::pack(1, *n, 0, 0, 0, 0, 0);
        assert_eq!(p.normal_index(), i as u32);
        assert_eq!(n.code(), i as u32);
    }
}

#[test]
fn pack_truncates_fields() {
    let p = VisibilityPayload::pack(0xFFFF, NormalIndex::PosX, 0x2001, 1024 + 5, 2048, 3, 5);
    assert_eq!(p.material_id(), 0xFFFF);
    assert_eq!(p.normal_index(), 0);
    assert_eq!(p.depth_fixed(), 1);
    assert_eq!(p.voxel_x(), 5);
    assert_eq!(p.voxel_y(), 0);
    assert_eq!(p.voxel_z(), 3);
    assert_eq!(p.lod(), 1);
    assert_eq!(p.lo, 0xFFFF | (1 << 19));
    assert!(!p.is_miss());
}
