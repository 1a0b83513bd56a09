use ara::brick_map::{brick_occupancy, occupancy_word, top_grid_index, BrickMap, VoxelWrite};
use ara::voxel::{brick_local_index, world_to_brick, world_to_local, PackedVoxel};
use ara::{MemoryBudget, BRICK_SIZE, BRICK_VOLUME, TOP_GRID_SIZE, TOP_GRID_VOLUME};

#[test]
fn top_grid_index_positive_coords() {
    let tgs = TOP_GRID_SIZE as usize;
    let idx = top_grid_index(5, 10, 20);
    let expected = 20 * tgs * tgs + 10 * tgs + 5;
    assert_eq!(idx, expected);
}

#[test]
fn top_grid_index_wraps_negative() {
    let tgs = TOP_GRID_SIZE as i32;
    let idx_neg = top_grid_index(-1, 0, 0);
    let idx_pos = top_grid_index(tgs - 1, 0, 0);
    assert_eq!(idx_neg, idx_pos);
}

#[test]
fn top_grid_index_wraps_overflow() {
    let tgs = TOP_GRID_SIZE as i32;
    let idx_over = top_grid_index(tgs, 0, 0);
    let idx_zero = top_grid_index(0, 0, 0);
    assert_eq!(idx_over, idx_zero);
}

#[test]
fn top_grid_index_negative_all_axes() {
    let tgs = TOP_GRID_SIZE as i32;
    let idx = top_grid_index(-1, -2, -3);
    let expected = top_grid_index(tgs - 1, tgs - 2, tgs - 3);
    assert_eq!(idx, expected);
}

#[test]
fn top_grid_index_bounds() {
    let tgs = TOP_GRID_SIZE as i32;
    for bz in -tgs..(tgs * 2) {
        for by in -tgs..(tgs * 2) {
            for bx in -tgs..(tgs * 2) {
                let idx = top_grid_index(bx, by, bz);
                assert!(idx < TOP_GRID_VOLUME as usize,
                    "index {} out of bounds for coords ({}, {}, {})", idx, bx, by, bz);
            }
        }
    }
}

#[test]
fn world_to_brick_and_local_roundtrip() {
    for wx in [0, 7, 8, 15, 63, 511] {
        for wy in [0, 1, 8, 100] {
            for wz in [0, 7, 16, 511] {
                let bc = world_to_brick(wx, wy, wz);
                let lc = world_to_local(wx, wy, wz);
                let rx = bc[0] * BRICK_SIZE as i32 + lc[0] as i32;
                let ry = bc[1] * BRICK_SIZE as i32 + lc[1] as i32;
                let rz = bc[2] * BRICK_SIZE as i32 + lc[2] as i32;
                assert_eq!((rx, ry, rz), (wx, wy, wz),
                    "roundtrip failed for ({}, {}, {})", wx, wy, wz);
            }
        }
    }
}

#[test]
fn brick_local_index_range() {
    for lz in 0..8u32 {
        for ly in 0..8u32 {
            for lx in 0..8u32 {
                let idx = brick_local_index(lx, ly, lz);
                assert!(idx < BRICK_VOLUME, "local index {} >= BRICK_VOLUME", idx);
            }
        }
    }
}

#[test]
fn new_map_is_empty() {
    let m = BrickMap::new(MemoryBudget::Low);
    assert_eq!(m.max_bricks(), 235549);
    assert_eq!(m.allocated_bricks(), 0);
    assert_eq!(m.lod0_origin(), [0, 0, 0]);
    assert!(m.get_voxel([10, 20, 30]).is_air());
}

#[test]
fn write_then_read_gives_voxel_back() {
    let mut m = BrickMap::new(MemoryBudget::Low);
    let v = PackedVoxel::new(42);
    match m.write_voxel([100, 200, 300], v) {
        VoxelWrite::Stored { brick_idx, new_brick, local_index, .. } => {
            assert_eq!(brick_idx, 0);
            assert!(new_brick);
            let lc = world_to_local(100, 200, 300);
            assert_eq!(local_index, brick_local_index(lc[0], lc[1], lc[2]));
        }
        VoxelWrite::Unchanged => panic!("write should be stored"),
    }
    assert_eq!(m.get_voxel([100, 200, 300]), v);
    // Same brick, other voxel: still air; the brick is reused.
    assert!(m.get_voxel([101, 200, 300]).is_air());
    let w = PackedVoxel::new(7);
    match m.write_voxel([101, 200, 300], w) {
        VoxelWrite::Stored { brick_idx, new_brick, .. } => {
            assert_eq!(brick_idx, 0);
            assert!(!new_brick);
        }
        VoxelWrite::Unchanged => panic!("write should be stored"),
    }
    assert_eq!(m.get_voxel([100, 200, 300]), v);
    assert_eq!(m.get_voxel([101, 200, 300]), w);
    assert_eq!(m.allocated_bricks(), 1);
}

#[test]
fn write_reports_gpu_words() {
    let mut m = BrickMap::new(MemoryBudget::Low);
    // (0, 0, 0) and (1, 0, 0) have Morton indices 0 and 1: the same pool word.
    m.write_voxel([0, 0, 0], PackedVoxel::new(3));
    match m.write_voxel([1, 0, 0], PackedVoxel::new(5)) {
        VoxelWrite::Stored { local_index, pair_word, occupancy_word, .. } => {
            assert_eq!(local_index, 1);
            assert_eq!(pair_word, 3 | (5 << 16));
            assert_eq!(occupancy_word, 0b11);
        }
        VoxelWrite::Unchanged => panic!("write should be stored"),
    }
}

#[test]
fn writes_that_change_nothing() {
    let mut m = BrickMap::new(MemoryBudget::Low);
    assert!(matches!(m.write_voxel([-1, 0, 0], PackedVoxel::new(1)), VoxelWrite::Unchanged));
    assert!(matches!(m.write_voxel([0, 1024, 0], PackedVoxel::new(1)), VoxelWrite::Unchanged));
    // Air into an empty slot allocates nothing.
    assert!(matches!(m.write_voxel([5, 5, 5], PackedVoxel::air()), VoxelWrite::Unchanged));
    assert_eq!(m.allocated_bricks(), 0);
    assert!(m.get_voxel([-1, 0, 0]).is_air());
}

#[test]
fn evict_returns_brick_to_pool() {
    let mut m = BrickMap::new(MemoryBudget::Low);
    m.write_voxel([16, 16, 16], PackedVoxel::new(9));
    let bc = world_to_brick(16, 16, 16);
    assert_eq!(m.evict_brick(bc), Some(0));
    assert!(m.get_voxel([16, 16, 16]).is_air());
    assert_eq!(m.allocated_bricks(), 0);
    assert_eq!(m.evict_brick(bc), None);
    // The freed brick is handed out again first.
    assert_eq!(m.allocate_brick([3, 3, 3]), Some(0));
}

#[test]
fn generation_is_pending_until_revealed() {
    let mut m = BrickMap::new(MemoryBudget::Low);
    assert_eq!(m.begin_brick_generation([1, 2, 3]), Some(0));
    assert_eq!(m.begin_brick_generation([1, 2, 3]), None);
    assert_eq!(m.begin_brick_generation([4, 5, 6]), Some(1));
    // Evicting a pending slot drops its reveal.
    assert_eq!(m.evict_brick([1, 2, 3]), Some(0));
    let revealed = m.reveal_pending();
    assert_eq!(revealed, vec![(top_grid_index(4, 5, 6), 1)]);
    assert!(m.reveal_pending().is_empty());
}

#[test]
fn write_brick_and_occupancy() {
    let mut m = BrickMap::new(MemoryBudget::Low);
    let b = m.allocate_brick([0, 0, 0]).unwrap();
    let mut voxels = [PackedVoxel::air(); 512];
    voxels[0] = PackedVoxel::new(1);
    voxels[33] = PackedVoxel::new(2);
    voxels[511] = PackedVoxel::new(3);
    m.write_brick(b, &voxels);
    let occ = brick_occupancy(&voxels);
    assert_eq!(occ.words.len(), 16);
    assert_eq!(occ.words[0], 1);
    assert_eq!(occ.words[1], 1 << 1);
    assert_eq!(occ.words[15], 1 << 31);
    assert_eq!(occ.solid_count, 3);
    assert_eq!(occupancy_word(&voxels, 1), 2);
    // Voxel 33 is Morton index 33: (x, y, z) = (1, 0, 2) + ... decoded position.
    let (x, y, z) = ara::morton::morton_decode(33);
    assert_eq!(m.get_voxel([x as i32, y as i32, z as i32]), PackedVoxel::new(2));
}


#[test]
fn bricks_are_never_shared() {
    let mut m = BrickMap::new(MemoryBudget::Low);
    let a = m.write_voxel([1, 1, 1], PackedVoxel::new(4));
    let b = m.write_voxel([9, 1, 1], PackedVoxel::new(4));
    let c = m.write_voxel([2, 2, 2], PackedVoxel::new(5));
    match (a, b, c) {
        (
            VoxelWrite::Stored { brick_idx: ba, new_brick: true, .. },
            VoxelWrite::Stored { brick_idx: bb, new_brick: true, .. },
            VoxelWrite::Stored { brick_idx: bc, new_brick: false, .. },
        ) => {
            assert_ne!(ba, bb);
            assert_eq!(ba, bc);
        }
        _ => panic!("expected two new bricks and a write into the first"),
    }
    assert_eq!(m.allocated_bricks(), 2);
}
