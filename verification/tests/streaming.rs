use ara::brick_map::{top_grid_index, BrickMap};
use ara::chunk_streamer::{
    axis_shift, brick_may_contain_terrain, face_plane_ranges, make_coord, terrain_sample_columns,
    ChunkStreamer, STREAMING_RADIUS,
};
use ara::voxel::PackedVoxel;
use ara::MemoryBudget;

#[test]
fn sample_columns_of_brick() {
    let c = terrain_sample_columns([1, 5, 2]);
    assert_eq!(c, [(8, 16), (15, 16), (8, 23), (15, 23), (11, 19)]);
    // Center columns round toward zero for negative bricks.
    let n = terrain_sample_columns([-1, 0, -1]);
    assert_eq!(n[4], (-4, -4));
}

#[test]
fn terrain_test_above_and_below() {
    let flat = [100; 5];
    // Brick y = 12 spans 96..104: inside the surface band.
    assert!(brick_may_contain_terrain([0, 12, 0], flat));
    // Brick y = 14 starts at 112 > 100 + 8: pure air.
    assert!(!brick_may_contain_terrain([0, 14, 0], flat));
    // Brick y = 13 starts at 104 <= 108.
    assert!(brick_may_contain_terrain([0, 13, 0], flat));
    // Underground bricks are always kept.
    assert!(brick_may_contain_terrain([0, 10, 0], flat));
    assert!(brick_may_contain_terrain([0, -50, 0], flat));
    // The highest sample decides.
    assert!(brick_may_contain_terrain([0, 14, 0], [100, 100, 100, 100, 104]));
}

#[test]
fn plane_ranges_and_coords() {
    assert_eq!(face_plane_ranges(0, [1, 2, 3], 64), ((2 - 64, 2 + 63), (3 - 64, 3 + 63)));
    assert_eq!(face_plane_ranges(1, [1, 2, 3], 64), ((1 - 64, 1 + 63), (3 - 64, 3 + 63)));
    assert_eq!(face_plane_ranges(2, [1, 2, 3], 64), ((1 - 64, 1 + 63), (2 - 64, 2 + 63)));
    assert_eq!(make_coord(0, 9, 1, 2), [9, 1, 2]);
    assert_eq!(make_coord(1, 9, 1, 2), [1, 9, 2]);
    assert_eq!(make_coord(2, 9, 1, 2), [1, 2, 9]);
}

#[test]
fn axis_shift_steps_toward_target() {
    assert!(axis_shift([0, 0, 0], [0, 5, 0], 0).is_none());
    let s = axis_shift([0, 0, 0], [10, 0, 0], 0).unwrap();
    assert_eq!(s.new_origin, [1, 0, 0]);
    assert_eq!(s.evict_face, -STREAMING_RADIUS);
    assert_eq!(s.load_face, 1 + STREAMING_RADIUS - 1);
    let s = axis_shift([0, 0, 0], [0, 0, -3], 2).unwrap();
    assert_eq!(s.new_origin, [0, 0, -1]);
    assert_eq!(s.evict_face, STREAMING_RADIUS - 1);
    assert_eq!(s.load_face, -1 - STREAMING_RADIUS);
}

#[test]
fn queue_face_and_batches() {
    let mut st = ChunkStreamer::new(128);
    assert_eq!(st.max_jobs_per_frame(), 128);
    // Surface at height 100 everywhere; the face x = 0 is queued for the
    // bricks whose y span meets 92..108.
    let heights = vec![[100; 5]; 128 * 128];
    st.enqueue_face(0, 0, [0, 0, 0], &heights);
    // y from -64 to 63 with 8y <= 108: y in -64..=13 (78 values).
    assert_eq!(st.pending_len(), 78 * 128);
    let batch = st.take_batch(5);
    assert_eq!(batch, vec![[0, -64, -64], [0, -64, -63], [0, -64, -62], [0, -64, -61], [0, -64, -60]]);
    assert_eq!(st.pending_len(), 78 * 128 - 5);
    let rest = st.take_batch(usize::MAX);
    assert_eq!(rest.len(), 78 * 128 - 5);
    assert_eq!(rest[rest.len() - 1], [0, 13, 63]);
    assert_eq!(st.pending_len(), 0);
}

#[test]
fn allocate_and_evict_face() {
    let st = ChunkStreamer::new(8);
    let mut sbm = BrickMap::new(MemoryBudget::Low);
    let batch = vec![[0, 0, 0], [0, 0, 0], [0, 1, 0], [5, 0, 0]];
    let jobs = st.allocate_jobs(&batch, &mut sbm);
    assert_eq!(jobs.len(), 3);
    assert_eq!((jobs[0].brick_idx, jobs[0].brick_x, jobs[0].brick_y), (0, 0, 0));
    assert_eq!((jobs[1].brick_idx, jobs[1].brick_y), (1, 1));
    assert_eq!((jobs[2].brick_idx, jobs[2].brick_x), (2, 5));
    assert_eq!(sbm.reveal_pending().len(), 3);
    // Evict the face x = 0 around origin (0, 0, 0): bricks (0, 0, 0) and (0, 1, 0).
    let ev = st.evict_face(0, 0, [0, 0, 0], &mut sbm);
    assert_eq!(ev, vec![(top_grid_index(0, 0, 0), 0), (top_grid_index(0, 1, 0), 1)]);
    assert_eq!(sbm.allocated_bricks(), 1);
}

#[test]
fn full_grid_keeps_only_terrain_bricks() {
    let mut st = ChunkStreamer::new(8);
    // Flat surface at height 0: bricks with 8y <= 8, i.e. y in -64..=1,
    // are kept.
    let heights = vec![[0; 5]; 128 * 128 * 128];
    st.enqueue_full_grid([0, 0, 0], &heights);
    assert_eq!(st.pending_len(), 66 * 128 * 128);
    let first = st.take_batch(2);
    assert_eq!(first, vec![[-64, -64, -64], [-63, -64, -64]]);
    // A surface far above the region keeps every brick.
    let mut high = ChunkStreamer::new(8);
    let heights = vec![[1000; 5]; 128 * 128 * 128];
    high.enqueue_full_grid([0, 0, 0], &heights);
    assert_eq!(high.pending_len(), 128 * 128 * 128);
    // A surface far below the region keeps nothing.
    let mut low = ChunkStreamer::new(8);
    let heights = vec![[-1000; 5]; 128 * 128 * 128];
    low.enqueue_full_grid([0, 0, 0], &heights);
    assert_eq!(low.pending_len(), 0);
}

#[test]
fn evicted_voxels_read_air() {
    let st = ChunkStreamer::new(8);
    let mut sbm = BrickMap::new(MemoryBudget::Low);
    sbm.write_voxel([3, 4, 5], PackedVoxel::new(2));
    sbm.write_voxel([200, 4, 5], PackedVoxel::new(2));
    st.evict_face(0, 0, [0, 0, 0], &mut sbm);
    assert!(sbm.get_voxel([3, 4, 5]).is_air());
    assert_eq!(sbm.get_voxel([200, 4, 5]), PackedVoxel::new(2));
}

#[test]
fn shift_evicts_trailing_face_and_queues_leading_face() {
    let mut st = ChunkStreamer::new(128);
    let mut sbm = BrickMap::new(MemoryBudget::Low);
    // Brick x = 64 sits on the trailing face x = -64 of the region around the
    // origin (slots wrap every 128 bricks).
    sbm.write_voxel([512, 4, 4], PackedVoxel::new(3));
    sbm.write_voxel([8, 4, 4], PackedVoxel::new(3));
    let shift = axis_shift(sbm.lod0_origin(), [10, 0, 0], 0).unwrap();
    assert_eq!(shift.evict_face, -64);
    assert_eq!(shift.load_face, 64);
    let heights = vec![[100; 5]; 128 * 128];
    let evicted = st.apply_shift(0, shift, &heights, &mut sbm);
    assert_eq!(evicted, vec![(top_grid_index(64, 0, 0), 0)]);
    assert!(sbm.get_voxel([512, 4, 4]).is_air());
    assert_eq!(sbm.get_voxel([8, 4, 4]), PackedVoxel::new(3));
    assert_eq!(sbm.lod0_origin(), [1, 0, 0]);
    assert_eq!(st.pending_len(), 78 * 128);
    let first = st.take_batch(1);
    assert_eq!(first, vec![[64, -64, -64]]);
}

#[test]
fn frame_batch_respects_budget() {
    let mut st = ChunkStreamer::new(3);
    let mut sbm = BrickMap::new(MemoryBudget::Low);
    let heights = vec![[100; 5]; 128 * 128];
    st.enqueue_face(0, 0, [0, 0, 0], &heights);
    let before = sbm.allocated_bricks();
    let jobs = st.frame_batch(&mut sbm);
    assert_eq!(jobs.len(), 3);
    assert_eq!((jobs[0].brick_x, jobs[0].brick_y, jobs[0].brick_z), (0, -64, -64));
    assert_eq!((jobs[2].brick_x, jobs[2].brick_y, jobs[2].brick_z), (0, -64, -62));
    assert_eq!(st.pending_len(), 78 * 128 - 3);
    assert_eq!(sbm.allocated_bricks(), before + 3);
    let reveals = sbm.reveal_pending();
    assert_eq!(reveals.len(), 3);
    assert_eq!(reveals[0], (top_grid_index(0, -64, -64), jobs[0].brick_idx));
}

#[test]
fn frame_steps_one_brick_per_axis() {
    let desired = [5, -3, 0];
    let mut o = [0, 0, 0];
    for axis in 0..3 {
        if let Some(s) = axis_shift(o, desired, axis) {
            o = s.new_origin;
        }
    }
    assert_eq!(o, [1, -1, 0]);
}
