use ara::world::{
    chunk_voxel_offset, chunks_entering, compute_origin, occupancy_offset, pack_origin,
    scatter_packed_chunks, wrap_chunk, WorldManager, CHUNK_VOL, MAX_PACK_CHUNKS,
};

#[test]
fn chunk_wrapping_and_offsets() {
    assert_eq!(wrap_chunk(-1), 15);
    assert_eq!(wrap_chunk(17), 1);
    assert_eq!(wrap_chunk(-16), 0);
    assert_eq!(occupancy_offset([-1, 0, 17]), 4 * (256 + 15));
    assert_eq!(pack_origin([-1, 16, 33]), [480, 0, 32]);
    assert_eq!(chunk_voxel_offset([-2, 0, 3]), [-64, 0, 96]);
}

#[test]
fn entering_chunks_on_one_step() {
    assert!(chunks_entering([0, 0, 0], [0, 0, 0]).is_empty());
    // Moving one chunk along +x brings in the plane x = 16.
    let e = chunks_entering([0, 0, 0], [32, 0, 0]);
    assert_eq!(e.len(), 256);
    assert_eq!(e[0], [16, 0, 0]);
    assert_eq!(e[1], [16, 1, 0]);
    assert!(e.iter().all(|c| c[0] == 16));
    // Moving one chunk along -z brings in the plane z = -1.
    let e = chunks_entering([0, 0, 0], [0, 0, -32]);
    assert_eq!(e.len(), 256);
    assert_eq!(e[0], [0, 0, -1]);
    assert_eq!(e[255], [15, 15, -1]);
    // Origins inside the same chunk keep the atlas.
    assert!(chunks_entering([0, 0, 0], [31, 5, 17]).is_empty());
    // A far jump streams the whole atlas.
    assert_eq!(chunks_entering([0, 0, 0], [10_000, 0, 0]).len(), 4096);
}

#[test]
fn initial_chunks_and_view_updates() {
    let mut w = WorldManager::new();
    assert_eq!(w.world_origin_ivec3(), [0, 0, 0]);
    let offs = w.generate_initial_chunks([256, 256, 256]);
    assert_eq!(w.world_origin_ivec3(), compute_origin([256, 256, 256]));
    assert_eq!(w.world_origin_ivec3(), [0, 0, 0]);
    assert_eq!(offs.len(), 4096);
    assert_eq!(offs[0], [0, 0, 0]);
    assert_eq!(offs[1], [32, 0, 0]);
    assert_eq!(offs[16], [0, 32, 0]);
    assert_eq!(offs[4095], [480, 480, 480]);
    // Same chunk: nothing to do.
    assert!(w.update_view([270, 256, 256]).is_none());
    // One chunk along +x.
    let e = w.update_view([288, 256, 256]).unwrap();
    assert_eq!(e.len(), 256);
    assert_eq!(w.world_origin_ivec3(), [32, 0, 0]);
    // The entering chunks wait for readback.
    let batch = w.request_readback(false);
    assert_eq!(batch.len(), MAX_PACK_CHUNKS);
    assert_eq!(batch[0], e[0]);
    assert!(w.readback_wanted());
}

#[test]
fn readback_dedup_and_cap() {
    let mut w = WorldManager::new();
    w.mark_brush_dirty([0, 0, 0], [1, 0, 0]);
    w.mark_brush_dirty([1, 0, 0], [2, 0, 0]);
    // Duplicates are packed once, in order of first change.
    let b = w.request_readback(false);
    assert_eq!(b, vec![[0, 0, 0], [1, 0, 0], [2, 0, 0]]);
    assert!(!w.readback_wanted());
    assert!(w.request_readback(false).is_empty());
    // A box of 20 chunks: 16 are packed, 4 stay queued.
    w.mark_brush_dirty([0, 0, 0], [4, 3, 0]);
    let b = w.request_readback(false);
    assert_eq!(b.len(), 16);
    assert_eq!(b[0], [0, 0, 0]);
    assert_eq!(b[5], [0, 1, 0]);
    assert!(w.readback_wanted());
    w.readback_started();
    assert!(!w.readback_wanted());
    // While in flight, requests only remember themselves.
    assert!(w.request_readback(false).is_empty());
    w.readback_finished();
    assert!(w.readback_wanted());
    let rest = w.request_readback(false);
    assert_eq!(rest, vec![[1, 3, 0], [2, 3, 0], [3, 3, 0], [4, 3, 0]]);
    assert!(!w.readback_wanted());
    // An empty or inverted box marks nothing.
    w.mark_brush_dirty([3, 0, 0], [2, 0, 0]);
    assert!(w.request_readback(false).is_empty());
}

#[test]
fn full_copy_request_keeps_dirty_chunks() {
    let mut w = WorldManager::new();
    w.mark_brush_dirty([0, 0, 0], [0, 0, 0]);
    assert!(w.request_readback(true).is_empty());
    assert!(!w.readback_wanted());
    assert_eq!(w.request_readback(false), vec![[0, 0, 0]]);
}

#[test]
fn scatter_writes_wrapped_slots() {
    let mut voxels = vec![0u32; 512 * 512 * 512];
    let chunks = [[1, 0, 0], [-1, 2, 17]];
    let packed: Vec<u32> = (0..2 * CHUNK_VOL as u32).map(|v| v + 1).collect();
    scatter_packed_chunks(&mut voxels, &chunks, &packed);
    let at = |x: usize, y: usize, z: usize| voxels[z * 512 * 512 + y * 512 + x];
    // First chunk lands at x 32..64; its first voxel and its last.
    assert_eq!(at(32, 0, 0), 1);
    assert_eq!(at(33, 0, 0), 2);
    assert_eq!(at(32, 1, 0), 33);
    assert_eq!(at(63, 31, 31), CHUNK_VOL as u32);
    assert_eq!(at(31, 0, 0), 0);
    assert_eq!(at(64, 0, 0), 0);
    // Second chunk wraps to slot (15, 2, 1).
    assert_eq!(at(480, 64, 32), CHUNK_VOL as u32 + 1);
    assert_eq!(at(511, 95, 63), 2 * CHUNK_VOL as u32);
}

#[test]
fn scatter_later_chunk_wins_in_shared_slot() {
    let mut voxels = vec![7u32; 512 * 512 * 512];
    let chunks = [[0, 0, 0], [16, 0, 0]];
    let mut packed = vec![1u32; CHUNK_VOL];
    packed.extend(std::iter::repeat(2u32).take(CHUNK_VOL));
    scatter_packed_chunks(&mut voxels, &chunks, &packed);
    assert_eq!(voxels[0], 2);
    assert_eq!(voxels[31 * 512 * 512 + 31 * 512 + 31], 2);
    assert_eq!(voxels[32], 7);
}
