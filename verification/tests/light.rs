use std::collections::BTreeMap;

use ara::light::{LightDirtyReason, LightPass, LightPropagator, DEFAULT_PROPAGATION_ITERATIONS};

/// The dirty words the edit marks, walked chunk by chunk over the cube of
/// influence as the engine does, with the float ceiling of radius / 8.
fn reference_words(pos: [i32; 3], radius: i32) -> Vec<(u32, u32)> {
    let base = [pos[0].div_euclid(8), pos[1].div_euclid(8), pos[2].div_euclid(8)];
    let ch_rad = (radius as f32 / 8.0).ceil() as i32;
    let mut map: BTreeMap<u32, u32> = BTreeMap::new();
    for z in -ch_rad..=ch_rad {
        for y in -ch_rad..=ch_rad {
            for x in -ch_rad..=ch_rad {
                let cx = (base[0] + x) & 63;
                let cy = (base[1] + y) & 63;
                let cz = (base[2] + z) & 63;
                let idx = cz * 4096 + cy * 64 + cx;
                *map.entry((idx >> 5) as u32).or_insert(0) |= 1u32 << (idx & 31);
            }
        }
    }
    map.into_iter().collect()
}

#[test]
fn dirty_radius_single_chunk() {
    let mut l = LightPropagator::new();
    assert_eq!(l.mark_dirty_radius([0, 0, 0], 0), vec![(0, 1)]);
    assert!(l.needs_update());
    // Chunk (1, 0, 0) of voxel 8: bit 1 of word 0.
    assert_eq!(l.mark_dirty_radius([8, 3, 7], 0), vec![(0, 2)]);
}

#[test]
fn dirty_radius_matches_cube_walk() {
    let mut l = LightPropagator::new();
    for &(pos, r) in &[
        ([0, 0, 0], 8),
        ([100, -20, 513], 14),
        ([-1, -1, -1], 9),
        ([37, 250, 4000], 3),
        ([0, 0, 0], -9),
        ([5, 5, 5], 300),
    ] {
        assert_eq!(l.mark_dirty_radius(pos, r), reference_words(pos, r), "pos {pos:?} radius {r}");
    }
}

#[test]
fn dirty_radius_wraps_and_fills() {
    let mut l = LightPropagator::new();
    // Radius 8 around chunk (0, 0, 0): x in {63, 0, 1}, so word 1 gets bit 31.
    let w = l.mark_dirty_radius([0, 0, 0], 8);
    assert_eq!(w[0], (0, 0b11));
    assert_eq!(w[1], (1, 1 << 31));
    // A huge radius marks every chunk.
    let all = l.mark_dirty_radius([0, 0, 0], 1 << 20);
    assert_eq!(all.len(), 8192);
    assert!(all.iter().all(|&(_, m)| m == u32::MAX));
}

#[test]
fn propagation_scheduling() {
    let mut l = LightPropagator::new();
    assert!(l.needs_update());
    let first = l.execute_if_dirty().unwrap();
    assert_eq!(first, LightPass { iterations: DEFAULT_PROPAGATION_ITERATIONS, clear_dirty_chunks: false });
    assert!(!l.needs_update());
    assert!(l.execute_if_dirty().is_none());
    l.mark_dirty(LightDirtyReason::BlockEdited { pos_x: 1, pos_y: 2, pos_z: 3 });
    l.set_iterations(7);
    let second = l.execute_if_dirty().unwrap();
    assert_eq!(second, LightPass { iterations: 7, clear_dirty_chunks: true });
    assert_eq!(l.execute(3), LightPass { iterations: 3, clear_dirty_chunks: true });
}
