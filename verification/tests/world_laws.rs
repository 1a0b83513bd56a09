use ara::world::{compute_origin, WorldManager};

#[test]
fn atlas_centers_player() {
    for &p in &[0, 1, 255, 256, 287, 288, -1, -33, 1000, -1000] {
        let o = compute_origin([p, p, p]);
        for k in 0..3 {
            assert_eq!(o[k].rem_euclid(32), 0);
            assert!(o[k] + 256 <= p && p < o[k] + 288, "p {p} origin {}", o[k]);
        }
    }
}

#[test]
fn streaming_back_and_forth_is_symmetric() {
    let mut w = WorldManager::new();
    w.generate_initial_chunks([256, 256, 256]);
    let fwd = w.update_view([256 + 64, 256, 256]).unwrap();
    assert_eq!(fwd.len(), 2 * 256);
    let back = w.update_view([256, 256, 256]).unwrap();
    assert_eq!(back.len(), 2 * 256);
    assert!(back.iter().all(|c| c[0] == 0 || c[0] == 1));
    assert_eq!(w.world_origin_ivec3(), [0, 0, 0]);
}

#[test]
fn entering_chunks_are_distinct() {
    let e = ara::world::chunks_entering([0, 0, 0], [64, -96, 32]);
    let mut seen = std::collections::HashSet::new();
    assert!(e.iter().all(|c| seen.insert(*c)));
    assert!(!e.is_empty());
}

#[test]
fn initial_chunks_near_the_top_of_the_range() {
    let mut w = WorldManager::new();
    let p = i32::MAX - 224;
    let offs = w.generate_initial_chunks([p, 0, p]);
    let o = w.world_origin_ivec3();
    assert_eq!(o[0], compute_origin([p, 0, p])[0]);
    assert_eq!(offs[4095][0], o[0] + 480);
    assert!(offs[4095][0] <= i32::MAX);
}
