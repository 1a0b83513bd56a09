use ara::camera::HaltonJitter;
use ara::clipmap::{cell_size, plan_cascade_update, ClipmapUpdate, VoxelClipmaps};
use ara::input::{Action, InputManager};
use ara::light::LightDirtyReason;
use ara::raycast::{voxel_index, wrap_coord, wrapped_voxel_index};
use ara::brick_map::placement_target;
use ara::render_modes::{
    next_taa_debug_mode, smaa_stages, taa_packed_flags, AaMode, SmaaPreset, SmaaStages, TaaHistory,
    TaaPreset,
};
use ara::ui::{BlockPickerState, HotbarState};
use ara::world::{compute_origin, floor_div};
use ara::{MemoryBudget, PoolBudget};

#[test]
fn pool_budget_bricks() {
    assert_eq!(PoolBudget::new(256).total_bytes, 268_435_456);
    assert_eq!(PoolBudget::new(256).max_bricks(), 235_549);
    assert_eq!(PoolBudget::new(512).max_bricks(), 262_144);
    assert_eq!(PoolBudget::new(8).max_bricks(), 0);
    assert_eq!(PoolBudget { total_bytes: 8_388_608 + 1104 * 3 + 5 }.max_bricks(), 3);
    // Huge budgets are capped, never wrapped.
    assert_eq!(PoolBudget { total_bytes: 1104 * (1u64 << 32) + 8_388_608 }.max_bricks(), 262_144);
    assert_eq!(PoolBudget::new(4_521_993).max_bricks(), 262_144);
    assert_eq!(PoolBudget { total_bytes: u64::MAX }.max_bricks(), 262_144);
    assert_eq!(MemoryBudget::Low.max_bricks(), 235_549);
    assert_eq!(MemoryBudget::Medium.max_bricks(), 262_144);
    assert_eq!(MemoryBudget::High.max_bricks(), 262_144);
    assert_eq!(MemoryBudget::Low.voxel_pool_bytes(), 235_549 * 1024);
    assert_eq!(MemoryBudget::High.pool_budget().total_bytes, 2048 * 1024 * 1024);
}

#[test]
fn halton_cycle() {
    let mut j = HaltonJitter::new(2);
    assert_eq!(j.len(), 4);
    assert!(!j.is_empty());
    assert_eq!(HaltonJitter::new(100).len(), 8);
    assert_eq!(HaltonJitter::new(6).len(), 6);
    let seq: Vec<usize> = (0..6).map(|_| j.next()).collect();
    assert_eq!(seq, vec![0, 1, 2, 3, 0, 1]);
    assert_eq!(j.current(), 2);
    j.reset();
    assert_eq!(j.current(), 0);
}

#[test]
fn aa_mode_cycle() {
    let mut m = AaMode::Off;
    let mut seen = Vec::new();
    for _ in 0..5 {
        m = m.next();
        seen.push(m);
    }
    assert_eq!(seen, vec![AaMode::Fxaa, AaMode::Smaa, AaMode::Taa, AaMode::TaaThenSmaa, AaMode::Off]);
    assert!(AaMode::Taa.uses_taa() && AaMode::TaaThenSmaa.uses_taa() && !AaMode::Smaa.uses_taa());
}

#[test]
fn presets_and_flags() {
    assert_eq!(SmaaPreset::Low.max_search_steps(), 4);
    assert_eq!(SmaaPreset::Ultra.max_search_steps(), 32);
    assert_ne!(TaaPreset::Low, TaaPreset::High);
    assert_eq!(taa_packed_flags(true, true), 3);
    assert_eq!(taa_packed_flags(false, true), 2);
    assert_eq!(taa_packed_flags(true, false), 1);
    assert_eq!(taa_packed_flags(false, false), 0);
}

#[test]
fn taa_debug_mode_cycle() {
    let s = next_taa_debug_mode(0);
    assert_eq!((s.mode, s.clear_history), (1, false));
    let s = next_taa_debug_mode(3);
    assert_eq!((s.mode, s.clear_history), (4, true));
    let s = next_taa_debug_mode(12);
    assert_eq!((s.mode, s.clear_history), (0, true));
    let s = next_taa_debug_mode(5);
    assert_eq!((s.mode, s.clear_history), (6, false));
}

#[test]
fn hotbar_and_picker() {
    let mut h = HotbarState::new();
    assert_eq!(h.slots, [1, 2, 3, 4, 5, 6, 7, 8, 0]);
    assert_eq!(h.selected_block_id(), 1);
    h.selected = 8;
    assert_eq!(h.selected_block_id(), 0);
    assert!(!BlockPickerState::new().visible);
}

#[test]
fn floor_division() {
    assert_eq!(floor_div(7, 2), 3);
    assert_eq!(floor_div(-7, 2), -4);
    assert_eq!(floor_div(7, -2), -4);
    assert_eq!(floor_div(-7, -2), 3);
    assert_eq!(floor_div(-8, 2), -4);
    assert_eq!(floor_div(0, 5), 0);
    assert_eq!(floor_div(i32::MIN, 1), i32::MIN);
    assert_eq!(floor_div(-1, 32), -1);
}

#[test]
fn origin_centers_player() {
    assert_eq!(compute_origin([0, 0, 0]), [-256, -256, -256]);
    assert_eq!(compute_origin([300, 255, 256]), [32, -32, 0]);
    assert_eq!(compute_origin([-1, 31, 288]), [-288, -256, 32]);
}

#[test]
fn clipmap_updates() {
    assert_eq!(cell_size(0), 2);
    assert_eq!(cell_size(5), 64);
    assert!(matches!(plan_cascade_update([1, 2, 3], [1, 2, 3]), ClipmapUpdate::Unchanged));
    assert!(matches!(plan_cascade_update([0, 0, 0], [0, 256, 0]), ClipmapUpdate::Full));
    assert!(matches!(plan_cascade_update([0, 0, 0], [0, 0, -300]), ClipmapUpdate::Full));
    match plan_cascade_update([0, 0, 0], [2, 0, -1]) {
        ClipmapUpdate::Faces(f) => assert_eq!(f, vec![(0, 257), (0, 256), (2, -257)]),
        _ => panic!("expected a ring update"),
    }
}

#[test]
fn raycast_indexing() {
    assert_eq!(voxel_index(1, 2, 3), 3 * 512 * 512 + 2 * 512 + 1);
    assert_eq!(wrap_coord(-1), 511);
    assert_eq!(wrap_coord(512), 0);
    assert_eq!(wrap_coord(-513), 511);
    assert_eq!(wrapped_voxel_index([-1, 512, 3]), voxel_index(511, 0, 3));
}

#[test]
fn input_bindings() {
    let mut input = InputManager::new();
    input.bind(17, Action::MoveForward);
    input.bind(31, Action::MoveBackward);
    assert!(!input.is_active(Action::MoveForward));
    input.key_down(17);
    assert!(input.is_active(Action::MoveForward));
    assert_eq!(input.get_axis(Action::MoveBackward, Action::MoveForward), 1);
    input.key_down(31);
    assert_eq!(input.get_axis(Action::MoveBackward, Action::MoveForward), 0);
    input.key_up(17);
    assert_eq!(input.get_axis(Action::MoveBackward, Action::MoveForward), -1);
    input.key_down(99);
    input.bind(17, Action::Sprint);
    input.key_down(17);
    assert!(input.is_active(Action::Sprint));
    input.reset();
    assert!(!input.is_active(Action::Sprint));
    assert!(!input.is_active(Action::MoveBackward));
    assert!(!input.cursor_grabbed);
}

#[test]
fn light_reasons() {
    let r = LightDirtyReason::BlockEdited { pos_x: 1, pos_y: 2, pos_z: 3 };
    assert_ne!(r, LightDirtyReason::ChunkLoaded);
    assert_eq!(LightDirtyReason::TimeOfDay, LightDirtyReason::TimeOfDay);
}

#[test]
fn taa_history_ping_pong() {
    let mut h = TaaHistory::new();
    assert!(!h.has_valid_history());
    let a = h.resolve();
    assert_eq!((a.read, a.write, a.has_valid_history), (1, 0, false));
    assert_eq!(h.output_write_index(), 0);
    let b = h.resolve();
    assert_eq!((b.read, b.write, b.has_valid_history), (0, 1, true));
    // What one frame writes, the next reads.
    assert_eq!(a.write, b.read);
    assert_eq!(h.history_read_index(), 0);
    h.reset_history();
    assert!(!h.has_valid_history());
}

#[test]
fn taa_debug_cycle_clears_history() {
    let mut h = TaaHistory::new();
    h.resolve();
    h.resolve();
    assert!(!h.cycle_debug_mode());
    assert_eq!(h.debug_mode(), 1);
    assert!(h.has_valid_history());
    h.set_debug_mode(3);
    // Entering the raw-history view restarts the history.
    assert!(h.cycle_debug_mode());
    assert_eq!(h.debug_mode(), 4);
    assert!(!h.has_valid_history());
    h.set_debug_mode(12);
    // Back to normal output from a debug mode.
    assert!(h.cycle_debug_mode());
    assert_eq!(h.debug_mode(), 0);
}

#[test]
fn placement_next_to_hit_face() {
    assert_eq!(placement_target([5, 5, 5], [0, 1, 0], [0, 0, 0]), Some([5, 6, 5]));
    // Never inside the camera's cell.
    assert_eq!(placement_target([5, 5, 5], [0, 1, 0], [5, 6, 5]), None);
    // Never outside the world cube.
    assert_eq!(placement_target([0, 5, 5], [-1, 0, 0], [9, 9, 9]), None);
    assert_eq!(placement_target([1023, 5, 5], [1, 0, 0], [9, 9, 9]), None);
    assert_eq!(placement_target([1022, 5, 5], [1, 0, 0], [9, 9, 9]), Some([1023, 5, 5]));
}

#[test]
fn clipmap_cascades_track_centers() {
    let mut c = VoxelClipmaps::new();
    let mut centers = [[0, 0, 0]; 6];
    assert!(c.update(centers).is_empty());
    centers[1] = [2, 0, 0];
    centers[4] = [0, 300, 0];
    let r = c.update(centers);
    assert_eq!(r.len(), 2);
    assert_eq!(r[0].0, 1);
    match &r[0].1 {
        ClipmapUpdate::Faces(f) => assert_eq!(f, &vec![(0, 257), (0, 256)]),
        _ => panic!("expected a ring update"),
    }
    assert_eq!(r[1].0, 4);
    assert!(matches!(r[1].1, ClipmapUpdate::Full));
    assert_eq!(c.center_of(1), [2, 0, 0]);
    assert_eq!(c.center_of(4), [0, 300, 0]);
    assert!(c.update(centers).is_empty());
    c.build_full([[5, 5, 5]; 6]);
    assert_eq!(c.center_of(5), [5, 5, 5]);
}

#[test]
fn smaa_debug_routing() {
    assert_eq!(smaa_stages(0), SmaaStages::Full);
    assert_eq!(smaa_stages(1), SmaaStages::EdgesOnly);
    assert_eq!(smaa_stages(3), SmaaStages::EdgesOnly);
    assert_eq!(smaa_stages(4), SmaaStages::EdgesAndWeights);
    assert_eq!(smaa_stages(8), SmaaStages::EdgesAndWeights);
    assert_eq!(smaa_stages(9), SmaaStages::Full);
}

#[test]
fn jitter_cycle_returns_distinct_samples() {
    let mut j = HaltonJitter::new(6);
    j.next();
    let start = j.current();
    let got: Vec<usize> = (0..j.len()).map(|_| j.next()).collect();
    let mut sorted = got.clone();
    sorted.sort();
    sorted.dedup();
    assert_eq!(sorted.len(), 6);
    assert_eq!(j.current(), start);
}

#[test]
fn ring_update_face_count() {
    match plan_cascade_update([0, 0, 0], [3, -2, 1]) {
        ClipmapUpdate::Faces(f) => assert_eq!(f.len(), 6),
        _ => panic!("expected a ring update"),
    }
}

#[test]
fn jitter_position_stays_in_cycle() {
    let mut j = HaltonJitter::new(5);
    for _ in 0..12 {
        assert!(j.current() < j.len());
        assert!(!j.is_empty());
        j.next();
    }
    assert_eq!(j.current(), 12 % 5);
    j.reset();
    let fresh = HaltonJitter::new(5);
    assert_eq!((j.current(), j.len()), (fresh.current(), fresh.len()));
}
