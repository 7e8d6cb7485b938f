//! The trace of a history graph.
use hanui::entity::{Attributes, Entity, EntityId};
use hanui::history::{HistoryPoint, HistoryWindow, history_path_commands};
use hanui::number::{Real32, Real64};
use hanui::tile::TilePlacement;
use hanui::tiles::compute_history_graph_tile_vm;

fn make_test_entity(id: &str, state: &str) -> Entity {
    Entity {
        id: EntityId::from(id),
        state: state.to_string(),
        state_number: state
            .parse::<f64>()
            .ok()
            .map(|n| Real64 { bits: n.to_bits() }),
        attributes: Attributes::new(),
    }
}

fn value(reading: Option<Real32>) -> Option<f32> {
    reading.map(|r| f32::from_bits(r.bits))
}

/// A window of these points.
fn window_of(points: Vec<(i64, f64)>) -> HistoryWindow {
    HistoryWindow {
        points: points
            .into_iter()
            .map(|(at_second, v)| HistoryPoint {
                at_second,
                value: Real64 { bits: v.to_bits() },
            })
            .collect(),
    }
}

#[test]
fn compute_history_graph_tile_vm_with_no_window_yields_empty_path() {
    let entity = make_test_entity("sensor.energy_today", "23.4");
    let vm = compute_history_graph_tile_vm(
        "Energy".to_owned(),
        "mdi:chart-line".to_owned(),
        2,
        1,
        TilePlacement::default_for(2, 1),
        &entity,
        None,
    );
    assert_eq!(vm.name, "Energy");
    assert_eq!(vm.state, "23.4");
    assert_eq!(vm.change_count, 0);
    assert!(vm.is_available, "23.4 → is_available=true");
    assert!(vm.path_commands.is_empty(), "no window → empty commands");
    assert!(!vm.pending);
}

#[test]
fn compute_history_graph_tile_vm_with_populated_window_emits_path() {
    let entity = make_test_entity("sensor.energy_today", "23.4");
    let window = window_of(vec![
            (0, 1.0),
            (60, 2.0),
            (120, 3.0),
        ]);
    let vm = compute_history_graph_tile_vm(
        "Energy".to_owned(),
        "mdi:chart-line".to_owned(),
        2,
        1,
        TilePlacement::default_for(2, 1),
        &entity,
        Some(&window),
    );
    assert_eq!(vm.change_count, 3);
    assert!(vm.is_available);
    assert!(
        vm.path_commands.starts_with('M'),
        "path commands must start with MoveTo: {}",
        vm.path_commands
    );
    assert!(
        vm.path_commands.contains('L'),
        "path commands must contain at least one LineTo: {}",
        vm.path_commands
    );
}

#[test]
fn compute_history_graph_tile_vm_unavailable_state() {
    let entity = make_test_entity("sensor.energy_today", "unavailable");
    let vm = compute_history_graph_tile_vm(
        "Energy".to_owned(),
        "mdi:chart-line".to_owned(),
        2,
        1,
        TilePlacement::default_for(2, 1),
        &entity,
        None,
    );
    assert!(!vm.is_available, "unavailable → is_available=false");
    assert_eq!(vm.state, "unavailable");
}

#[test]
fn history_path_commands_empty_window() {
    let window = HistoryWindow { points: Vec::new() };
    assert_eq!(history_path_commands(&window), "");
}

#[test]
fn history_path_commands_command_count_matches_points() {
    let window = window_of((0..5)
            .map(|i| (i * 60, i as f64))
            .collect());
    let cmds = history_path_commands(&window);
    let m_count = cmds.matches('M').count();
    let l_count = cmds.matches('L').count();
    assert_eq!(m_count, 1, "exactly one MoveTo: {cmds}");
    assert_eq!(l_count, 4, "exactly (n-1)=4 LineTo: {cmds}");
}

#[test]
fn history_path_commands_x_axis_endpoints_normalised() {
    let window = window_of(vec![
            (100, 1.0),
            (200, 2.0),
        ]);
    let cmds = history_path_commands(&window);
    assert!(
        cmds.starts_with("M 0.0000"),
        "first point must land at x=0.0: {cmds}"
    );
    assert!(
        cmds.contains("L 1.0000"),
        "last point must land at x=1.0: {cmds}"
    );
}

#[test]
fn history_path_commands_constant_value_lands_at_centreline() {
    let window = window_of(vec![
            (0, 5.0),
            (60, 5.0),
            (120, 5.0),
        ]);
    let cmds = history_path_commands(&window);
    let y_05_count = cmds.matches("0.5000").count();
    assert!(
        y_05_count >= 3,
        "constant trace should produce y=0.5 for every point: {cmds}"
    );
}

#[test]
fn history_path_commands_single_point_window() {
    let window = window_of(vec![(42, 5.0)]);
    let cmds = history_path_commands(&window);
    assert_eq!(cmds.matches('M').count(), 1);
    assert_eq!(cmds.matches('L').count(), 0);
    assert_eq!(
        cmds, "M 0.0000 0.5000",
        "single-point window must collapse to (0, 0.5)"
    );
}

#[test]
fn history_path_commands_coincident_timestamps_collapse_x_axis() {
    let window = window_of(vec![
            (100, 1.0),
            (100, 2.0),
            (100, 3.0),
        ]);
    let cmds = history_path_commands(&window);
    let x_zero_count = cmds.matches("0.0000").count();
    assert!(
        x_zero_count >= 3,
        "all coincident-timestamp points must collapse to x=0.0: {cmds}"
    );
    assert!(
        cmds.contains("1.0000"),
        "Y axis must still span when ts_span==0: {cmds}"
    );
}

#[test]
fn history_path_commands_y_axis_inverts_for_screen_space() {
    let window = window_of(vec![
            (0, 1.0),
            (60, 10.0),
        ]);
    let cmds = history_path_commands(&window);
    assert!(
        cmds.starts_with("M 0.0000 1.0000"),
        "minimum value must land at y=1.0 (bottom): {cmds}"
    );
    assert!(
        cmds.contains("L 1.0000 0.0000"),
        "maximum value must land at y=0.0 (top): {cmds}"
    );
}

/// Every command, letter for letter.
#[test]
fn path_is_exact() {
    let window = window_of(vec![(0, 1.0), (30, 2.0), (120, 4.0)]);
    assert_eq!(
        history_path_commands(&window),
        "M 0.0000 1.0000 L 0.2500 0.6667 L 1.0000 0.0000"
    );
}

/// Values that are no numbers do not make a trace vary; infinite ones do.
#[test]
fn odd_values_in_a_trace() {
    let nan = window_of(vec![(0, 5.0), (60, f64::NAN)]);
    assert_eq!(history_path_commands(&nan), "M 0.0000 0.5000 L 1.0000 0.5000");
    let zeros = window_of(vec![(0, 0.0), (60, -0.0)]);
    assert_eq!(history_path_commands(&zeros), "M 0.0000 0.5000 L 1.0000 0.5000");
    let none = window_of(vec![(0, f64::NAN)]);
    assert_eq!(history_path_commands(&none), "M 0.0000 NaN");
    let endless = window_of(vec![(0, f64::INFINITY)]);
    assert_eq!(history_path_commands(&endless), "M 0.0000 NaN");
}

/// A window that runs backwards lies at one instant, and a point outside the window
/// is drawn at its edge.
#[test]
fn coordinates_stay_in_the_unit_square() {
    let back = window_of(vec![(60, 1.0), (0, 2.0)]);
    assert_eq!(history_path_commands(&back), "M 0.0000 1.0000 L 0.0000 0.0000");
    let astray = window_of(vec![(10, 0.0), (0, 8.0), (40, 4.0), (30, 2.0)]);
    assert_eq!(
        history_path_commands(&astray),
        "M 0.0000 1.0000 L 0.0000 0.0000 L 1.0000 0.5000 L 1.0000 0.7500"
    );
}

/// Values whose range is beyond the largest number.
#[test]
fn range_beyond_the_largest_number() {
    let wide = window_of(vec![(0, -1.7e308), (1, 0.0), (4, 1.7e308)]);
    assert_eq!(
        history_path_commands(&wide),
        "M 0.0000 1.0000 L 0.2500 1.0000 L 1.0000 NaN"
    );
    let open = window_of(vec![(0, 1.0), (1, f64::INFINITY)]);
    assert_eq!(history_path_commands(&open), "M 0.0000 1.0000 L 1.0000 NaN");
    let low = window_of(vec![(0, 1.0), (1, f64::NEG_INFINITY)]);
    assert_eq!(history_path_commands(&low), "M 0.0000 NaN L 1.0000 NaN");
}

/// The same trace, drawn with the machine's own arithmetic.
fn drawn_by_the_machine(points: &[(i64, f64)]) -> String {
    let first = points[0].0 as f64;
    let duration = (points[points.len() - 1].0 as f64 - first).max(0.0);
    let mut low = f64::INFINITY;
    let mut high = f64::NEG_INFINITY;
    for (_, v) in points {
        if *v < low {
            low = *v;
        }
        if *v > high {
            high = *v;
        }
    }
    let range = (high - low).abs();
    let commands: Vec<String> = points
        .iter()
        .enumerate()
        .map(|(i, (at, v))| {
            let x = if duration == 0.0 {
                0.0
            } else {
                ((*at as f64 - first) / duration).clamp(0.0, 1.0)
            };
            let y = if range == 0.0 {
                0.5
            } else {
                (1.0 - (v - low) / range).clamp(0.0, 1.0)
            };
            format!("{} {x:.4} {y:.4}", if i == 0 { "M" } else { "L" })
        })
        .collect();
    commands.join(" ")
}

/// Ties included, every trace is drawn as the machine draws it.
#[test]
fn traces_agree_with_the_machine() {
    let mut seed: u64 = 42;
    let mut next = || {
        seed = seed.wrapping_mul(6364136223846793005).wrapping_add(1442695040888963407);
        seed >> 11
    };
    for round in 0..3000 {
        let count = 1 + (next() % 6) as usize;
        let points: Vec<(i64, f64)> = (0..count)
            .map(|_| {
                let at = match round % 3 {
                    0 => (next() % 33) as i64,
                    1 => 1_700_000_000 + (next() % 86_400) as i64,
                    _ => (next() % 1_000_000_007) as i64 * 9 - 4_000_000_000,
                };
                let v = match next() % 8 {
                    0 => (next() % 33) as f64,
                    1 => (next() % 65) as f64 / 64.0,
                    2 => -((next() % 20_001) as f64) / 20_000.0,
                    3 => (next() as f64) * 1e-20,
                    4 => f64::from_bits(next() << 11),
                    5 => f64::from_bits(next() % 1000),
                    6 => (next() % 1000) as f64 / 10.0,
                    _ => -(next() as f64),
                };
                (at, v)
            })
            .collect();
        assert_eq!(
            history_path_commands(&window_of(points.clone())),
            drawn_by_the_machine(&points),
            "{points:?}"
        );
    }
}

/// Of time, only the offsets from the first point count.
#[test]
fn shifted_window_is_drawn_alike() {
    let points = vec![(0, 1.0), (7, 5.0), (31, 2.5), (97, 4.0)];
    let drawn = history_path_commands(&window_of(points.clone()));
    for shift in [1, -1, 60, 1_700_000_000, -377_705_023_201, 253_402_207_103] {
        let moved = points.iter().map(|(at, v)| (at + shift, *v)).collect();
        assert_eq!(history_path_commands(&window_of(moved)), drawn);
    }
}
