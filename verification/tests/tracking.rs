use keyboard_tracker::Position;
use keyboard_tracker::stats::{KeyStats, MouseStats};
use keyboard_tracker::tracker::{InputTracker, KeystrokeCounter, Snapshot};

fn labels(names: &[&str]) -> Vec<String> {
    names.iter().map(|n| n.to_string()).collect()
}

fn pos(x: i32, y: i32) -> Position {
    Position { x, y }
}

#[test]
fn keys_scenario_rising_edges_only() {
    // snapshots {}, {A}, {A}, {A,B}, {}: one press of A, one press of B
    let mut c = KeystrokeCounter::new_at(10);
    let snaps = vec![
        labels(&[]),
        labels(&["A"]),
        labels(&["A"]),
        labels(&["A", "B"]),
        labels(&[]),
    ];
    for w in snaps.windows(2) {
        c.sample(&w[0], &w[1], 11);
    }
    assert_eq!(c.get_total_keystrokes(), 2);
    let stats = c.get_stats();
    assert_eq!(stats.key_frequencies.len(), 2);
    assert_eq!(stats.key_frequencies.get(&"A".to_string()), 1);
    assert_eq!(stats.key_frequencies.get(&"B".to_string()), 1);
}

#[test]
fn held_key_counts_once() {
    let mut c = KeystrokeCounter::new_at(0);
    let prev = labels(&[]);
    let curr = labels(&["Space"]);
    c.sample(&prev, &curr, 1);
    // held across many further samples: no additional events
    for _ in 0..5 {
        c.sample(&curr, &curr, 2);
    }
    assert_eq!(c.get_total_keystrokes(), 1);
    assert_eq!(c.get_stats().key_frequencies.get(&"Space".to_string()), 1);
}

#[test]
fn release_and_repress_counts_again() {
    let mut c = KeystrokeCounter::new_at(0);
    let none = labels(&[]);
    let a = labels(&["A"]);
    c.sample(&none, &a, 1);
    c.sample(&a, &none, 2);
    c.sample(&none, &a, 3);
    assert_eq!(c.get_total_keystrokes(), 2);
    assert_eq!(c.get_stats().key_frequencies.get(&"A".to_string()), 2);
}

#[test]
fn frequencies_sum_to_total() {
    let mut c = KeystrokeCounter::new_at(0);
    let snaps = vec![
        labels(&[]),
        labels(&["A", "B"]),
        labels(&["B", "C"]),
        labels(&[]),
        labels(&["A"]),
    ];
    for w in snaps.windows(2) {
        c.sample(&w[0], &w[1], 7);
    }
    let stats = c.get_stats();
    let sum = stats.key_frequencies.get(&"A".to_string())
        + stats.key_frequencies.get(&"B".to_string())
        + stats.key_frequencies.get(&"C".to_string());
    assert_eq!(sum, stats.total_keystrokes);
    assert_eq!(stats.total_keystrokes, 4);
}

#[test]
fn mouse_scenario_moves_recorded_from_baseline() {
    // coords (0,0) -> (5,5) -> (5,5) -> (9,9), no buttons
    let mut t = InputTracker::new_at(0);
    let coords = [pos(0, 0), pos(5, 5), pos(5, 5), pos(9, 9)];
    for w in coords.windows(2) {
        let prev = Snapshot { keys: labels(&[]), cursor: w[0], buttons: labels(&[]) };
        let curr = Snapshot { keys: labels(&[]), cursor: w[1], buttons: labels(&[]) };
        t.sample(&prev, &curr, 3);
    }
    let stats = t.get_stats();
    assert_eq!(stats.mouse_stats.total_clicks, 0);
    assert_eq!(stats.mouse_stats.mouse_positions, vec![pos(5, 5), pos(9, 9)]);
    assert_eq!(stats.mouse_stats.click_positions.len(), 0);
}

#[test]
fn trail_capacity_evicts_oldest() {
    let mut m = MouseStats::new(0);
    for i in 0..1001i32 {
        m.record_mouse_move(pos(i, -i), 1);
    }
    assert_eq!(m.mouse_positions.len(), 1000);
    // the first recorded position (0,0) is gone; the trail starts at (1,-1)
    assert_eq!(m.mouse_positions[0], pos(1, -1));
    assert!(!m.mouse_positions.contains(&pos(0, 0)));
    assert_eq!(m.mouse_positions[999], pos(1000, -1000));

    // one more move drops (1,-1) in turn
    m.record_mouse_move(pos(7, 7), 2);
    assert_eq!(m.mouse_positions.len(), 1000);
    assert_eq!(m.mouse_positions[0], pos(2, -2));
    assert!(!m.mouse_positions.contains(&pos(1, -1)));
    assert_eq!(m.mouse_positions[999], pos(7, 7));
}

#[test]
fn click_positions_never_pruned() {
    let mut m = MouseStats::new(0);
    for i in 0..1500i32 {
        m.record_click(&"1".to_string(), pos(i, i), 5);
    }
    assert_eq!(m.total_clicks, 1500);
    assert_eq!(m.click_positions.len(), 1500);
    assert_eq!(m.click_positions[0], pos(0, 0));
    assert_eq!(m.click_positions[1499], pos(1499, 1499));
    assert_eq!(m.button_frequencies.get(&"1".to_string()), 1500);
}

#[test]
fn button_edges_counted_like_keys() {
    let mut t = InputTracker::new_at(0);
    let held = |bs: &[&str], at: Position| Snapshot {
        keys: labels(&[]),
        cursor: at,
        buttons: labels(bs),
    };
    // press 1, hold it, press 3 beside it, release both
    t.sample(&held(&[], pos(1, 1)), &held(&["1"], pos(1, 1)), 1);
    t.sample(&held(&["1"], pos(1, 1)), &held(&["1"], pos(1, 1)), 2);
    t.sample(&held(&["1"], pos(1, 1)), &held(&["1", "3"], pos(2, 2)), 3);
    t.sample(&held(&["1", "3"], pos(2, 2)), &held(&[], pos(2, 2)), 4);
    let stats = t.get_stats();
    assert_eq!(stats.mouse_stats.total_clicks, 2);
    assert_eq!(stats.mouse_stats.button_frequencies.get(&"1".to_string()), 1);
    assert_eq!(stats.mouse_stats.button_frequencies.get(&"3".to_string()), 1);
    // each click is recorded at the coordinates of its sample
    assert_eq!(stats.mouse_stats.click_positions, vec![pos(1, 1), pos(2, 2)]);
    // the move from (1,1) to (2,2) was recorded too
    assert_eq!(stats.mouse_stats.mouse_positions, vec![pos(2, 2)]);
}

#[test]
fn reset_matches_fresh_construction() {
    let mut c = KeystrokeCounter::new_at(100);
    c.sample(&labels(&[]), &labels(&["A", "B"]), 101);
    assert_eq!(c.get_total_keystrokes(), 2);
    c.reset_stats_at(42);
    let after = c.get_stats();
    let fresh = KeyStats::new(42);
    assert_eq!(after.total_keystrokes, fresh.total_keystrokes);
    assert_eq!(after.key_frequencies.len(), fresh.key_frequencies.len());
    assert_eq!(after.start_time, 42);
    assert_eq!(after.last_keystroke_time, 42);

    let mut t = InputTracker::new_at(100);
    let prev = Snapshot { keys: labels(&[]), cursor: pos(0, 0), buttons: labels(&[]) };
    let curr = Snapshot { keys: labels(&["A"]), cursor: pos(3, 3), buttons: labels(&["1"]) };
    t.sample(&prev, &curr, 101);
    t.reset_stats_at(42);
    let stats = t.get_stats();
    assert_eq!(stats.key_stats.total_keystrokes, 0);
    assert_eq!(stats.key_stats.key_frequencies.len(), 0);
    assert_eq!(stats.key_stats.start_time, 42);
    assert_eq!(stats.key_stats.last_keystroke_time, 42);
    assert_eq!(stats.mouse_stats.total_clicks, 0);
    assert_eq!(stats.mouse_stats.mouse_positions.len(), 0);
    assert_eq!(stats.mouse_stats.click_positions.len(), 0);
    assert_eq!(stats.mouse_stats.button_frequencies.len(), 0);
    assert_eq!(stats.mouse_stats.last_click_time, 42);
    assert_eq!(stats.mouse_stats.last_move_time, 42);
}

#[test]
fn double_start_spawns_once() {
    let mut c = KeystrokeCounter::new_at(0);
    assert!(c.start_tracking());
    assert!(!c.start_tracking());
    assert!(c.is_tracking);
    c.stop_tracking();
    assert!(!c.is_tracking);
    assert!(c.start_tracking());

    let mut t = InputTracker::new_at(0);
    assert!(t.start_tracking());
    assert!(!t.start_tracking());
    t.stop_tracking();
    assert!(t.start_tracking());
}

#[test]
fn start_and_stop_leave_stats_untouched() {
    let mut c = KeystrokeCounter::new_at(9);
    c.sample(&labels(&[]), &labels(&["X"]), 10);
    c.start_tracking();
    c.stop_tracking();
    assert_eq!(c.get_total_keystrokes(), 1);
    assert_eq!(c.get_stats().start_time, 9);
}

#[test]
fn get_stats_is_a_deep_copy() {
    let mut c = KeystrokeCounter::new_at(0);
    c.sample(&labels(&[]), &labels(&["A"]), 1);
    let copy = c.get_stats();
    c.sample(&labels(&[]), &labels(&["B"]), 2);
    assert_eq!(copy.total_keystrokes, 1);
    assert_eq!(copy.key_frequencies.len(), 1);
    assert_eq!(copy.key_frequencies.get(&"B".to_string()), 0);
    assert_eq!(c.get_total_keystrokes(), 2);
}

#[test]
fn timestamps_follow_events() {
    let mut t = InputTracker::new_at(50);
    let quiet = Snapshot { keys: labels(&[]), cursor: pos(0, 0), buttons: labels(&[]) };
    let busy = Snapshot { keys: labels(&["A"]), cursor: pos(1, 1), buttons: labels(&["1"]) };
    t.sample(&quiet, &quiet, 60);
    let stats = t.get_stats();
    // no events: every timestamp still reads construction time
    assert_eq!(stats.key_stats.last_keystroke_time, 50);
    assert_eq!(stats.mouse_stats.last_move_time, 50);
    assert_eq!(stats.mouse_stats.last_click_time, 50);
    t.sample(&quiet, &busy, 61);
    let stats = t.get_stats();
    assert_eq!(stats.key_stats.last_keystroke_time, 61);
    assert_eq!(stats.mouse_stats.last_move_time, 61);
    assert_eq!(stats.mouse_stats.last_click_time, 61);
    assert_eq!(stats.key_stats.start_time, 50);
}

#[test]
fn fresh_trackers_read_zero() {
    let c = KeystrokeCounter::new();
    assert_eq!(c.get_total_keystrokes(), 0);
    let stats = c.get_stats();
    assert_eq!(stats.total_keystrokes, 0);
    assert_eq!(stats.key_frequencies.len(), 0);
    assert_eq!(stats.start_time, stats.last_keystroke_time);
    let t = InputTracker::new();
    let stats = t.get_stats();
    assert_eq!(stats.key_stats.total_keystrokes, 0);
    assert_eq!(stats.mouse_stats.total_clicks, 0);
}

#[test]
fn newly_pressed_keeps_snapshot_order() {
    let prev = labels(&["B"]);
    let curr = labels(&["A", "B", "C"]);
    let out = keyboard_tracker::edge::newly_pressed(&prev, &curr);
    assert_eq!(out, labels(&["A", "C"]));
    // nothing new when the snapshots agree
    let out = keyboard_tracker::edge::newly_pressed(&curr, &curr);
    assert!(out.is_empty());
    // everything is new against an empty baseline
    let out = keyboard_tracker::edge::newly_pressed(&labels(&[]), &curr);
    assert_eq!(out, curr);
}

#[test]
fn frequency_table_counts_and_copies() {
    let mut t = keyboard_tracker::freq::FreqTable::new();
    let a = "A".to_string();
    let b = "B".to_string();
    t.increment(&a);
    t.increment(&b);
    t.increment(&a);
    assert_eq!(t.len(), 2);
    assert_eq!(t.get(&a), 2);
    assert_eq!(t.get(&b), 1);
    assert_eq!(t.get(&"C".to_string()), 0);
    let copy = t.duplicate();
    t.increment(&a);
    assert_eq!(copy.get(&a), 2);
    assert_eq!(t.get(&a), 3);
}
