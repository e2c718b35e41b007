use quicksilver::debugger::dap::Capabilities;
use quicksilver::debugger::ui::{MarkerType, Timeline};

#[test]
fn test_capabilities() {
    let caps = Capabilities::default();
    assert!(caps.supports_step_back);
    assert!(caps.supports_time_travel);
    assert!(caps.supports_reverse_request);
}

/// Where a step falls on a bar of `width - 2` cells for `total` steps.
fn bar_position(step: u64, width: usize, total: u64) -> usize {
    let scale = if total > 0 { (width - 2) as f64 / total as f64 } else { 0.0 };
    (step as f64 * scale) as usize
}

#[test]
fn test_timeline() {
    let mut timeline = Timeline::new(100, 50, 40);
    timeline.add_marker(25, MarkerType::Breakpoint, "bp1");
    timeline.add_marker(75, MarkerType::Error, "error");

    let positions = vec![bar_position(25, 40, 100), bar_position(75, 40, 100)];
    let rendered = timeline.render_at(&positions, bar_position(50, 40, 100));
    assert!(rendered.contains("Step"));
    assert!(rendered.contains("100"));
}

#[test]
fn timeline_draws_markers_and_labels() {
    let mut timeline = Timeline::new(10, 4, 24);
    timeline.add_marker(2, MarkerType::Breakpoint, "bp");
    let rendered = timeline.render_at(&vec![4], 9);
    let lines: Vec<&str> = rendered.lines().collect();
    assert_eq!(lines.len(), 5);
    assert_eq!(lines[0], format!("╔{}╗", "═".repeat(24)));
    let bar: Vec<char> = lines[1].chars().collect();
    assert_eq!(bar.len(), 24);
    assert_eq!(bar[1 + 4], '●');
    assert_eq!(bar[1 + 9], '▼');
    let indicator: Vec<char> = lines[2].chars().collect();
    assert_eq!(indicator[1 + 9], '│');
    assert_eq!(lines[3], "║1    Step 5 / 10    10║");
    assert_eq!(lines[4], format!("╚{}╝", "═".repeat(24)));
}
