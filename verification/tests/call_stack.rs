use quicksilver::debugger::ui::{CallFrame, CallStack, DebuggerUI, ExecutionHeatMap};
use quicksilver::debugger::TimeTravelDebugger;
use quicksilver::value::JsValue;

#[test]
fn test_call_stack() {
    let mut stack = CallStack::new();
    assert_eq!(stack.depth(), 0);

    stack.push(CallFrame {
        name: "main".to_string(),
        line: 1,
        locals: vec![],
        arguments: vec![],
    });
    assert_eq!(stack.depth(), 1);

    stack.push(CallFrame {
        name: "foo".to_string(),
        line: 10,
        locals: vec![],
        arguments: vec![JsValue::Number(42.0f64.to_bits())],
    });
    assert_eq!(stack.depth(), 2);

    let frame = stack.pop().unwrap();
    assert_eq!(frame.name, "foo");
    assert_eq!(stack.depth(), 1);
}

#[test]
fn call_stack_views() {
    let mut stack = CallStack::default();
    assert!(stack.current().is_none());
    assert!(stack.pop().is_none());
    for (name, line) in [("a", 1u32), ("b", 2), ("c", 3)] {
        stack.push(CallFrame { name: name.to_string(), line, locals: vec![], arguments: vec![] });
    }
    assert_eq!(stack.current().unwrap().name, "c");
    let top_down: Vec<&str> = stack.iter().iter().map(|f| f.name.as_str()).collect();
    assert_eq!(top_down, vec!["c", "b", "a"]);
    let bottom_up: Vec<u32> = stack.frames().iter().map(|f| f.line).collect();
    assert_eq!(bottom_up, vec![1, 2, 3]);
}

#[test]
fn test_heat_map() {
    let mut heat_map = ExecutionHeatMap::new();

    // Line 5 executed 10 times
    for _ in 0..10 {
        heat_map.record(5);
    }

    // Line 10 executed 5 times
    for _ in 0..5 {
        heat_map.record(10);
    }

    assert_eq!(heat_map.count(5), 10);
    assert_eq!(heat_map.count(10), 5);
    let heat = |line: u32| heat_map.count(line) as f64 / heat_map.max_count() as f64;
    assert_eq!(heat(5), 1.0);
    assert_eq!(heat(10), 0.5);
    assert_eq!(heat(1), 0.0);
}

#[test]
fn heat_map_tracks_the_top_count() {
    let mut m = ExecutionHeatMap::default();
    assert_eq!(m.max_count(), 0);
    assert_eq!(m.count(3), 0);
    m.record(3);
    m.record(4);
    m.record(4);
    assert_eq!(m.max_count(), 2);
    m.record(3);
    m.record(3);
    assert_eq!(m.count(3), 3);
    assert_eq!(m.max_count(), 3);
}

#[test]
fn debugger_ui_steps_and_calls() {
    let mut d = TimeTravelDebugger::new();
    d.record_step(None, 0, 1, &vec![], &vec![], "one");
    d.record_step(None, 1, 2, &vec![], &vec![], "two");
    d.record_step(None, 2, 3, &vec![], &vec![], "three");
    let mut ui = DebuggerUI::new(d);
    ui.set_width(100);
    ui.toggle_timeline();
    ui.toggle_diff();
    ui.toggle_call_stack();
    let start = ui.current().map(|r| r.line);
    let back = ui.step_back().map(|r| r.line);
    if let (Some(s), Some(b)) = (start, back) {
        assert_eq!(b + 1, s);
    }
    let fwd = ui.step_forward().map(|r| r.line);
    assert_eq!(fwd, start);
    assert_eq!(ui.current().map(|r| r.line), start);
    assert_eq!(ui.debugger().history_len(), 3);
    ui.debugger_mut().pause();
    assert!(ui.debugger().is_paused());

    ui.record_call("main", 1, vec![], vec![]);
    ui.record_call("helper", 7, vec![("a".to_string(), JsValue::Null)], vec![JsValue::Boolean(true)]);
    let f = ui.record_return().unwrap();
    assert_eq!(f.name, "helper");
    assert_eq!(f.line, 7);
    assert_eq!(ui.record_return().unwrap().name, "main");
    assert!(ui.record_return().is_none());
}
