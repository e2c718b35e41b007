use quicksilver::debugger::recording::{decode_recording, encode_recording, RecordedBreakpoint, RecordedStep, Recording, RecordingError};
use quicksilver::debugger::{ConditionalBreakpoint, DeltaRecord, HitCondition, StackDelta, TimeTravelDebugger, hit_condition_met};
use quicksilver::value::JsValue;
use quicksilver::debugger::condition::evaluate_condition;
use std::collections::HashMap;

fn no_locals() -> Vec<(String, JsValue)> {
    Vec::new()
}

fn bp(line: usize, condition: Option<&str>, hit: Option<HitCondition>, enabled: bool, hit_count: u64) -> ConditionalBreakpoint {
    ConditionalBreakpoint {
        line,
        condition: condition.map(|c| c.to_string()),
        hit_condition: hit,
        log_message: None,
        enabled,
        hit_count,
    }
}

#[test]
fn test_debugger_creation() {
    let debugger = TimeTravelDebugger::new();
    assert_eq!(debugger.history_len(), 0);
    assert!(debugger.current().is_none());
}

#[test]
fn test_record_and_navigate() {
    let mut debugger = TimeTravelDebugger::new();
    debugger.record_step(None, 0, 1, &vec![], &no_locals(), "Step 1");
    debugger.record_step(None, 1, 2, &vec![], &no_locals(), "Step 2");
    debugger.record_step(None, 2, 3, &vec![], &no_locals(), "Step 3");
    assert_eq!(debugger.history_len(), 3);
    assert_eq!(debugger.current().unwrap().step, 3);
    let record = debugger.step_back().unwrap();
    assert_eq!(record.step, 2);
    let record = debugger.step_back().unwrap();
    assert_eq!(record.step, 1);
    assert!(debugger.step_back().is_none());
    let record = debugger.step_forward().unwrap();
    assert_eq!(record.step, 2);
}

#[test]
fn test_breakpoints() {
    let mut debugger = TimeTravelDebugger::new();
    debugger.add_breakpoint(10, None);
    assert!(debugger.should_break(10));
    assert!(!debugger.should_break(5));
}

#[test]
fn test_tui_source_panel() {
    let mut debugger = TimeTravelDebugger::new();
    debugger.load_source("test.js", "let x = 1;\nlet y = 2;\nlet z = 3;\n");
    debugger.record_step(None, 0, 2, &vec![], &no_locals(), "");
    let panel = debugger.render_source_panel(1);
    assert_eq!(panel.title, "Source");
    assert!(!panel.lines.is_empty());
    assert_eq!(panel.lines, vec!["     1 │ let x = 1;", "▶    2 │ let y = 2;", "     3 │ let z = 3;"]);
}

#[test]
fn source_panel_without_steps_or_source() {
    let mut debugger = TimeTravelDebugger::new();
    assert_eq!(debugger.render_source_panel(5).lines, vec!["  (not started)"]);
    debugger.record_step(None, 0, 1, &vec![], &no_locals(), "");
    assert_eq!(debugger.render_source_panel(5).lines, vec!["  (no source loaded)"]);
}

#[test]
fn test_conditional_breakpoint_creation() {
    let mut debugger = TimeTravelDebugger::new();
    let mut first = bp(10, Some("x == 5"), None, true, 0);
    first.log_message = Some("Hit line 10".to_string());
    let id = debugger.add_conditional_breakpoint(first);
    assert_eq!(id, 1);
    let id2 = debugger.add_conditional_breakpoint(bp(20, None, None, true, 0));
    assert_eq!(id2, 2);
}

#[test]
fn test_update_conditional_breakpoint() {
    let mut debugger = TimeTravelDebugger::new();
    let id = debugger.add_conditional_breakpoint(bp(10, None, None, true, 0));
    debugger.update_breakpoint(id, bp(20, Some("y > 3"), None, true, 0));
    assert_eq!(debugger.conditional_breakpoints()[0].line, 20);
    assert_eq!(debugger.conditional_breakpoints()[0].condition, Some("y > 3".to_string()));
    debugger.update_breakpoint(7, bp(99, None, None, true, 0));
    assert_eq!(debugger.conditional_breakpoints().len(), 1);
}

#[test]
fn hit_conditions() {
    assert!(hit_condition_met(HitCondition::Equal(3), 3));
    assert!(!hit_condition_met(HitCondition::Equal(3), 2));
    assert!(hit_condition_met(HitCondition::Multiple(4), 8));
    assert!(!hit_condition_met(HitCondition::Multiple(4), 7));
    assert!(!hit_condition_met(HitCondition::Multiple(0), 0));
    assert!(hit_condition_met(HitCondition::GreaterEqual(5), 5));
    assert!(!hit_condition_met(HitCondition::GreaterEqual(5), 4));
    assert!(hit_condition_met(HitCondition::GreaterEqual(5), 10));
}

#[test]
fn test_watch_expression_add_remove() {
    let mut debugger = TimeTravelDebugger::new();
    let id1 = debugger.add_watch_expression("x");
    let id2 = debugger.add_watch_expression("y");
    assert_eq!(debugger.watches().len(), 2);
    assert!(debugger.remove_watch_expression(id1));
    assert_eq!(debugger.watches().len(), 1);
    assert_eq!(debugger.watches()[0].expression, "y");
    assert!(!debugger.remove_watch_expression(id1));
    assert!(debugger.remove_watch_expression(id2));
    assert!(debugger.watches().is_empty());
}

#[test]
fn test_watch_expression_update() {
    let mut debugger = TimeTravelDebugger::new();
    let id = debugger.add_watch_expression("counter");
    let mut vars = HashMap::new();
    vars.insert("counter".to_string(), "0".to_string());
    debugger.update_watches(1, &vars);
    vars.insert("counter".to_string(), "1".to_string());
    debugger.update_watches(2, &vars);
    vars.insert("counter".to_string(), "1".to_string());
    debugger.update_watches(3, &vars);
    let history = debugger.get_watch_history(id).unwrap();
    assert_eq!(history.len(), 3);
    assert!(history[0].changed);
    assert!(history[1].changed);
    assert!(!history[2].changed);
}

#[test]
fn test_watch_expression_history_undefined() {
    let mut debugger = TimeTravelDebugger::new();
    let id = debugger.add_watch_expression("missing_var");
    let vars = HashMap::new();
    debugger.update_watches(1, &vars);
    let history = debugger.get_watch_history(id).unwrap();
    assert_eq!(history[0].value, "undefined");
}

#[test]
fn test_get_watch_history_invalid_id() {
    let debugger = TimeTravelDebugger::new();
    assert!(debugger.get_watch_history(999).is_none());
}

#[test]
fn test_recording_metadata() {
    let mut debugger = TimeTravelDebugger::new();
    debugger.load_source("test.js", "let x = 1;\n");
    debugger.record_step(None, 0, 1, &vec![], &no_locals(), "init");
    debugger.record_step(None, 1, 2, &vec![], &no_locals(), "step");
    debugger.add_breakpoint(10, None);
    let meta = debugger.recording_metadata();
    assert_eq!(meta.format_version, quicksilver::debugger::recording::RECORDING_VERSION);
    assert_eq!(meta.source_file, Some("test.js".to_string()));
    assert_eq!(meta.total_steps, 2);
    assert_eq!(meta.breakpoint_count, 1);
    assert_eq!(meta.watch_count, 0);
    assert!(meta.checksum != 0);
    assert_eq!(meta.start_time, 1);
    assert_eq!(meta.end_time, 2);
}

#[test]
fn test_delta_record_and_retrieve() {
    let mut debugger = TimeTravelDebugger::new();
    debugger.record_delta(DeltaRecord {
        step: 1,
        opcode: "Push".to_string(),
        ip: 0,
        line: Some(1),
        changed_locals: vec![("x".to_string(), "1".to_string())],
        changed_globals: vec![],
        stack_delta: StackDelta::Push(vec!["1".to_string()]),
    });
    assert_eq!(debugger.delta_history().len(), 1);
    assert_eq!(debugger.delta_history()[0].step, 1);
}

fn delta(step: usize, opcode: &str, locals: Vec<(&str, &str)>, globals: Vec<(&str, &str)>, stack_delta: StackDelta) -> DeltaRecord {
    DeltaRecord {
        step,
        opcode: opcode.to_string(),
        ip: step,
        line: Some(step + 1),
        changed_locals: locals.into_iter().map(|(k, v)| (k.to_string(), v.to_string())).collect(),
        changed_globals: globals.into_iter().map(|(k, v)| (k.to_string(), v.to_string())).collect(),
        stack_delta,
    }
}

#[test]
fn test_reconstruct_state_at() {
    let mut debugger = TimeTravelDebugger::new();
    debugger.record_delta(delta(0, "Push", vec![("x", "1")], vec![("global_a", "true")], StackDelta::Push(vec!["1".to_string()])));
    debugger.record_delta(delta(1, "SetLocal", vec![("x", "2"), ("y", "10")], vec![], StackDelta::Push(vec!["2".to_string()])));
    debugger.record_delta(delta(2, "Pop", vec![], vec![], StackDelta::Pop(1)));

    let state = debugger.reconstruct_state_at(0).unwrap();
    assert_eq!(state.locals.get("x"), Some(&"1".to_string()));
    assert_eq!(state.stack, vec!["1".to_string()]);
    assert_eq!(state.globals.get("global_a"), Some(&"true".to_string()));

    let state = debugger.reconstruct_state_at(1).unwrap();
    assert_eq!(state.locals.get("x"), Some(&"2".to_string()));
    assert_eq!(state.locals.get("y"), Some(&"10".to_string()));
    assert_eq!(state.stack, vec!["1".to_string(), "2".to_string()]);

    let state = debugger.reconstruct_state_at(2).unwrap();
    assert_eq!(state.stack, vec!["1".to_string()]);
    assert_eq!(state.locals.get("y"), Some(&"10".to_string()));

    assert!(debugger.reconstruct_state_at(5).is_none());
}

#[test]
fn test_reconstruct_state_empty_history() {
    let debugger = TimeTravelDebugger::new();
    assert!(debugger.reconstruct_state_at(0).is_none());
}

#[test]
fn test_stack_delta_replace() {
    let mut debugger = TimeTravelDebugger::new();
    debugger.record_delta(delta(0, "Push", vec![], vec![], StackDelta::Push(vec!["a".to_string(), "b".to_string()])));
    debugger.record_delta(delta(1, "Replace", vec![], vec![], StackDelta::Replace(vec!["x".to_string(), "y".to_string(), "z".to_string()])));
    let state = debugger.reconstruct_state_at(1).unwrap();
    assert_eq!(state.stack, vec!["x".to_string(), "y".to_string(), "z".to_string()]);
}

#[test]
fn test_stack_delta_no_change() {
    let mut debugger = TimeTravelDebugger::new();
    debugger.record_delta(delta(0, "Push", vec![], vec![], StackDelta::Push(vec!["42".to_string()])));
    debugger.record_delta(delta(1, "Nop", vec![], vec![], StackDelta::NoChange));
    let state = debugger.reconstruct_state_at(1).unwrap();
    assert_eq!(state.stack, vec!["42".to_string()]);
}

#[test]
fn record_step_keeps_top_of_stack_first() {
    let mut debugger = TimeTravelDebugger::new();
    let stack: Vec<JsValue> = (0..12u64).map(|n| JsValue::Number((n as f64).to_bits())).collect();
    let locals = vec![("x".to_string(), JsValue::Boolean(true))];
    debugger.record_step(Some(7), 3, 4, &stack, &locals, "d");
    let rec = debugger.current().unwrap();
    assert_eq!(rec.stack_size, 12);
    assert_eq!(rec.stack_top.len(), 10);
    assert!(matches!(rec.stack_top[0], JsValue::Number(b) if b == 11f64.to_bits()));
    assert!(matches!(rec.stack_top[9], JsValue::Number(b) if b == 2f64.to_bits()));
    assert_eq!(rec.opcode, Some(7));
    assert!(debugger.jump_to(1).is_some());
    assert!(debugger.jump_to(9).is_none());
}

fn sample_recording() -> Recording {
    Recording {
        current_file: "main.js".to_string(),
        source_lines: vec!["let x = 1;".to_string(), "console.log(x); // é".to_string()],
        steps: vec![
            RecordedStep {
                step: 1,
                ip: 0,
                line: 1,
                opcode: 255,
                stack_size: 0,
                description: "start".to_string(),
                locals: vec![],
            },
            RecordedStep {
                step: 2,
                ip: 4,
                line: 2,
                opcode: 12,
                stack_size: 3,
                description: "call".to_string(),
                locals: vec![("x".to_string(), "1".to_string())],
            },
        ],
        breakpoints: vec![
            RecordedBreakpoint { line: 2, enabled: true, hit_count: 5, condition: Some("x == 1".to_string()) },
            RecordedBreakpoint { line: 9, enabled: false, hit_count: 0, condition: None },
        ],
    }
}

#[test]
fn recording_roundtrip() {
    let rec = sample_recording();
    let bytes = encode_recording(&rec);
    assert_eq!(&bytes[0..4], b"TTDR");
    assert_eq!(&bytes[4..8], &1u32.to_le_bytes());
    let back = decode_recording(&bytes).unwrap();
    assert_eq!(back, rec);
    let mut longer = bytes.clone();
    longer.extend_from_slice(b"trailing");
    assert_eq!(decode_recording(&longer).unwrap(), rec);
}

#[test]
fn recording_errors() {
    let rec = sample_recording();
    let bytes = encode_recording(&rec);
    let short = decode_recording(&bytes[..bytes.len() - 3]).unwrap_err();
    assert_eq!(short, RecordingError::IoError("failed to fill whole buffer".to_string()));
    let mut bad = bytes.clone();
    bad[0] = b'X';
    assert_eq!(decode_recording(&bad).unwrap_err(), RecordingError::InvalidFormat("Invalid recording file".to_string()));
    let mut newer = bytes.clone();
    newer[4] = 2;
    assert_eq!(decode_recording(&newer).unwrap_err(), RecordingError::UnsupportedVersion(2));
    assert_eq!(RecordingError::UnsupportedVersion(2).display_string(), "Unsupported version: 2");
    let mut not_utf8 = Vec::new();
    not_utf8.extend_from_slice(b"TTDR");
    not_utf8.extend_from_slice(&1u32.to_le_bytes());
    not_utf8.extend_from_slice(&1u32.to_le_bytes());
    not_utf8.push(0xff);
    assert!(matches!(decode_recording(&not_utf8).unwrap_err(), RecordingError::InvalidFormat(_)));
    assert_eq!(decode_recording(b"TT").unwrap_err(), RecordingError::IoError("failed to fill whole buffer".to_string()));
}

#[test]
fn loading_a_recording_replays_it() {
    let rec = sample_recording();
    let mut debugger = TimeTravelDebugger::from_recording(&rec);
    assert_eq!(debugger.history_len(), 2);
    assert!(debugger.is_paused());
    assert_eq!(debugger.current().unwrap().step, 2);
    assert_eq!(debugger.current().unwrap().opcode, Some(12));
    assert!(matches!(&debugger.current().unwrap().locals[0].1, JsValue::String(s) if s == "1"));
    assert_eq!(debugger.history()[0].opcode, None);
    assert_eq!(debugger.stats().breakpoint_count, 2);
    assert_eq!(debugger.recording_info().total_steps, 2);
    assert!(debugger.replay_step_back().is_some());
    debugger.replay_end();
    assert_eq!(debugger.current().unwrap().step, 2);
    debugger.replay_reset();
    assert_eq!(debugger.current().unwrap().step, 1);
    let mut lines: Vec<u32> = debugger.breakpoint_list().iter().map(|b| b.line).collect();
    lines.sort();
    assert_eq!(lines, vec![2, 9]);
}

#[test]
fn a_session_becomes_a_recording_and_comes_back() {
    let mut debugger = TimeTravelDebugger::new();
    debugger.load_source("app.js", "let x = 1;\nx = 2;\n");
    let locals = vec![("x".to_string(), JsValue::Undefined)];
    debugger.record_step(None, 0, 1, &vec![], &locals, "first");
    debugger.record_step(Some(7), 3, 2, &vec![], &no_locals(), "second");
    debugger.add_breakpoint(2, None);
    let shown = vec![vec!["undefined".to_string()], vec![]];
    let rec = debugger.to_recording(&shown);
    assert_eq!(rec.current_file, "app.js");
    assert_eq!(rec.source_lines, vec!["let x = 1;".to_string(), "x = 2;".to_string()]);
    assert_eq!(rec.steps.len(), 2);
    assert_eq!(rec.steps[0].opcode, 255);
    assert_eq!(rec.steps[1].opcode, 7);
    assert_eq!(rec.steps[1].ip, 3);
    assert_eq!(rec.steps[0].locals, vec![("x".to_string(), "undefined".to_string())]);
    assert_eq!(rec.breakpoints.len(), 1);
    let bytes = encode_recording(&rec);
    let back = decode_recording(&bytes).unwrap();
    let restored = TimeTravelDebugger::from_recording(&back);
    assert_eq!(restored.history_len(), 2);
}

#[test]
fn test_conditional_breakpoint_condition_eval() {
    let mut debugger = TimeTravelDebugger::new();
    debugger.add_conditional_breakpoint(bp(10, Some("x == 5"), None, true, 0));

    let mut vars = HashMap::new();
    vars.insert("x".to_string(), "5".to_string());
    assert!(debugger.should_break_at_line(10, &vars));

    vars.insert("x".to_string(), "3".to_string());
    assert!(!debugger.should_break_at_line(10, &vars));
}

#[test]
fn test_conditional_breakpoint_disabled() {
    let mut debugger = TimeTravelDebugger::new();
    debugger.add_conditional_breakpoint(bp(10, None, None, false, 0));
    let vars = HashMap::new();
    assert!(!debugger.should_break_at_line(10, &vars));
}

#[test]
fn test_hit_condition_equal() {
    let mut debugger = TimeTravelDebugger::new();
    let id = debugger.add_conditional_breakpoint(bp(5, None, Some(HitCondition::Equal(3)), true, 3));
    let vars = HashMap::new();
    assert!(debugger.should_break_at_line(5, &vars));

    debugger.update_breakpoint(id, bp(5, None, Some(HitCondition::Equal(3)), true, 2));
    assert!(!debugger.should_break_at_line(5, &vars));
}

#[test]
fn test_hit_condition_multiple() {
    let mut debugger = TimeTravelDebugger::new();
    let id = debugger.add_conditional_breakpoint(bp(5, None, Some(HitCondition::Multiple(4)), true, 8));
    let vars = HashMap::new();
    assert!(debugger.should_break_at_line(5, &vars));

    debugger.update_breakpoint(id, bp(5, None, Some(HitCondition::Multiple(4)), true, 7));
    assert!(!debugger.should_break_at_line(5, &vars));
}

#[test]
fn test_hit_condition_greater_equal() {
    let mut debugger = TimeTravelDebugger::new();
    let id = debugger.add_conditional_breakpoint(bp(5, None, Some(HitCondition::GreaterEqual(5)), true, 5));
    let vars = HashMap::new();
    assert!(debugger.should_break_at_line(5, &vars));

    debugger.update_breakpoint(id, bp(5, None, Some(HitCondition::GreaterEqual(5)), true, 4));
    assert!(!debugger.should_break_at_line(5, &vars));

    debugger.update_breakpoint(id, bp(5, None, Some(HitCondition::GreaterEqual(5)), true, 10));
    assert!(debugger.should_break_at_line(5, &vars));
}

#[test]
fn conditions_compare_texts_and_numbers() {
    use_conditions();
}

fn vars_of(pairs: &[(&str, &str)]) -> HashMap<String, String> {
    pairs.iter().map(|(k, v)| (k.to_string(), v.to_string())).collect()
}

fn use_conditions() {
    let v = vars_of(&[("x", "5"), ("name", "bob"), ("flag", "true"), ("off", "0"), ("pi", "3.5"), ("word", "abc")]);
    assert!(evaluate_condition("  x == 5 ", &v));
    assert!(evaluate_condition("name != alice", &v));
    assert!(!evaluate_condition("name != bob", &v));
    assert!(evaluate_condition("x >= 5", &v));
    assert!(evaluate_condition("x <= 5.0", &v));
    assert!(!evaluate_condition("x > 5", &v));
    assert!(evaluate_condition("pi < 4", &v));
    assert!(!evaluate_condition("word > 1", &v));
    assert!(!evaluate_condition("missing == 1", &v));
    assert!(evaluate_condition("flag", &v));
    assert!(!evaluate_condition("off", &v));
    assert!(!evaluate_condition("nothing", &v));
    assert!(evaluate_condition("x>=5", &v));
}

#[test]
fn breakpoints_at_other_lines_do_not_stop() {
    let mut debugger = TimeTravelDebugger::new();
    debugger.add_conditional_breakpoint(bp(3, Some("x > 1"), None, true, 0));
    debugger.add_conditional_breakpoint(bp(4, None, None, true, 0));
    let v = vars_of(&[("x", "2")]);
    assert!(debugger.should_break_at_line(3, &v));
    assert!(debugger.should_break_at_line(4, &v));
    assert!(!debugger.should_break_at_line(5, &v));
    let low = vars_of(&[("x", "0")]);
    assert!(!debugger.should_break_at_line(3, &low));
}

#[test]
fn test_export_recording_json() {
    let mut debugger = TimeTravelDebugger::new();
    let locals = vec![("x".to_string(), JsValue::Number(42.0f64.to_bits()))];
    debugger.record_step(None, 0, 1, &vec![], &locals, "set x");

    let shown = vec![vec!["42".to_string()]];
    let json = debugger.export_recording_json(&shown);
    assert!(json.contains("\"format_version\""));
    assert!(json.contains("\"steps\""));
    assert!(json.contains("set x"));
    // Verify it's valid JSON
    let parsed: serde_json::Value = serde_json::from_str(&json).unwrap();
    assert_eq!(parsed["total_steps"], 1);
    assert_eq!(parsed["steps"][0]["locals"]["x"], "42");
    assert_eq!(parsed["steps"][0]["line"], 1);
    assert_eq!(parsed["source_file"], serde_json::Value::Null);
    assert_eq!(parsed["format_version"], 1);
}
