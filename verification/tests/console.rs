use quicksilver::debugger::console::{parse_unsigned, split_words, CommandOutcome};
use quicksilver::debugger::TimeTravelDebugger;
use quicksilver::value::JsValue;

fn debugger_with_steps(n: u32) -> TimeTravelDebugger {
    let mut d = TimeTravelDebugger::new();
    for i in 0..n {
        let locals = vec![("x".to_string(), JsValue::Number(i as u64))];
        d.record_step(None, i as usize, i + 1, &vec![], &locals, "step");
    }
    d
}

#[test]
fn words_are_split_on_white_space() {
    assert_eq!(split_words("  bp\t12 \u{3000}x "), vec!["bp".to_string(), "12".to_string(), "x".to_string()]);
    assert!(split_words(" \n ").is_empty());
}

#[test]
fn counts_take_an_optional_plus_and_refuse_overflow() {
    assert_eq!(parse_unsigned("+42", 100), Some(42));
    assert_eq!(parse_unsigned("101", 100), None);
    assert_eq!(parse_unsigned("-1", 100), None);
    assert_eq!(parse_unsigned("+", 100), None);
    assert_eq!(parse_unsigned("4294967295", u32::MAX as u64), Some(4294967295));
    assert_eq!(parse_unsigned("4294967296", u32::MAX as u64), None);
}

#[test]
fn stepping_back_and_forward_through_the_console() {
    let mut d = debugger_with_steps(3);
    d.jump_to(3);
    assert_eq!(d.run_command("b"), CommandOutcome::SteppedBack(1));
    assert_eq!(d.run_command("next"), CommandOutcome::SteppedForward(2));
    assert_eq!(d.run_command("n"), CommandOutcome::AtLatest);
    assert_eq!(d.run_command("rewind 1"), CommandOutcome::Rewound { reached_beginning: false, at: Some(1) });
    assert_eq!(d.run_command("rewind 5"), CommandOutcome::Rewound { reached_beginning: true, at: Some(0) });
    assert_eq!(d.run_command("back"), CommandOutcome::AtBeginning);
    assert_eq!(d.run_command("rewind"), CommandOutcome::RewindUsage);
    assert_eq!(d.run_command("rewind x"), CommandOutcome::Silent);
}

#[test]
fn console_commands_that_inspect_and_configure() {
    let mut d = debugger_with_steps(8);
    d.jump_to(8);
    assert_eq!(d.run_command(""), CommandOutcome::Silent);
    assert_eq!(d.run_command("p x"), CommandOutcome::Print { name: "x".to_string(), local: Some(0) });
    assert_eq!(d.run_command("print y"), CommandOutcome::Print { name: "y".to_string(), local: None });
    assert_eq!(d.run_command("p"), CommandOutcome::PrintUsage);
    assert_eq!(d.run_command("w total"), CommandOutcome::Watching("total".to_string()));
    assert_eq!(d.plain_watches().len(), 1);
    assert_eq!(d.run_command("watch"), CommandOutcome::WatchList);
    assert_eq!(d.run_command("bp 12"), CommandOutcome::BreakpointSet(12));
    assert!(d.breakpoint_at(12).is_some());
    assert_eq!(d.breakpoint_lines(), vec![12]);
    assert_eq!(d.run_command("bp"), CommandOutcome::BreakpointList);
    assert_eq!(d.run_command("history"), CommandOutcome::History { start: 2, end: 8 });
    assert_eq!(d.run_command("changes x"), CommandOutcome::Changes("x".to_string()));
    assert_eq!(d.run_command("changes"), CommandOutcome::ChangesUsage);
    assert_eq!(d.run_command("stack"), CommandOutcome::Stack);
    assert_eq!(d.run_command("locals"), CommandOutcome::Locals);
    assert_eq!(d.run_command("help"), CommandOutcome::Help);
    assert_eq!(d.run_command("exit"), CommandOutcome::Quit);
    assert_eq!(d.run_command("frobnicate now"), CommandOutcome::Unknown("frobnicate".to_string()));
    d.pause();
    assert_eq!(d.run_command("c"), CommandOutcome::Continue);
    assert!(!d.is_paused());
}
