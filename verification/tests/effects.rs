use quicksilver::effects::{EffectDefinition, EffectOp, LogHandler, OperationSignature, RandomHandler, TimeHandler};

/// The generator's state as a number in [0, 1], as the `random` operation answers.
fn unit_interval(seed: u64) -> f64 {
    seed as f64 / u64::MAX as f64
}

#[test]
fn test_random_handler_deterministic() {
    let mut handler = RandomHandler::with_seed(12345);
    let r1 = unit_interval(handler.next_seed());
    let _ = handler.next_seed();

    // Same seed should give deterministic sequence
    let mut handler2 = RandomHandler::with_seed(12345);
    let r3 = unit_interval(handler2.next_seed());

    assert!((0.0..=1.0).contains(&r1) && (0.0..=1.0).contains(&r3));
    assert_eq!(r1, r3);
}

#[test]
fn random_handler_step_is_the_lcg() {
    let mut handler = RandomHandler::with_seed(12345);
    let expected = 12345u64.wrapping_mul(6364136223846793005).wrapping_add(1442695040888963407);
    assert_eq!(handler.next_seed(), expected);
    let expected2 = expected.wrapping_mul(6364136223846793005).wrapping_add(1442695040888963407);
    assert_eq!(handler.next_seed(), expected2);
    let mut default_handler = RandomHandler::new();
    let mut seeded = RandomHandler::with_seed(42);
    assert_eq!(default_handler.next_seed(), seeded.next_seed());
}

#[test]
fn test_time_handler_freeze() {
    let mut handler = TimeHandler::new();

    handler.freeze(1000);
    // Verify the freeze value is stored
    assert_eq!(handler.frozen_time(), Some(1000));
}

#[test]
fn time_handler_now_and_unfreeze() {
    let mut handler = TimeHandler::new();
    assert_eq!(handler.now(77), 77);
    handler.freeze(5);
    assert_eq!(handler.now(77), 5);
    handler.unfreeze();
    assert_eq!(handler.frozen_time(), None);
    assert_eq!(handler.now(78), 78);
}

#[test]
fn log_handler_levels() {
    let mut handler = LogHandler::new();
    assert!(handler.log("log", "plain"));
    assert!(handler.log("warn", "careful"));
    assert!(handler.log("error", "broken"));
    assert!(!handler.log("trace", "ignored"));
    assert_eq!(handler.messages(), vec!["plain".to_string(), "[WARN] careful".to_string(), "[ERROR] broken".to_string()]);
}

#[test]
fn effect_definition_and_op() {
    let op = EffectOp::new("Log", "info");
    assert_eq!(op.effect_type, "Log");
    assert_eq!(op.operation, "info");
    let def = EffectDefinition::new("State").add_operation(OperationSignature {
        name: "get".to_string(),
        params: vec![],
        return_type: "any".to_string(),
    });
    assert_eq!(def.name, "State");
    assert_eq!(def.operations.len(), 1);
    assert_eq!(def.operations[0].name, "get");
}
