use quicksilver::distributed::actors::{
    ActorId, ActorLifecycle, ActorMessage, ActorRouter, ActorSystem, ActorSystemConfig, Envelope, Mailbox,
    MessagePriority, OverflowStrategy, RoutingStrategy, SupervisionType, SupervisorStrategy, SystemMessage,
};
use serde_json::Value;
use std::time::{Duration, Instant};

fn system() -> ActorSystem {
    ActorSystem::default()
}

fn text(s: &str) -> Value {
    Value::String(s.to_string())
}

fn envelope(v: Value, priority: MessagePriority) -> Envelope {
    Envelope { sender: None, message: ActorMessage::User(v), priority, timestamp: Instant::now() }
}

#[test]
fn test_spawn_actor() {
    let mut sys = system();
    let id = sys.spawn_actor("worker", None).unwrap();
    assert_eq!(sys.actor_count(), 1);
    let stats = sys.get_actor_stats(id).unwrap();
    assert_eq!(stats.name, "worker");
    assert_eq!(stats.state, ActorLifecycle::Running);
}

#[test]
fn test_spawn_with_parent() {
    let mut sys = system();
    let parent = sys.spawn_actor("supervisor", None).unwrap();
    let child = sys.spawn_actor("child", Some(parent)).unwrap();
    let ps = sys.get_actor_stats(parent).unwrap();
    assert_eq!(ps.children_count, 1);
    assert!(sys.get_actor_stats(child).is_some());
}

#[test]
fn test_stop_actor() {
    let mut sys = system();
    let id = sys.spawn_actor("temp", None).unwrap();
    sys.stop_actor(id).unwrap();
    assert_eq!(sys.actor_count(), 0);
}

#[test]
fn test_stop_actor_cascades_to_children() {
    let mut sys = system();
    let parent = sys.spawn_actor("parent", None).unwrap();
    let _child = sys.spawn_actor("child", Some(parent)).unwrap();
    sys.stop_actor(parent).unwrap();
    assert_eq!(sys.actor_count(), 0);
}

#[test]
fn test_send_and_receive_message() {
    let mut sys = system();
    let id = sys.spawn_actor("echo", None).unwrap();
    sys.send_message(id, None, ActorMessage::User(text("hello")), MessagePriority::Normal).unwrap();
    let env = sys.process_mailbox(id).unwrap();
    if let ActorMessage::User(v) = env.message {
        assert_eq!(v, text("hello"));
    } else {
        panic!("expected User message");
    }
}

#[test]
fn test_priority_ordering() {
    let mut sys = system();
    let id = sys.spawn_actor("prio", None).unwrap();
    sys.send_message(id, None, ActorMessage::User(text("low")), MessagePriority::Low).unwrap();
    sys.send_message(id, None, ActorMessage::User(text("high")), MessagePriority::High).unwrap();
    let first = sys.process_mailbox(id).unwrap();
    if let ActorMessage::User(v) = first.message {
        assert_eq!(v, text("high"));
    } else {
        panic!("expected high-priority first");
    }
}

#[test]
fn test_ask_request_response() {
    let mut sys = system();
    let server = sys.spawn_actor("server", None).unwrap();
    let client = sys.spawn_actor("client", None).unwrap();
    let mut cmd = serde_json::Map::new();
    cmd.insert("cmd".to_string(), text("ping"));
    let req_id = sys.ask(server, client, Value::Object(cmd.clone())).unwrap();
    assert!(req_id.starts_with("req-"));
    let env = sys.process_mailbox(server).unwrap();
    if let ActorMessage::Request { id, payload } = env.message {
        assert_eq!(id, req_id);
        assert_eq!(payload, Value::Object(cmd));
    } else {
        panic!("expected Request message");
    }
}

#[test]
fn test_one_for_one_supervision() {
    let mut sys = system();
    let sup = sys.spawn_actor("sup", None).unwrap();
    sys.set_supervisor(sup, SupervisorStrategy::new(SupervisionType::OneForOne, 5, Duration::from_secs(60)));
    let child = sys.spawn_actor("w1", Some(sup)).unwrap();
    let _child2 = sys.spawn_actor("w2", Some(sup)).unwrap();
    sys.handle_actor_failure(child, "crash").unwrap();
    assert_eq!(sys.get_actor_stats(child).unwrap().state, ActorLifecycle::Running);
    assert_eq!(sys.get_actor_stats(child).unwrap().restart_count, 1);
}

#[test]
fn test_one_for_all_supervision() {
    let mut sys = system();
    let sup = sys.spawn_actor("sup", None).unwrap();
    sys.set_supervisor(sup, SupervisorStrategy::new(SupervisionType::OneForAll, 5, Duration::from_secs(60)));
    let c1 = sys.spawn_actor("c1", Some(sup)).unwrap();
    let c2 = sys.spawn_actor("c2", Some(sup)).unwrap();
    sys.handle_actor_failure(c1, "boom").unwrap();
    assert_eq!(sys.get_actor_stats(c1).unwrap().restart_count, 1);
    assert_eq!(sys.get_actor_stats(c2).unwrap().restart_count, 1);
}

#[test]
fn test_rest_for_one_supervision() {
    let mut sys = system();
    let sup = sys.spawn_actor("sup", None).unwrap();
    sys.set_supervisor(sup, SupervisorStrategy::new(SupervisionType::RestForOne, 5, Duration::from_secs(60)));
    let c1 = sys.spawn_actor("c1", Some(sup)).unwrap();
    let c2 = sys.spawn_actor("c2", Some(sup)).unwrap();
    let c3 = sys.spawn_actor("c3", Some(sup)).unwrap();
    sys.handle_actor_failure(c2, "err").unwrap();
    assert_eq!(sys.get_actor_stats(c1).unwrap().restart_count, 0);
    assert_eq!(sys.get_actor_stats(c2).unwrap().restart_count, 1);
    assert_eq!(sys.get_actor_stats(c3).unwrap().restart_count, 1);
}

#[test]
fn test_max_restarts_exceeded() {
    let mut sys = system();
    let sup = sys.spawn_actor("sup", None).unwrap();
    sys.set_supervisor(sup, SupervisorStrategy::new(SupervisionType::OneForOne, 1, Duration::from_secs(60)));
    let child = sys.spawn_actor("fragile", Some(sup)).unwrap();
    sys.handle_actor_failure(child, "err1").unwrap();
    let result = sys.handle_actor_failure(child, "err2");
    assert!(result.is_err());
    assert!(result.unwrap_err().contains("max restarts exceeded"));
}

#[test]
fn test_mailbox_overflow_drop_oldest() {
    let mut mailbox = Mailbox::new(2);
    for i in 0..3 {
        mailbox.enqueue(envelope(Value::from(i), MessagePriority::Normal));
    }
    assert_eq!(mailbox.len(), 2);
    let first = mailbox.dequeue().unwrap();
    if let ActorMessage::User(v) = first.message {
        assert_eq!(v, Value::from(1));
    }
}

#[test]
fn test_mailbox_overflow_reject_new() {
    let mut mailbox = Mailbox::new(1).with_overflow_strategy(OverflowStrategy::RejectNew);
    mailbox.enqueue(envelope(Value::from(1), MessagePriority::Normal));
    let accepted = mailbox.enqueue(envelope(Value::from(2), MessagePriority::Normal));
    assert!(!accepted);
    assert_eq!(mailbox.len(), 1);
}

#[test]
fn test_router_round_robin() {
    let mut sys = system();
    let a = sys.spawn_actor("a", None).unwrap();
    let b = sys.spawn_actor("b", None).unwrap();
    let mut router = ActorRouter::new(RoutingStrategy::RoundRobin { index: 0 });
    router.add_route("work", a);
    router.add_route("work", b);
    let first = router.resolve("work");
    assert_eq!(first, vec![a]);
    let second = router.resolve("work");
    assert_eq!(second, vec![b]);
}

#[test]
fn test_router_broadcast() {
    let mut sys = system();
    let a = sys.spawn_actor("a", None).unwrap();
    let b = sys.spawn_actor("b", None).unwrap();
    let mut router = ActorRouter::new(RoutingStrategy::Broadcast);
    router.add_route("news", a);
    router.add_route("news", b);
    let targets = router.resolve("news");
    assert_eq!(targets.len(), 2);
}

#[test]
fn test_dead_letter_on_missing_actor() {
    let mut sys = system();
    let fake = ActorId(9999);
    let result = sys.send_message(fake, None, ActorMessage::User(text("lost")), MessagePriority::Normal);
    assert!(result.is_err());
    assert_eq!(sys.dead_letters().len(), 1);
    assert_eq!(sys.stats().total_dead_letters, 1);
}

#[test]
fn test_system_message_suspend_resume() {
    let mut sys = system();
    let id = sys.spawn_actor("actor", None).unwrap();
    sys.push_system(id, SystemMessage::Suspend);
    sys.process_mailbox(id);
    assert_eq!(sys.get_actor_stats(id).unwrap().state, ActorLifecycle::Suspended);
    sys.push_system(id, SystemMessage::Resume);
    sys.process_mailbox(id);
    assert_eq!(sys.get_actor_stats(id).unwrap().state, ActorLifecycle::Running);
}

#[test]
fn test_system_stats() {
    let mut sys = system();
    let a = sys.spawn_actor("a", None).unwrap();
    sys.send_message(a, None, ActorMessage::User(text("msg")), MessagePriority::Normal).unwrap();
    assert_eq!(sys.stats().total_actors_created, 1);
    assert_eq!(sys.stats().total_messages_sent, 1);
    assert_eq!(sys.stats().total_messages_delivered, 1);
}

#[test]
fn test_spawn_capacity_limit() {
    let mut sys = ActorSystem::new(ActorSystemConfig { max_actors: 2, ..Default::default() });
    sys.spawn_actor("a", None).unwrap();
    sys.spawn_actor("b", None).unwrap();
    let result = sys.spawn_actor("c", None);
    assert!(result.is_err());
    assert_eq!(result.unwrap_err(), "actor system capacity reached");
}

#[test]
fn mailbox_keeps_priority_then_arrival_order() {
    let mut mailbox = Mailbox::new(10);
    mailbox.enqueue(envelope(text("n1"), MessagePriority::Normal));
    mailbox.enqueue(envelope(text("s"), MessagePriority::System));
    mailbox.enqueue(envelope(text("n2"), MessagePriority::Normal));
    mailbox.enqueue(envelope(text("l"), MessagePriority::Low));
    mailbox.enqueue(envelope(text("h"), MessagePriority::High));
    let mut order = Vec::new();
    while let Some(e) = mailbox.dequeue() {
        if let ActorMessage::User(Value::String(s)) = e.message {
            order.push(s);
        }
    }
    assert_eq!(order, vec!["s", "h", "n1", "n2", "l"]);
}

#[test]
fn forward_reaches_final_target_and_counts_each_hop() {
    let mut sys = system();
    let a = sys.spawn_actor("a", None).unwrap();
    let inner = ActorMessage::User(text("x"));
    let fwd = ActorMessage::Forward { target: a, message: Box::new(inner) };
    sys.send_message(ActorId(4242), None, fwd, MessagePriority::Normal).unwrap();
    assert_eq!(sys.stats().total_messages_sent, 2);
    assert_eq!(sys.stats().total_messages_delivered, 1);
    assert!(sys.process_mailbox(a).is_some());
}

#[test]
fn dead_letter_reasons_and_errors() {
    let mut sys = system();
    let err = sys.send_message(ActorId(77), None, ActorMessage::User(text("x")), MessagePriority::Low).unwrap_err();
    assert_eq!(err, "actor actor-77 not found");
    assert_eq!(sys.dead_letters()[0].reason, "actor not found");
    let a = sys.spawn_actor("a", None).unwrap();
    sys.push_system(a, SystemMessage::Stop);
    sys.process_mailbox(a);
    let err = sys.send_message(a, None, ActorMessage::User(text("y")), MessagePriority::Low).unwrap_err();
    assert_eq!(err, "actor not running");
    assert_eq!(sys.dead_letters()[1].reason, "actor not running");
    assert_eq!(sys.stop_actor(ActorId(500)).unwrap_err(), "actor actor-500 not found");
}

#[test]
fn failure_without_supervisor() {
    let mut sys = system();
    let a = sys.spawn_actor("a", None).unwrap();
    assert_eq!(sys.handle_actor_failure(a, "oops").unwrap_err(), "no supervisor for actor");
    assert_eq!(sys.get_actor_stats(a).unwrap().state, ActorLifecycle::Failed("oops".to_string()));
    let b = sys.spawn_actor("b", Some(a)).unwrap();
    assert_eq!(sys.handle_actor_failure(b, "x").unwrap_err(), "parent has no supervisor strategy");
    assert_eq!(sys.stats().total_failures, 2);
}

#[test]
fn escalation_restarts_at_the_grandparent() {
    let mut sys = system();
    let top = sys.spawn_actor("top", None).unwrap();
    let mid = sys.spawn_actor("mid", Some(top)).unwrap();
    let leaf = sys.spawn_actor("leaf", Some(mid)).unwrap();
    sys.set_supervisor(mid, SupervisorStrategy::new(SupervisionType::Escalate, 5, Duration::from_secs(60)));
    sys.set_supervisor(top, SupervisorStrategy::new(SupervisionType::OneForOne, 5, Duration::from_secs(60)));
    sys.handle_actor_failure(leaf, "deep").unwrap();
    assert_eq!(sys.get_actor_stats(mid).unwrap().restart_count, 1);
    assert_eq!(sys.get_actor_stats(leaf).unwrap().state, ActorLifecycle::Failed("deep".to_string()));
}

#[test]
fn route_message_to_group() {
    let mut sys = system();
    let a = sys.spawn_actor("a", None).unwrap();
    let b = sys.spawn_actor("b", None).unwrap();
    let mut router = ActorRouter::new(RoutingStrategy::Broadcast);
    router.add_route("t", a);
    router.add_route("t", b);
    let n = sys.route_message(&mut router, "t", None, ActorMessage::User(text("m")), MessagePriority::Normal).unwrap();
    assert_eq!(n, 2);
    assert_eq!(sys.route_message(&mut router, "none", None, ActorMessage::User(text("m")), MessagePriority::Normal).unwrap_err(), "no routes for topic 'none'");
    router.remove_route("t", a);
    let mut hash_router = ActorRouter::new(RoutingStrategy::ConsistentHash);
    hash_router.add_route("abc", a);
    hash_router.add_route("abc", b);
    assert_eq!(hash_router.resolve("abc"), vec![b]);
    assert_eq!(a.display_string(), format!("actor-{}", a.0));
}

#[test]
fn drop_oldest_drops_the_message_that_arrived_first() {
    let mut mailbox = Mailbox::new(2);
    mailbox.enqueue(envelope(Value::from("low"), MessagePriority::Low));
    mailbox.enqueue(envelope(Value::from("high"), MessagePriority::High));
    assert!(mailbox.enqueue(envelope(Value::from("normal"), MessagePriority::Normal)));
    assert_eq!(mailbox.len(), 2);
    let mut seen = Vec::new();
    while let Some(e) = mailbox.dequeue() {
        if let ActorMessage::User(v) = e.message {
            seen.push(v);
        }
    }
    assert_eq!(seen, vec![Value::from("high"), Value::from("normal")]);
}

#[test]
fn record_restart_keeps_restarts_inside_the_window_then_appends() {
    let base = Instant::now();
    let mut s = SupervisorStrategy::new(SupervisionType::OneForOne, 2, Duration::from_secs(10));
    s.restart_history = vec![base, base + Duration::from_secs(1), base + Duration::from_secs(2)];
    let now = base + Duration::from_secs(20);
    let ages = vec![Duration::from_secs(20), Duration::from_secs(5), Duration::from_secs(18)];
    let exceeded = s.record_restart_at(now, &ages);
    assert_eq!(s.restart_history, vec![base + Duration::from_secs(1), now]);
    assert!(!exceeded);
    let exceeded = s.record_restart_at(now, &vec![Duration::from_secs(0), Duration::from_secs(0)]);
    assert_eq!(s.restart_history.len(), 3);
    assert!(exceeded);
}
