use quicksilver::event_loop::{
    create_aggregate_error, AbortController, AbortSignal, AsyncGenRequest, AsyncGenRequestKind, AsyncGenState,
    AsyncGeneratorState, AsyncGeneratorTask, AsyncStats, AsyncTask, CallbackResult, EventLoop, ExceptionHandlerState,
    PendingCallback, PromiseExecutor, PromiseInternalState, SuspensionManager, SuspensionPoint,
};
use quicksilver::value::JsValue;

fn num(x: f64) -> JsValue {
    JsValue::Number(x.to_bits())
}

fn is_num(v: &JsValue, x: f64) -> bool {
    matches!(v, JsValue::Number(n) if f64::from_bits(*n) == x)
}

fn is_str(v: &JsValue, s: &str) -> bool {
    matches!(v, JsValue::String(t) if t == s)
}

#[test]
fn test_event_loop_creation() {
    let el = EventLoop::new();
    assert_eq!(el.current_time(), 0);
    assert!(!el.has_pending_work());
}

#[test]
fn test_microtask_queue() {
    let mut el = EventLoop::new();
    el.queue_microtask(JsValue::Undefined, vec![]);
    assert!(el.has_pending_microtasks());
    let task = el.dequeue_microtask();
    assert!(task.is_some());
    assert!(!el.has_pending_microtasks());
}

#[test]
fn test_timer_scheduling() {
    let mut el = EventLoop::new();
    let id = el.schedule_timer(JsValue::Undefined, 100, vec![], false);
    assert_eq!(id, 1);
    assert!(el.has_pending_macrotasks());
    assert!(el.get_next_ready_macrotask().is_none());
    el.advance_time(100);
    let task = el.get_next_ready_macrotask();
    assert!(task.is_some());
}

#[test]
fn test_timer_cancellation() {
    let mut el = EventLoop::new();
    let id = el.schedule_timer(JsValue::Undefined, 100, vec![], false);
    el.cancel_timer(id);
    el.advance_time(100);
    assert!(el.get_next_ready_macrotask().is_none());
}

#[test]
fn test_promise_lifecycle() {
    let mut el = EventLoop::new();
    let promise = el.create_promise();
    assert_eq!(el.promise(promise).state, PromiseInternalState::Pending);
    el.fulfill_promise(&promise, num(42.0));
    assert_eq!(el.promise(promise).state, PromiseInternalState::Fulfilled);
    match &el.promise(promise).result {
        Some(v) => assert!(is_num(v, 42.0)),
        None => panic!("Expected number result"),
    }
}

#[test]
fn test_promise_all_empty() {
    let mut el = EventLoop::new();
    let result = el.promise_all(vec![]);
    assert_eq!(el.promise(result).state, PromiseInternalState::Fulfilled);
}

#[test]
fn test_promise_all_fulfilled() {
    let mut el = EventLoop::new();
    let p1 = el.resolve_promise(num(1.0));
    let p2 = el.resolve_promise(num(2.0));
    let p3 = el.resolve_promise(num(3.0));
    let result = el.promise_all(vec![p1, p2, p3]);
    assert_eq!(el.promise(result).state, PromiseInternalState::Fulfilled);
}

#[test]
fn test_promise_all_rejects_on_first_rejection() {
    let mut el = EventLoop::new();
    let p1 = el.resolve_promise(num(1.0));
    let p2 = el.reject_promise_new(JsValue::String("error".to_string()));
    let result = el.promise_all(vec![p1, p2]);
    assert_eq!(el.promise(result).state, PromiseInternalState::Rejected);
}

#[test]
fn test_promise_race_first_wins() {
    let mut el = EventLoop::new();
    let p1 = el.resolve_promise(num(1.0));
    let p2 = el.resolve_promise(num(2.0));
    let result = el.promise_race(vec![p1, p2]);
    assert_eq!(el.promise(result).state, PromiseInternalState::Fulfilled);
    if let Some(v) = &el.promise(result).result {
        assert!(is_num(v, 1.0));
    }
}

#[test]
fn test_promise_race_reject_first() {
    let mut el = EventLoop::new();
    let p1 = el.reject_promise_new(JsValue::String("err".to_string()));
    let p2 = el.resolve_promise(num(2.0));
    let result = el.promise_race(vec![p1, p2]);
    assert_eq!(el.promise(result).state, PromiseInternalState::Rejected);
}

#[test]
fn test_promise_all_settled_mixed() {
    let mut el = EventLoop::new();
    let p1 = el.resolve_promise(num(1.0));
    let p2 = el.reject_promise_new(JsValue::String("err".to_string()));
    let result = el.promise_all_settled(vec![p1, p2]);
    assert_eq!(el.promise(result).state, PromiseInternalState::Fulfilled);
}

#[test]
fn test_promise_all_settled_empty() {
    let mut el = EventLoop::new();
    let result = el.promise_all_settled(vec![]);
    assert_eq!(el.promise(result).state, PromiseInternalState::Fulfilled);
}

#[test]
fn test_promise_any_first_fulfilled() {
    let mut el = EventLoop::new();
    let p1 = el.reject_promise_new(JsValue::String("err1".to_string()));
    let p2 = el.resolve_promise(num(42.0));
    let result = el.promise_any(vec![p1, p2]);
    assert_eq!(el.promise(result).state, PromiseInternalState::Fulfilled);
}

#[test]
fn test_promise_any_all_rejected() {
    let mut el = EventLoop::new();
    let p1 = el.reject_promise_new(JsValue::String("err1".to_string()));
    let p2 = el.reject_promise_new(JsValue::String("err2".to_string()));
    let result = el.promise_any(vec![p1, p2]);
    assert_eq!(el.promise(result).state, PromiseInternalState::Rejected);
}

#[test]
fn test_promise_any_empty() {
    let mut el = EventLoop::new();
    let result = el.promise_any(vec![]);
    assert_eq!(el.promise(result).state, PromiseInternalState::Rejected);
}

#[test]
fn test_promise_with_resolvers() {
    let mut el = EventLoop::new();
    let mut resolvers = el.promise_with_resolvers();
    assert_eq!(el.promise(resolvers.promise).state, PromiseInternalState::Pending);
    resolvers.resolve(&mut el, num(42.0));
    assert_eq!(el.promise(resolvers.promise).state, PromiseInternalState::Fulfilled);
    assert!(resolvers.resolved);
}

#[test]
fn test_promise_with_resolvers_reject() {
    let mut el = EventLoop::new();
    let mut resolvers = el.promise_with_resolvers();
    resolvers.reject(&mut el, JsValue::String("error".to_string()));
    assert_eq!(el.promise(resolvers.promise).state, PromiseInternalState::Rejected);
    assert!(resolvers.rejected);
}

#[test]
fn test_promise_with_resolvers_only_settles_once() {
    let mut el = EventLoop::new();
    let mut resolvers = el.promise_with_resolvers();
    resolvers.resolve(&mut el, num(1.0));
    resolvers.reject(&mut el, JsValue::String("too late".to_string()));
    assert_eq!(el.promise(resolvers.promise).state, PromiseInternalState::Fulfilled);
    assert!(resolvers.resolved);
    assert!(!resolvers.rejected);
}

#[test]
fn test_aggregate_error() {
    let errors = vec![JsValue::String("e1".to_string()), JsValue::String("e2".to_string())];
    let err = create_aggregate_error(errors, "All failed");
    assert!(matches!(err, JsValue::Object(_)));
}

#[test]
fn test_promise_any_rejects_with_aggregate_error() {
    let mut el = EventLoop::new();
    let p1 = el.reject_promise_new(JsValue::String("err1".to_string()));
    let p2 = el.reject_promise_new(JsValue::String("err2".to_string()));
    let result = el.promise_any(vec![p1, p2]);
    assert_eq!(el.promise(result).state, PromiseInternalState::Rejected);
    let reason = el.promise(result).result.as_ref().unwrap();
    assert!(matches!(reason, JsValue::Object(_)));
}

#[test]
fn test_queue_microtask_fn_enqueues_task() {
    let mut el = EventLoop::new();
    assert!(!el.has_pending_microtasks());
    el.queue_microtask_fn(JsValue::String("callback".to_string()));
    assert!(el.has_pending_microtasks());
    let task = el.dequeue_microtask().unwrap();
    assert!(matches!(task.callback, JsValue::String(ref s) if s == "callback"));
    assert!(task.args.is_empty());
    assert!(task.settle_promise.is_none());
}

#[test]
fn test_queue_microtask_fn_multiple() {
    let mut el = EventLoop::new();
    el.queue_microtask_fn(num(1.0));
    el.queue_microtask_fn(num(2.0));
    el.queue_microtask_fn(num(3.0));
    let t1 = el.dequeue_microtask().unwrap();
    assert!(is_num(&t1.callback, 1.0));
    let t2 = el.dequeue_microtask().unwrap();
    assert!(is_num(&t2.callback, 2.0));
    let t3 = el.dequeue_microtask().unwrap();
    assert!(is_num(&t3.callback, 3.0));
    assert!(el.dequeue_microtask().is_none());
}

#[test]
fn test_drain_microtasks_empty() {
    let mut el = EventLoop::new();
    let (drained, remaining) = el.drain_microtasks();
    assert!(drained.is_empty());
    assert_eq!(remaining, 0);
}

#[test]
fn test_drain_microtasks_returns_all() {
    let mut el = EventLoop::new();
    el.queue_microtask(num(1.0), vec![JsValue::String("a".to_string())]);
    el.queue_microtask(num(2.0), vec![]);
    el.queue_microtask(num(3.0), vec![JsValue::Boolean(true)]);
    let (drained, remaining) = el.drain_microtasks();
    assert_eq!(drained.len(), 3);
    assert_eq!(remaining, 0);
    assert!(is_num(&drained[0].0, 1.0));
    assert_eq!(drained[0].1.len(), 1);
    assert!(is_num(&drained[1].0, 2.0));
    assert!(drained[1].1.is_empty());
    assert!(is_num(&drained[2].0, 3.0));
    assert!(!el.has_pending_microtasks());
}

#[test]
fn test_drain_microtasks_clears_queue() {
    let mut el = EventLoop::new();
    el.queue_microtask_fn(JsValue::Undefined);
    el.queue_microtask_fn(JsValue::Undefined);
    let (drained, remaining) = el.drain_microtasks();
    assert_eq!(drained.len(), 2);
    assert_eq!(remaining, 0);
    assert!(!el.has_pending_microtasks());
    let (drained2, remaining2) = el.drain_microtasks();
    assert!(drained2.is_empty());
    assert_eq!(remaining2, 0);
}

#[test]
fn test_run_to_completion_empty() {
    let mut el = EventLoop::new();
    let result = el.run_to_completion();
    assert_eq!(result.microtasks_processed, 0);
    assert_eq!(result.macrotasks_processed, 0);
    assert_eq!(result.iterations, 0);
    assert_eq!(result.final_time, 0);
}

#[test]
fn test_run_to_completion_microtasks_only() {
    let mut el = EventLoop::new();
    el.queue_microtask_fn(num(1.0));
    el.queue_microtask_fn(num(2.0));
    el.queue_microtask_fn(num(3.0));
    let result = el.run_to_completion();
    assert_eq!(result.microtasks_processed, 3);
    assert_eq!(result.macrotasks_processed, 0);
    assert!(!el.has_pending_work());
}

#[test]
fn test_run_to_completion_macrotasks_only() {
    let mut el = EventLoop::new();
    el.schedule_timer(num(1.0), 100, vec![], false);
    el.schedule_timer(num(2.0), 200, vec![], false);
    let result = el.run_to_completion();
    assert_eq!(result.macrotasks_processed, 2);
    assert_eq!(result.microtasks_processed, 0);
    assert!(!el.has_pending_work());
    assert!(result.final_time >= 200);
}

#[test]
fn test_run_to_completion_mixed() {
    let mut el = EventLoop::new();
    el.queue_microtask_fn(num(1.0));
    el.queue_microtask_fn(num(2.0));
    el.schedule_timer(num(10.0), 50, vec![], false);
    el.schedule_timer(num(20.0), 100, vec![], false);
    let result = el.run_to_completion();
    assert_eq!(result.microtasks_processed, 2);
    assert_eq!(result.macrotasks_processed, 2);
    assert!(!el.has_pending_work());
}

#[test]
fn test_run_to_completion_advances_time() {
    let mut el = EventLoop::new();
    el.schedule_timer(JsValue::Undefined, 500, vec![], false);
    let result = el.run_to_completion();
    assert_eq!(result.macrotasks_processed, 1);
    assert_eq!(result.final_time, 500);
}

#[test]
fn test_set_immediate_schedules_at_current_time() {
    let mut el = EventLoop::new();
    let id = el.set_immediate(JsValue::String("imm".to_string()), vec![]);
    assert!(id > 0);
    assert!(el.has_pending_macrotasks());
    let task = el.get_next_ready_macrotask();
    assert!(task.is_some());
    let task = task.unwrap();
    assert!(matches!(task.callback, JsValue::String(ref s) if s == "imm"));
    assert_eq!(task.delay, 0);
    assert!(!task.repeating);
}

#[test]
fn test_set_immediate_with_args() {
    let mut el = EventLoop::new();
    let args = vec![num(1.0), JsValue::String("hello".to_string())];
    el.set_immediate(JsValue::Undefined, args);
    let task = el.get_next_ready_macrotask().unwrap();
    assert_eq!(task.args.len(), 2);
}

#[test]
fn test_set_immediate_fires_before_delayed_timer() {
    let mut el = EventLoop::new();
    el.schedule_timer(JsValue::String("delayed".to_string()), 100, vec![], false);
    el.set_immediate(JsValue::String("immediate".to_string()), vec![]);
    let task = el.get_next_ready_macrotask().unwrap();
    assert!(matches!(task.callback, JsValue::String(ref s) if s == "immediate"));
}

#[test]
fn test_set_immediate_processed_by_run_to_completion() {
    let mut el = EventLoop::new();
    el.set_immediate(num(1.0), vec![]);
    el.set_immediate(num(2.0), vec![]);
    let result = el.run_to_completion();
    assert_eq!(result.macrotasks_processed, 2);
    assert_eq!(result.final_time, 0);
    assert!(!el.has_pending_work());
}

fn async_task(el: &mut EventLoop, id: u64, ip: usize) -> AsyncTask {
    let awaiting = el.create_promise();
    let result_promise = el.create_promise();
    AsyncTask {
        id,
        function: JsValue::Undefined,
        saved_ip: ip,
        saved_locals: vec![],
        saved_stack: vec![],
        awaiting,
        result_promise,
        saved_bp: 0,
    }
}

#[test]
fn test_async_task_submission() {
    let mut el = EventLoop::new();
    let task = async_task(&mut el, 1, 0);
    el.submit_async_task(task);
    assert_eq!(el.pending_async_task_count(), 1);
}

#[test]
fn test_async_task_ready_when_promise_fulfilled() {
    let mut el = EventLoop::new();
    let awaiting = el.create_promise();
    let result_promise = el.create_promise();
    let task = AsyncTask {
        id: 1,
        function: JsValue::Undefined,
        saved_ip: 10,
        saved_locals: vec![num(1.0)],
        saved_stack: vec![],
        awaiting,
        result_promise,
        saved_bp: 0,
    };
    el.submit_async_task(task);
    assert_eq!(el.pending_async_task_count(), 1);
    el.fulfill_promise(&awaiting, num(42.0));
    let ready = el.get_ready_async_tasks();
    assert_eq!(ready.len(), 1);
    assert_eq!(ready[0].id, 1);
    assert_eq!(ready[0].saved_ip, 10);
    assert_eq!(el.pending_async_task_count(), 0);
}

#[test]
fn test_async_task_ready_when_promise_rejected() {
    let mut el = EventLoop::new();
    let awaiting = el.create_promise();
    let result_promise = el.create_promise();
    let task = AsyncTask {
        id: 1,
        function: JsValue::Undefined,
        saved_ip: 5,
        saved_locals: vec![],
        saved_stack: vec![JsValue::Boolean(true)],
        awaiting,
        result_promise,
        saved_bp: 0,
    };
    el.submit_async_task(task);
    el.reject_promise(&awaiting, JsValue::String("error".to_string()));
    let ready = el.get_ready_async_tasks();
    assert_eq!(ready.len(), 1);
    assert_eq!(ready[0].id, 1);
    assert_eq!(el.pending_async_task_count(), 0);
}

#[test]
fn test_async_task_not_ready_when_pending() {
    let mut el = EventLoop::new();
    let task = async_task(&mut el, 1, 0);
    el.submit_async_task(task);
    let ready = el.get_ready_async_tasks();
    assert_eq!(ready.len(), 0);
    assert_eq!(el.pending_async_task_count(), 1);
}

#[test]
fn test_async_task_count() {
    let mut el = EventLoop::new();
    assert_eq!(el.pending_async_task_count(), 0);
    for i in 0..3 {
        let task = async_task(&mut el, i, 0);
        el.submit_async_task(task);
    }
    assert_eq!(el.pending_async_task_count(), 3);
    let first_awaiting = el.pending_async_tasks()[0].awaiting;
    el.fulfill_promise(&first_awaiting, JsValue::Undefined);
    let ready = el.get_ready_async_tasks();
    assert_eq!(ready.len(), 1);
    assert_eq!(el.pending_async_task_count(), 2);
}

#[test]
fn test_abort_signal_new() {
    let signal = AbortSignal::new();
    assert!(!signal.aborted);
    assert!(signal.reason.is_none());
    assert!(signal.on_abort_callbacks().is_empty());
}

#[test]
fn test_abort_signal_abort() {
    let mut signal = AbortSignal::new();
    let callbacks = signal.abort(JsValue::String("cancelled".to_string()));
    assert!(signal.aborted);
    assert!(matches!(signal.reason, Some(JsValue::String(ref s)) if s == "cancelled"));
    assert!(callbacks.is_empty());
}

#[test]
fn test_abort_signal_abort_with_callbacks() {
    let mut signal = AbortSignal::new();
    signal.add_on_abort(JsValue::String("cb1".to_string()));
    signal.add_on_abort(JsValue::String("cb2".to_string()));
    let callbacks = signal.abort(JsValue::String("reason".to_string()));
    assert!(signal.aborted);
    assert_eq!(callbacks.len(), 2);
    assert!(is_str(&callbacks[0], "cb1"));
    assert!(is_str(&callbacks[1], "cb2"));
}

#[test]
fn test_abort_signal_abort_idempotent() {
    let mut signal = AbortSignal::new();
    signal.add_on_abort(JsValue::String("cb".to_string()));
    let first = signal.abort(JsValue::String("first".to_string()));
    assert_eq!(first.len(), 1);
    let second = signal.abort(JsValue::String("second".to_string()));
    assert!(second.is_empty());
    assert!(matches!(signal.reason, Some(JsValue::String(ref s)) if s == "first"));
}

#[test]
fn test_abort_signal_timeout() {
    let signal = AbortSignal::timeout(5000);
    assert!(!signal.aborted);
    assert_eq!(signal.timeout_ms(), Some(5000));
}

#[test]
fn test_abort_signal_check_timeout_not_elapsed() {
    let mut signal = AbortSignal::timeout(5000);
    assert!(!signal.check_timeout(3000));
    assert!(!signal.aborted);
}

#[test]
fn test_abort_signal_check_timeout_elapsed() {
    let mut signal = AbortSignal::timeout(5000);
    assert!(signal.check_timeout(5000));
    assert!(signal.aborted);
    assert!(matches!(signal.reason, Some(JsValue::String(ref s)) if s == "TimeoutError"));
}

#[test]
fn test_abort_signal_check_timeout_already_aborted() {
    let mut signal = AbortSignal::timeout(5000);
    signal.abort(JsValue::String("manual".to_string()));
    assert!(!signal.check_timeout(6000));
    assert!(matches!(signal.reason, Some(JsValue::String(ref s)) if s == "manual"));
}

#[test]
fn test_abort_signal_any_none_aborted() {
    let s1 = AbortSignal::new();
    let s2 = AbortSignal::new();
    let combined = AbortSignal::any(&[&s1, &s2]);
    assert!(!combined.aborted);
    assert!(combined.reason.is_none());
}

#[test]
fn test_abort_signal_any_one_aborted() {
    let s1 = AbortSignal::new();
    let mut s2 = AbortSignal::new();
    s2.abort(JsValue::String("aborted".to_string()));
    let combined = AbortSignal::any(&[&s1, &s2]);
    assert!(combined.aborted);
    assert!(matches!(combined.reason, Some(JsValue::String(ref s)) if s == "aborted"));
}

#[test]
fn test_abort_signal_any_first_aborted_wins() {
    let mut s1 = AbortSignal::new();
    s1.abort(JsValue::String("first".to_string()));
    let mut s2 = AbortSignal::new();
    s2.abort(JsValue::String("second".to_string()));
    let combined = AbortSignal::any(&[&s1, &s2]);
    assert!(combined.aborted);
    assert!(matches!(combined.reason, Some(JsValue::String(ref s)) if s == "first"));
}

#[test]
fn test_abort_signal_any_empty() {
    let combined = AbortSignal::any(&[]);
    assert!(!combined.aborted);
}

#[test]
fn test_abort_controller_new() {
    let controller = AbortController::new();
    assert!(!controller.signal().aborted);
}

#[test]
fn test_abort_controller_abort() {
    let mut controller = AbortController::new();
    let callbacks = controller.abort(JsValue::String("cancelled".to_string()));
    assert!(callbacks.is_empty());
    assert!(controller.signal().aborted);
    assert!(matches!(controller.signal().reason, Some(JsValue::String(ref s)) if s == "cancelled"));
}

#[test]
fn test_abort_controller_abort_fires_callbacks() {
    let mut controller = AbortController::new();
    controller.signal_mut().add_on_abort(num(1.0));
    controller.signal_mut().add_on_abort(num(2.0));
    let callbacks = controller.abort(JsValue::String("abort".to_string()));
    assert_eq!(callbacks.len(), 2);
    assert!(controller.signal().aborted);
}

#[test]
fn test_abort_controller_default() {
    let controller = AbortController::default();
    assert!(!controller.signal().aborted);
}

#[test]
fn test_default_microtask_budget() {
    let el = EventLoop::new();
    assert_eq!(el.microtask_budget(), 10_000);
}

#[test]
fn test_set_microtask_budget() {
    let mut el = EventLoop::new();
    el.set_microtask_budget(100);
    assert_eq!(el.microtask_budget(), 100);
}

#[test]
fn test_drain_microtasks_respects_budget() {
    let mut el = EventLoop::new();
    el.set_microtask_budget(3);
    for i in 0..10 {
        el.queue_microtask_fn(num(i as f64));
    }
    let (drained, remaining) = el.drain_microtasks();
    assert_eq!(drained.len(), 3);
    assert_eq!(remaining, 7);
    assert!(el.has_pending_microtasks());
    let (drained2, remaining2) = el.drain_microtasks();
    assert_eq!(drained2.len(), 3);
    assert_eq!(remaining2, 4);
    let (drained3, remaining3) = el.drain_microtasks();
    assert_eq!(drained3.len(), 3);
    assert_eq!(remaining3, 1);
    let (drained4, remaining4) = el.drain_microtasks();
    assert_eq!(drained4.len(), 1);
    assert_eq!(remaining4, 0);
    assert!(!el.has_pending_microtasks());
}

#[test]
fn test_drain_microtasks_budget_larger_than_queue() {
    let mut el = EventLoop::new();
    el.set_microtask_budget(100);
    el.queue_microtask_fn(num(1.0));
    el.queue_microtask_fn(num(2.0));
    let (drained, remaining) = el.drain_microtasks();
    assert_eq!(drained.len(), 2);
    assert_eq!(remaining, 0);
}

#[test]
fn test_stats_initial() {
    let el = EventLoop::new();
    let stats = el.stats();
    assert_eq!(stats.total_microtasks, 0);
    assert_eq!(stats.total_macrotasks, 0);
    assert_eq!(stats.total_ticks, 0);
    assert_eq!(stats.max_microtasks_per_tick, 0);
    assert_eq!(stats.longest_tick_ms, 0);
    assert_eq!(stats.total_promises_created, 0);
    assert_eq!(stats.total_promises_settled, 0);
}

#[test]
fn test_stats_promise_tracking() {
    let mut el = EventLoop::new();
    let p1 = el.create_promise();
    let _p2 = el.create_promise();
    assert_eq!(el.stats().total_promises_created, 2);
    assert_eq!(el.stats().total_promises_settled, 0);
    el.fulfill_promise(&p1, num(1.0));
    assert_eq!(el.stats().total_promises_settled, 1);
}

#[test]
fn test_stats_promise_reject_tracking() {
    let mut el = EventLoop::new();
    let p = el.create_promise();
    el.reject_promise(&p, JsValue::String("err".to_string()));
    assert_eq!(el.stats().total_promises_created, 1);
    assert_eq!(el.stats().total_promises_settled, 1);
}

#[test]
fn test_stats_double_settle_not_counted() {
    let mut el = EventLoop::new();
    let p = el.create_promise();
    el.fulfill_promise(&p, num(1.0));
    el.fulfill_promise(&p, num(2.0));
    assert_eq!(el.stats().total_promises_settled, 1);
}

#[test]
fn test_stats_microtask_tracking() {
    let mut el = EventLoop::new();
    el.queue_microtask_fn(JsValue::Undefined);
    el.queue_microtask_fn(JsValue::Undefined);
    el.queue_microtask_fn(JsValue::Undefined);
    let (drained, _) = el.drain_microtasks();
    assert_eq!(drained.len(), 3);
    assert_eq!(el.stats().total_microtasks, 3);
    assert_eq!(el.stats().max_microtasks_per_tick, 3);
}

#[test]
fn test_stats_max_microtasks_per_tick() {
    let mut el = EventLoop::new();
    el.queue_microtask_fn(JsValue::Undefined);
    el.queue_microtask_fn(JsValue::Undefined);
    el.drain_microtasks();
    assert_eq!(el.stats().max_microtasks_per_tick, 2);
    for _ in 0..5 {
        el.queue_microtask_fn(JsValue::Undefined);
    }
    el.drain_microtasks();
    assert_eq!(el.stats().max_microtasks_per_tick, 5);
    el.queue_microtask_fn(JsValue::Undefined);
    el.drain_microtasks();
    assert_eq!(el.stats().max_microtasks_per_tick, 5);
    assert_eq!(el.stats().total_microtasks, 8);
}

#[test]
fn test_stats_run_to_completion() {
    let mut el = EventLoop::new();
    el.queue_microtask_fn(JsValue::Undefined);
    el.schedule_timer(JsValue::Undefined, 100, vec![], false);
    el.schedule_timer(JsValue::Undefined, 200, vec![], false);
    el.run_to_completion();
    let stats = el.stats();
    assert_eq!(stats.total_microtasks, 1);
    assert_eq!(stats.total_macrotasks, 2);
    assert!(stats.total_ticks >= 1);
}

#[test]
fn test_reset_stats() {
    let mut el = EventLoop::new();
    el.create_promise();
    el.queue_microtask_fn(JsValue::Undefined);
    el.drain_microtasks();
    assert!(el.stats().total_microtasks > 0);
    assert!(el.stats().total_promises_created > 0);
    el.reset_stats();
    let stats = el.stats();
    assert_eq!(stats.total_microtasks, 0);
    assert_eq!(stats.total_macrotasks, 0);
    assert_eq!(stats.total_ticks, 0);
    assert_eq!(stats.total_promises_created, 0);
    assert_eq!(stats.total_promises_settled, 0);
}

fn generator_task(el: &mut EventLoop, id: u64, ip: usize) -> AsyncGeneratorTask {
    let awaiting = el.create_promise();
    AsyncGeneratorTask {
        id,
        function: JsValue::Undefined,
        saved_ip: ip,
        saved_locals: vec![],
        saved_stack: vec![],
        awaiting,
        result_queue: vec![],
        done: false,
    }
}

#[test]
fn test_async_generator_task_submission() {
    let mut el = EventLoop::new();
    let task = generator_task(&mut el, 1, 0);
    el.submit_async_generator_task(task);
    assert_eq!(el.pending_async_generator_count(), 1);
}

#[test]
fn test_async_generator_task_not_ready_when_pending() {
    let mut el = EventLoop::new();
    let task = generator_task(&mut el, 1, 0);
    el.submit_async_generator_task(task);
    let ready = el.get_ready_async_generator_tasks();
    assert_eq!(ready.len(), 0);
    assert_eq!(el.pending_async_generator_count(), 1);
}

#[test]
fn test_async_generator_task_ready_when_fulfilled() {
    let mut el = EventLoop::new();
    let awaiting = el.create_promise();
    let task = AsyncGeneratorTask {
        id: 1,
        function: JsValue::Undefined,
        saved_ip: 42,
        saved_locals: vec![num(10.0)],
        saved_stack: vec![],
        awaiting,
        result_queue: vec![num(1.0), num(2.0)],
        done: false,
    };
    el.submit_async_generator_task(task);
    el.fulfill_promise(&awaiting, num(99.0));
    let ready = el.get_ready_async_generator_tasks();
    assert_eq!(ready.len(), 1);
    assert_eq!(ready[0].id, 1);
    assert_eq!(ready[0].saved_ip, 42);
    assert_eq!(ready[0].result_queue.len(), 2);
    assert!(!ready[0].done);
    assert_eq!(el.pending_async_generator_count(), 0);
}

#[test]
fn test_async_generator_task_ready_when_rejected() {
    let mut el = EventLoop::new();
    let awaiting = el.create_promise();
    let task = AsyncGeneratorTask {
        id: 1,
        function: JsValue::Undefined,
        saved_ip: 5,
        saved_locals: vec![],
        saved_stack: vec![JsValue::Boolean(true)],
        awaiting,
        result_queue: vec![],
        done: false,
    };
    el.submit_async_generator_task(task);
    el.reject_promise(&awaiting, JsValue::String("error".to_string()));
    let ready = el.get_ready_async_generator_tasks();
    assert_eq!(ready.len(), 1);
    assert_eq!(ready[0].id, 1);
    assert_eq!(el.pending_async_generator_count(), 0);
}

#[test]
fn test_async_generator_task_done_flag() {
    let mut el = EventLoop::new();
    let awaiting = el.create_promise();
    let task = AsyncGeneratorTask {
        id: 1,
        function: JsValue::Undefined,
        saved_ip: 0,
        saved_locals: vec![],
        saved_stack: vec![],
        awaiting,
        result_queue: vec![JsValue::String("final".to_string())],
        done: true,
    };
    el.submit_async_generator_task(task);
    el.fulfill_promise(&awaiting, JsValue::Undefined);
    let ready = el.get_ready_async_generator_tasks();
    assert_eq!(ready.len(), 1);
    assert!(ready[0].done);
}

#[test]
fn test_async_generator_task_multiple() {
    let mut el = EventLoop::new();
    for i in 0..3 {
        let task = generator_task(&mut el, i, i as usize);
        el.submit_async_generator_task(task);
    }
    assert_eq!(el.pending_async_generator_count(), 3);
    let second_awaiting = el.pending_async_generator_tasks()[1].awaiting;
    el.fulfill_promise(&second_awaiting, JsValue::Undefined);
    let ready = el.get_ready_async_generator_tasks();
    assert_eq!(ready.len(), 1);
    assert_eq!(ready[0].id, 1);
    assert_eq!(el.pending_async_generator_count(), 2);
}

#[test]
fn test_async_generator_task_clear() {
    let mut el = EventLoop::new();
    let task = generator_task(&mut el, 1, 0);
    el.submit_async_generator_task(task);
    assert_eq!(el.pending_async_generator_count(), 1);
    el.clear();
    assert_eq!(el.pending_async_generator_count(), 0);
}

fn make_test_suspension(el: &mut EventLoop, name: &str) -> SuspensionPoint {
    SuspensionPoint {
        id: 0,
        function_name: name.to_string(),
        ip: 42,
        bp: 10,
        locals: vec![num(1.0), JsValue::String("x".to_string())],
        stack: vec![JsValue::Boolean(true)],
        awaiting_promise: el.create_promise(),
        result_promise: el.create_promise(),
        exception_handlers: vec![],
        scope_depth: 2,
        suspended_at: 1000,
    }
}

#[test]
fn test_suspension_point_creation() {
    let mut el = EventLoop::new();
    let sp = make_test_suspension(&mut el, "myFunc");
    assert_eq!(sp.function_name, "myFunc");
    assert_eq!(sp.ip, 42);
    assert_eq!(sp.bp, 10);
    assert_eq!(sp.locals.len(), 2);
    assert_eq!(sp.scope_depth, 2);
    assert_eq!(sp.suspended_at, 1000);
}

#[test]
fn test_suspension_manager_suspend_and_resume() {
    let mut el = EventLoop::new();
    let mut mgr = SuspensionManager::new();
    let sp = make_test_suspension(&mut el, "asyncFn");
    let id = mgr.suspend(sp);
    assert!(id > 0);
    assert_eq!(mgr.pending_count(), 1);
    let resumed = mgr.resume(id);
    assert!(resumed.is_some());
    let resumed = resumed.unwrap();
    assert_eq!(resumed.function_name, "asyncFn");
    assert_eq!(resumed.ip, 42);
    assert_eq!(mgr.pending_count(), 0);
}

#[test]
fn test_suspension_manager_cancel() {
    let mut el = EventLoop::new();
    let mut mgr = SuspensionManager::new();
    let sp = make_test_suspension(&mut el, "cancelMe");
    let result_promise = sp.result_promise;
    let id = mgr.suspend(sp);
    assert!(mgr.cancel(&mut el, id));
    assert_eq!(mgr.pending_count(), 0);
    assert_eq!(el.promise(result_promise).state, PromiseInternalState::Rejected);
    assert!(!mgr.cancel(&mut el, id));
}

#[test]
fn test_suspension_manager_cancel_all() {
    let mut el = EventLoop::new();
    let mut mgr = SuspensionManager::new();
    let sp1 = make_test_suspension(&mut el, "f1");
    let sp2 = make_test_suspension(&mut el, "f2");
    let sp1_rp = sp1.result_promise;
    let sp2_rp = sp2.result_promise;
    mgr.suspend(sp1);
    mgr.suspend(sp2);
    let count = mgr.cancel_all(&mut el);
    assert_eq!(count, 2);
    assert_eq!(mgr.pending_count(), 0);
    assert_eq!(el.promise(sp1_rp).state, PromiseInternalState::Rejected);
    assert_eq!(el.promise(sp2_rp).state, PromiseInternalState::Rejected);
}

#[test]
fn test_suspension_manager_stats() {
    let mut el = EventLoop::new();
    let mut mgr = SuspensionManager::new();
    let sp1 = make_test_suspension(&mut el, "a");
    let sp2 = make_test_suspension(&mut el, "b");
    let id1 = mgr.suspend(sp1);
    let _id2 = mgr.suspend(sp2);
    let stats = mgr.stats();
    assert_eq!(stats.total_suspensions, 2);
    assert_eq!(stats.currently_suspended, 2);
    assert_eq!(stats.max_concurrent_suspensions, 2);
    assert_eq!(stats.total_resumptions, 0);
    mgr.resume(id1);
    let stats = mgr.stats();
    assert_eq!(stats.total_resumptions, 1);
    assert_eq!(stats.currently_suspended, 1);
    assert_eq!(stats.max_concurrent_suspensions, 2);
}

#[test]
fn test_suspension_manager_pending_count() {
    let mut el = EventLoop::new();
    let mut mgr = SuspensionManager::new();
    assert_eq!(mgr.pending_count(), 0);
    let sp = make_test_suspension(&mut el, "fn1");
    mgr.suspend(sp);
    assert_eq!(mgr.pending_count(), 1);
    let sp = make_test_suspension(&mut el, "fn2");
    mgr.suspend(sp);
    assert_eq!(mgr.pending_count(), 2);
}

#[test]
fn test_exception_handler_state_creation() {
    let handler = ExceptionHandlerState { catch_ip: 100, finally_ip: Some(200), stack_depth: 5 };
    assert_eq!(handler.catch_ip, 100);
    assert_eq!(handler.finally_ip, Some(200));
    assert_eq!(handler.stack_depth, 5);
    let handler_no_finally = ExceptionHandlerState { catch_ip: 50, finally_ip: None, stack_depth: 3 };
    assert!(handler_no_finally.finally_ip.is_none());
}

#[test]
fn test_async_generator_state_creation() {
    let gen = AsyncGeneratorState::new();
    assert_eq!(gen.state, AsyncGenState::SuspendedStart);
    assert!(gen.queue.is_empty());
    assert!(gen.suspension.is_none());
    assert!(gen.yielded_values.is_empty());
    assert!(!gen.is_completed());
}

#[test]
fn test_async_generator_state_enqueue_dequeue() {
    let mut el = EventLoop::new();
    let mut gen = AsyncGeneratorState::new();
    let promise = el.create_promise();
    gen.enqueue(AsyncGenRequest { kind: AsyncGenRequestKind::Next, value: num(1.0), promise });
    gen.enqueue(AsyncGenRequest { kind: AsyncGenRequestKind::Return, value: num(2.0), promise: el.create_promise() });
    assert_eq!(gen.queue.len(), 2);
    let req = gen.dequeue().unwrap();
    assert_eq!(req.kind, AsyncGenRequestKind::Next);
    assert!(is_num(&req.value, 1.0));
    let req = gen.dequeue().unwrap();
    assert_eq!(req.kind, AsyncGenRequestKind::Return);
    assert!(gen.dequeue().is_none());
}

#[test]
fn test_async_generator_state_transitions() {
    let mut gen = AsyncGeneratorState::new();
    assert_eq!(gen.state, AsyncGenState::SuspendedStart);
    assert!(!gen.is_completed());
    gen.state = AsyncGenState::Executing;
    assert_eq!(gen.state, AsyncGenState::Executing);
    assert!(!gen.is_completed());
    gen.state = AsyncGenState::SuspendedYield;
    assert_eq!(gen.state, AsyncGenState::SuspendedYield);
    gen.state = AsyncGenState::AwaitingReturn;
    assert_eq!(gen.state, AsyncGenState::AwaitingReturn);
    gen.complete();
    assert!(gen.is_completed());
    assert_eq!(gen.state, AsyncGenState::Completed);
}

#[test]
fn test_async_gen_request_kinds() {
    assert_ne!(AsyncGenRequestKind::Next, AsyncGenRequestKind::Return);
    assert_ne!(AsyncGenRequestKind::Return, AsyncGenRequestKind::Throw);
    assert_ne!(AsyncGenRequestKind::Next, AsyncGenRequestKind::Throw);
    assert_eq!(AsyncGenRequestKind::Next, AsyncGenRequestKind::Next);
}

#[test]
fn test_promise_executor_enqueue_dequeue() {
    let mut executor = PromiseExecutor::new();
    assert_eq!(executor.pending_count(), 0);
    executor.enqueue(PendingCallback { id: 0, callback: num(1.0), args: vec![JsValue::Boolean(true)], resolve_promise: None });
    executor.enqueue(PendingCallback { id: 0, callback: num(2.0), args: vec![], resolve_promise: None });
    assert_eq!(executor.pending_count(), 2);
    let cb = executor.dequeue().unwrap();
    assert!(is_num(&cb.callback, 1.0));
    assert_eq!(cb.args.len(), 1);
    assert_eq!(executor.pending_count(), 1);
    let cb = executor.dequeue().unwrap();
    assert!(is_num(&cb.callback, 2.0));
    assert_eq!(executor.pending_count(), 0);
    assert!(executor.dequeue().is_none());
}

#[test]
fn test_promise_executor_complete_and_drain() {
    let mut executor = PromiseExecutor::new();
    executor.complete(CallbackResult { id: 1, value: num(42.0), is_error: false });
    executor.complete(CallbackResult { id: 2, value: JsValue::String("err".to_string()), is_error: true });
    let results = executor.drain_completed();
    assert_eq!(results.len(), 2);
    assert!(!results[0].is_error);
    assert_eq!(results[0].id, 1);
    assert!(results[1].is_error);
    let results = executor.drain_completed();
    assert!(results.is_empty());
}

#[test]
fn test_async_stats_defaults() {
    let stats = AsyncStats::default();
    assert_eq!(stats.total_awaits, 0);
    assert_eq!(stats.total_resumes, 0);
    assert_eq!(stats.total_async_functions, 0);
    assert_eq!(stats.total_async_generators, 0);
    assert_eq!(stats.current_suspended, 0);
    assert_eq!(stats.max_suspension_depth, 0);
    assert_eq!(stats.avg_suspension_time_us, 0);
}

#[test]
fn test_multiple_suspensions_concurrently() {
    let mut el = EventLoop::new();
    let mut mgr = SuspensionManager::new();
    let mut ids = Vec::new();
    for i in 0..5 {
        let mut sp = make_test_suspension(&mut el, &format!("fn{}", i));
        sp.ip = i * 10;
        ids.push(mgr.suspend(sp));
    }
    assert_eq!(mgr.pending_count(), 5);
    assert_eq!(mgr.stats().max_concurrent_suspensions, 5);
    let point = mgr.resume(ids[2]).unwrap();
    assert_eq!(point.ip, 20);
    assert_eq!(mgr.pending_count(), 4);
    assert!(mgr.is_suspended(ids[0]));
    assert!(mgr.is_suspended(ids[1]));
    assert!(!mgr.is_suspended(ids[2]));
    assert!(mgr.is_suspended(ids[3]));
    assert!(mgr.is_suspended(ids[4]));
}

#[test]
fn test_resume_nonexistent_suspension() {
    let mut mgr = SuspensionManager::new();
    assert!(mgr.resume(999).is_none());
    assert!(mgr.get(999).is_none());
    assert!(!mgr.is_suspended(999));
}

#[test]
fn test_suspension_with_exception_handlers() {
    let mut el = EventLoop::new();
    let mut sp = make_test_suspension(&mut el, "tryCatchAsync");
    sp.exception_handlers = vec![
        ExceptionHandlerState { catch_ip: 50, finally_ip: Some(80), stack_depth: 3 },
        ExceptionHandlerState { catch_ip: 120, finally_ip: None, stack_depth: 5 },
    ];
    let mut mgr = SuspensionManager::new();
    let id = mgr.suspend(sp);
    let resumed = mgr.resume(id).unwrap();
    assert_eq!(resumed.exception_handlers.len(), 2);
    assert_eq!(resumed.exception_handlers[0].catch_ip, 50);
    assert_eq!(resumed.exception_handlers[0].finally_ip, Some(80));
    assert_eq!(resumed.exception_handlers[1].catch_ip, 120);
    assert!(resumed.exception_handlers[1].finally_ip.is_none());
}

// ── Further checks of the verified behaviour ─────────────────────────

#[test]
fn test_then_on_pending_promise_runs_handler_on_fulfill() {
    let mut el = EventLoop::new();
    let p = el.create_promise();
    let q = el.add_promise_reactions(&p, Some(JsValue::String("onOk".to_string())), None);
    assert_eq!(el.promise(q).state, PromiseInternalState::Pending);
    el.fulfill_promise(&p, num(7.0));
    let task = el.dequeue_microtask().unwrap();
    assert!(is_str(&task.callback, "onOk"));
    assert_eq!(task.args.len(), 1);
    assert!(is_num(&task.args[0], 7.0));
    assert_eq!(task.settle_promise, Some(q));
    assert!(task.is_fulfill);
}

#[test]
fn test_then_without_handler_passes_value_through() {
    let mut el = EventLoop::new();
    let p = el.create_promise();
    let q = el.add_promise_reactions(&p, None, None);
    let r = el.add_promise_reactions(&q, None, None);
    el.reject_promise(&p, JsValue::String("boom".to_string()));
    assert_eq!(el.promise(q).state, PromiseInternalState::Rejected);
    assert_eq!(el.promise(r).state, PromiseInternalState::Rejected);
    assert!(is_str(el.promise(r).result.as_ref().unwrap(), "boom"));
    // only the last promise in the chain has no reject handler attached
    let unhandled = el.drain_unhandled_rejections();
    assert_eq!(unhandled.len(), 1);
    assert_eq!(unhandled[0].0, r);
}

#[test]
fn test_then_on_settled_promise_queues_at_once() {
    let mut el = EventLoop::new();
    let p = el.resolve_promise(num(3.0));
    let _q = el.add_promise_reactions(&p, Some(JsValue::Undefined), Some(JsValue::Undefined));
    assert!(el.has_pending_microtasks());
}

#[test]
fn test_reject_without_handler_is_tracked() {
    let mut el = EventLoop::new();
    let p = el.reject_promise_new(JsValue::String("x".to_string()));
    let unhandled = el.drain_unhandled_rejections();
    assert_eq!(unhandled.len(), 1);
    assert_eq!(unhandled[0].0, p);
    assert!(el.drain_unhandled_rejections().is_empty());
}

#[test]
fn test_repeating_timer_is_rescheduled() {
    let mut el = EventLoop::new();
    let id = el.schedule_timer(JsValue::Undefined, 10, vec![], true);
    el.advance_time(10);
    let t = el.get_next_ready_macrotask().unwrap();
    assert_eq!(t.id, id);
    assert!(el.has_pending_macrotasks());
    assert_eq!(el.next_macrotask_time(), Some(20));
}

#[test]
fn test_advance_to_next_macrotask_jumps_time() {
    let mut el = EventLoop::new();
    el.schedule_timer(num(1.0), 300, vec![], false);
    el.schedule_timer(num(2.0), 100, vec![], false);
    let t = el.advance_to_next_macrotask().unwrap();
    assert!(is_num(&t.callback, 2.0));
    assert_eq!(el.current_time(), 100);
}

#[test]
fn test_promise_all_values_in_order() {
    let mut el = EventLoop::new();
    let p1 = el.resolve_promise(num(1.0));
    let p2 = el.resolve_promise(num(2.0));
    let r = el.promise_all(vec![p1, p2]);
    match el.promise(r).result.as_ref().unwrap() {
        JsValue::Array(items) => {
            assert_eq!(items.len(), 2);
            assert!(is_num(&items[0], 1.0));
            assert!(is_num(&items[1], 2.0));
        }
        _ => panic!("expected an array"),
    }
}

#[test]
fn test_promise_all_pending_stays_pending() {
    let mut el = EventLoop::new();
    let p1 = el.resolve_promise(num(1.0));
    let p2 = el.create_promise();
    let r = el.promise_all(vec![p1, p2]);
    assert_eq!(el.promise(r).state, PromiseInternalState::Pending);
}

#[test]
fn test_run_to_completion_iterations_with_budget() {
    let mut el = EventLoop::new();
    el.set_microtask_budget(2);
    for _ in 0..5 {
        el.queue_microtask_fn(JsValue::Undefined);
    }
    let r = el.run_to_completion();
    assert_eq!(r.microtasks_processed, 5);
    assert_eq!(r.iterations, 2);
    assert_eq!(el.stats().total_ticks, 3);
    assert_eq!(el.stats().max_microtasks_per_tick, 2);
}

#[test]
fn test_process_microtasks_with_vm_clears() {
    let mut el = EventLoop::new();
    el.queue_microtask_fn(JsValue::Undefined);
    el.queue_microtask_fn(JsValue::Undefined);
    assert_eq!(el.process_microtasks_with_vm(), 2);
    assert!(!el.has_pending_microtasks());
}

#[test]
fn promise_all_settles_when_pending_input_is_fulfilled() {
    let mut el = EventLoop::new();
    let p1 = el.create_promise();
    let r = el.promise_all(vec![p1]);
    assert_eq!(el.promise(r).state, PromiseInternalState::Pending);
    el.fulfill_promise(&p1, num(1.0));
    el.drain_microtasks();
    assert_eq!(el.promise(r).state, PromiseInternalState::Fulfilled);
    match el.promise(r).result.as_ref().unwrap() {
        JsValue::Array(items) => {
            assert_eq!(items.len(), 1);
            assert!(is_num(&items[0], 1.0));
        }
        _ => panic!("expected an array"),
    }
}

#[test]
fn promise_all_waits_for_every_input_then_keeps_order() {
    let mut el = EventLoop::new();
    let p1 = el.create_promise();
    let p2 = el.create_promise();
    let r = el.promise_all(vec![p1, p2]);
    el.fulfill_promise(&p2, num(2.0));
    assert_eq!(el.promise(r).state, PromiseInternalState::Pending);
    el.fulfill_promise(&p1, num(1.0));
    match el.promise(r).result.as_ref().unwrap() {
        JsValue::Array(items) => {
            assert!(is_num(&items[0], 1.0));
            assert!(is_num(&items[1], 2.0));
        }
        _ => panic!("expected an array"),
    }
}

#[test]
fn promise_all_rejects_when_pending_input_is_rejected() {
    let mut el = EventLoop::new();
    let p1 = el.create_promise();
    let p2 = el.create_promise();
    let r = el.promise_all(vec![p1, p2]);
    el.reject_promise(&p2, num(7.0));
    assert_eq!(el.promise(r).state, PromiseInternalState::Rejected);
    assert!(is_num(el.promise(r).result.as_ref().unwrap(), 7.0));
}

#[test]
fn promise_any_settles_when_pending_input_is_fulfilled() {
    let mut el = EventLoop::new();
    let p1 = el.create_promise();
    let p2 = el.reject_promise_new(num(3.0));
    let r = el.promise_any(vec![p1, p2]);
    assert_eq!(el.promise(r).state, PromiseInternalState::Pending);
    el.fulfill_promise(&p1, num(4.0));
    assert_eq!(el.promise(r).state, PromiseInternalState::Fulfilled);
    assert!(is_num(el.promise(r).result.as_ref().unwrap(), 4.0));
}

#[test]
fn promise_all_settled_settles_when_last_input_settles() {
    let mut el = EventLoop::new();
    let p1 = el.create_promise();
    let p2 = el.resolve_promise(num(1.0));
    let r = el.promise_all_settled(vec![p1, p2]);
    assert_eq!(el.promise(r).state, PromiseInternalState::Pending);
    el.reject_promise(&p1, num(9.0));
    assert_eq!(el.promise(r).state, PromiseInternalState::Fulfilled);
    match el.promise(r).result.as_ref().unwrap() {
        JsValue::Array(items) => assert_eq!(items.len(), 2),
        _ => panic!("expected an array"),
    }
}

#[test]
fn promise_race_follows_first_input_to_settle() {
    let mut el = EventLoop::new();
    let p1 = el.create_promise();
    let p2 = el.create_promise();
    let r = el.promise_race(vec![p1, p2]);
    el.reject_promise(&p2, num(5.0));
    el.fulfill_promise(&p1, num(6.0));
    assert_eq!(el.promise(r).state, PromiseInternalState::Rejected);
    assert!(is_num(el.promise(r).result.as_ref().unwrap(), 5.0));
}
