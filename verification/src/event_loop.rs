//! Event loop: microtask and macrotask queues, virtual time, promises,
//! abort signals and the bookkeeping for suspended async functions.
use vstd::prelude::*;
use std::collections::VecDeque;
use std::collections::HashMap;
use vstd::std_specs::iter::IteratorSpec;
use crate::value::{JsValue, ValueModel, models_of, duplicate_values, object2, object3, lemma_models_of_index};

verus! {

// ───────────────────────────── Promise data ─────────────────────────────

/// Reference to a promise held by an [`EventLoop`].
#[derive(Clone, Copy, PartialEq, Eq, Debug, Structural)]
pub struct PromiseHandle {
    pub index: usize,
}

/// Promise state.
#[derive(Clone, Copy, PartialEq, Eq, Debug, Structural)]
pub enum PromiseInternalState {
    Pending,
    Fulfilled,
    Rejected,
}

/// Which settlement a reaction waits for.
#[derive(Clone, Copy, PartialEq, Eq, Debug, Structural)]
pub enum PromiseReactionType {
    Fulfill,
    Reject,
}

/// A `then`/`catch` reaction registered on a pending promise.
#[derive(Debug)]
pub struct PromiseReaction {
    /// The callback to run, or none to pass the value through.
    pub handler: Option<JsValue>,
    /// The promise that the reaction settles.
    pub promise: PromiseHandle,
    pub reaction_type: PromiseReactionType,
    /// For a reaction by which a combinator's result waits on an input: the
    /// combinator's kind and inputs, decided again when the input settles.
    pub combinator: Option<(CombinatorKind, Vec<PromiseHandle>)>,
}

/// The promise combinators.
#[derive(Clone, Copy, PartialEq, Eq, Debug, Structural)]
pub enum CombinatorKind {
    All,
    Race,
    Any,
    AllSettled,
}

/// Internal state of one promise.
#[derive(Debug)]
pub struct PromiseInternal {
    pub state: PromiseInternalState,
    /// Fulfillment value or rejection reason once settled.
    pub result: Option<JsValue>,
    /// Reactions waiting for the promise to settle.
    pub reactions: Vec<PromiseReaction>,
    /// Whether a reaction was ever attached (unhandled-rejection tracking).
    pub handled: bool,
}

/// A microtask (promise reaction, `queueMicrotask` callback).
#[derive(Debug)]
pub struct Microtask {
    pub callback: JsValue,
    pub args: Vec<JsValue>,
    /// Promise to settle with the callback's result.
    pub settle_promise: Option<PromiseHandle>,
    pub is_fulfill: bool,
}

/// A macrotask (timer callback).
#[derive(Debug)]
pub struct Macrotask {
    pub id: u64,
    pub callback: JsValue,
    pub args: Vec<JsValue>,
    /// Virtual time (ms) at which the task fires.
    pub fire_at: u64,
    /// Delay in ms, used again by repeating tasks.
    pub delay: u64,
    pub repeating: bool,
    pub cancelled: bool,
}

// ───────────────────────────── Models ─────────────────────────────

pub open spec fn opt_model(o: Option<JsValue>) -> Option<ValueModel> {
    match o {
        Some(v) => Some(v@),
        None => None,
    }
}

pub struct ReactionModel {
    pub handler: Option<ValueModel>,
    pub promise: int,
    pub reaction_type: PromiseReactionType,
    pub combinator: Option<(CombinatorKind, Seq<PromiseHandle>)>,
}

pub struct PromiseModel {
    pub state: PromiseInternalState,
    pub result: Option<ValueModel>,
    pub reactions: Seq<ReactionModel>,
    pub handled: bool,
}

pub struct MicrotaskModel {
    pub callback: ValueModel,
    pub args: Seq<ValueModel>,
    pub settle_promise: Option<int>,
    pub is_fulfill: bool,
}

pub struct MacrotaskModel {
    pub id: u64,
    pub callback: ValueModel,
    pub args: Seq<ValueModel>,
    pub fire_at: u64,
    pub delay: u64,
    pub repeating: bool,
    pub cancelled: bool,
}

pub open spec fn handle_model(h: Option<PromiseHandle>) -> Option<int> {
    match h {
        Some(h) => Some(h.index as int),
        None => None,
    }
}

impl PromiseReaction {
    pub open spec fn model(self) -> ReactionModel {
        ReactionModel {
            handler: opt_model(self.handler),
            promise: self.promise.index as int,
            reaction_type: self.reaction_type,
            combinator: match self.combinator {
                Some((k, ps)) => Some((k, ps@)),
                None => None,
            },
        }
    }
}

pub open spec fn reaction_models(s: Seq<PromiseReaction>) -> Seq<ReactionModel> {
    s.map_values(|r: PromiseReaction| r.model())
}

impl PromiseInternal {
    pub open spec fn model(self) -> PromiseModel {
        PromiseModel {
            state: self.state,
            result: opt_model(self.result),
            reactions: reaction_models(self.reactions@),
            handled: self.handled,
        }
    }
}

impl Microtask {
    pub open spec fn model(self) -> MicrotaskModel {
        MicrotaskModel {
            callback: self.callback@,
            args: models_of(self.args@),
            settle_promise: handle_model(self.settle_promise),
            is_fulfill: self.is_fulfill,
        }
    }
}

impl Macrotask {
    pub open spec fn model(self) -> MacrotaskModel {
        MacrotaskModel {
            id: self.id,
            callback: self.callback@,
            args: models_of(self.args@),
            fire_at: self.fire_at,
            delay: self.delay,
            repeating: self.repeating,
            cancelled: self.cancelled,
        }
    }
}

pub open spec fn promise_models(s: Seq<PromiseInternal>) -> Seq<PromiseModel> {
    s.map_values(|p: PromiseInternal| p.model())
}

pub open spec fn microtask_models(s: Seq<Microtask>) -> Seq<MicrotaskModel> {
    s.map_values(|m: Microtask| m.model())
}

pub open spec fn macrotask_models(s: Seq<Macrotask>) -> Seq<MacrotaskModel> {
    s.map_values(|m: Macrotask| m.model())
}

/// Number of promises that are no longer pending.
pub open spec fn count_settled(s: Seq<PromiseModel>) -> nat
    decreases s.len(),
{
    if s.len() == 0 {
        0
    } else {
        count_settled(s.drop_last()) + if s.last().state != PromiseInternalState::Pending { 1nat } else { 0nat }
    }
}

// ───────────────────────────── Run results and statistics ─────────────────────────────

/// Result of [`EventLoop::run_to_completion`].
#[derive(Debug, Clone, Copy, PartialEq, Eq, Structural)]
pub struct RunResult {
    pub microtasks_processed: usize,
    pub macrotasks_processed: usize,
    pub iterations: usize,
    pub final_time: u64,
}

impl RunResult {
    /// All counters zero.
    pub fn zero() -> (r: RunResult)
        ensures
            r == (RunResult { microtasks_processed: 0, macrotasks_processed: 0, iterations: 0, final_time: 0 }),
    {
        RunResult { microtasks_processed: 0, macrotasks_processed: 0, iterations: 0, final_time: 0 }
    }
}

impl Default for RunResult {
    fn default() -> (r: RunResult)
        ensures
            r == (RunResult { microtasks_processed: 0, macrotasks_processed: 0, iterations: 0, final_time: 0 }),
    {
        RunResult::zero()
    }
}

/// Runtime statistics of an event loop.
#[derive(Debug, Clone, Copy, PartialEq, Eq, Structural)]
pub struct EventLoopStats {
    pub total_microtasks: u64,
    pub total_macrotasks: u64,
    pub total_ticks: u64,
    pub max_microtasks_per_tick: u64,
    /// Longest tick in wall-clock milliseconds.
    pub longest_tick_ms: u64,
    pub total_promises_created: u64,
    pub total_promises_settled: u64,
}

pub open spec fn zero_stats() -> EventLoopStats {
    EventLoopStats {
        total_microtasks: 0,
        total_macrotasks: 0,
        total_ticks: 0,
        max_microtasks_per_tick: 0,
        longest_tick_ms: 0,
        total_promises_created: 0,
        total_promises_settled: 0,
    }
}

impl EventLoopStats {
    /// All counters zero.
    pub fn zero() -> (r: EventLoopStats)
        ensures
            r == zero_stats(),
    {
        EventLoopStats {
            total_microtasks: 0,
            total_macrotasks: 0,
            total_ticks: 0,
            max_microtasks_per_tick: 0,
            longest_tick_ms: 0,
            total_promises_created: 0,
            total_promises_settled: 0,
        }
    }
}

impl Default for EventLoopStats {
    fn default() -> (r: EventLoopStats)
        ensures
            r == zero_stats(),
    {
        EventLoopStats::zero()
    }
}


// ───────────────────────────── Async tasks ─────────────────────────────

/// An async function waiting for a promise to settle.
#[derive(Debug)]
pub struct AsyncTask {
    pub id: u64,
    pub function: JsValue,
    pub saved_ip: usize,
    pub saved_locals: Vec<JsValue>,
    pub saved_stack: Vec<JsValue>,
    /// The promise being awaited.
    pub awaiting: PromiseHandle,
    /// The promise for the async function's result.
    pub result_promise: PromiseHandle,
    pub saved_bp: usize,
}

/// A suspended async generator waiting for a promise to settle.
#[derive(Debug)]
pub struct AsyncGeneratorTask {
    pub id: u64,
    pub function: JsValue,
    pub saved_ip: usize,
    pub saved_locals: Vec<JsValue>,
    pub saved_stack: Vec<JsValue>,
    pub awaiting: PromiseHandle,
    /// Values yielded so far.
    pub result_queue: Vec<JsValue>,
    pub done: bool,
}

// ───────────────────────────── Event loop ─────────────────────────────

/// The task queues, virtual clock and promise table of one runtime.
pub struct EventLoop {
    microtask_queue: VecDeque<Microtask>,
    macrotask_queue: Vec<Macrotask>,
    virtual_time: u64,
    next_timer_id: u64,
    unhandled_rejections: Vec<(PromiseHandle, JsValue)>,
    draining_microtasks: bool,
    /// Every promise created by this loop, addressed by [`PromiseHandle`].
    promises: Vec<PromiseInternal>,
    pending_promises: Vec<PromiseHandle>,
    pending_async_tasks: Vec<AsyncTask>,
    max_microtasks_per_tick: usize,
    stats: EventLoopStats,
    pending_async_generator_tasks: Vec<AsyncGeneratorTask>,
}

/// Abstract state of an [`EventLoop`].
pub struct EventLoopModel {
    pub promises: Seq<PromiseModel>,
    pub microtasks: Seq<MicrotaskModel>,
    pub macrotasks: Seq<MacrotaskModel>,
    pub time: u64,
    pub next_timer_id: u64,
    pub unhandled: Seq<(int, ValueModel)>,
    pub pending_promises: Seq<int>,
    pub async_tasks: Seq<AsyncTask>,
    pub generator_tasks: Seq<AsyncGeneratorTask>,
    pub budget: usize,
    pub stats: EventLoopStats,
}

pub open spec fn unhandled_models(s: Seq<(PromiseHandle, JsValue)>) -> Seq<(int, ValueModel)> {
    s.map_values(|e: (PromiseHandle, JsValue)| (e.0.index as int, e.1@))
}

pub open spec fn handle_indices(s: Seq<PromiseHandle>) -> Seq<int> {
    s.map_values(|h: PromiseHandle| h.index as int)
}

impl View for EventLoop {
    type V = EventLoopModel;

    closed spec fn view(&self) -> EventLoopModel {
        EventLoopModel {
            promises: promise_models(self.promises@),
            microtasks: microtask_models(self.microtask_queue@),
            macrotasks: macrotask_models(self.macrotask_queue@),
            time: self.virtual_time,
            next_timer_id: self.next_timer_id,
            unhandled: unhandled_models(self.unhandled_rejections@),
            pending_promises: handle_indices(self.pending_promises@),
            async_tasks: self.pending_async_tasks@,
            generator_tasks: self.pending_async_generator_tasks@,
            budget: self.max_microtasks_per_tick,
            stats: self.stats,
        }
    }
}

/// Every promise reference that a model holds points into its promise table,
/// and every reaction settles a promise created after the one it waits on.
pub open spec fn model_wf(m: EventLoopModel) -> bool {
    let n = m.promises.len();
    &&& forall|i: int, j: int|
        0 <= i < n && 0 <= j < m.promises[i].reactions.len() ==> i < #[trigger] m.promises[i].reactions[j].promise < n
    &&& forall|k: int| 0 <= k < m.microtasks.len() ==> ((#[trigger] m.microtasks[k]).settle_promise matches Some(q) ==> 0 <= q < n)
    &&& forall|k: int| 0 <= k < m.unhandled.len() ==> 0 <= (#[trigger] m.unhandled[k]).0 < n
    &&& forall|k: int| 0 <= k < m.pending_promises.len() ==> 0 <= #[trigger] m.pending_promises[k] < n
    &&& forall|k: int| 0 <= k < m.async_tasks.len() ==> (#[trigger] m.async_tasks[k]).awaiting.index < n && m.async_tasks[k].result_promise.index < n
    &&& forall|k: int| 0 <= k < m.generator_tasks.len() ==> (#[trigger] m.generator_tasks[k]).awaiting.index < n
    &&& m.stats.total_promises_settled <= count_settled(m.promises)
    &&& m.stats.total_promises_created <= n
    &&& m.next_timer_id >= 1
    &&& forall|k: int| 0 <= k < m.macrotasks.len() ==> 0 < (#[trigger] m.macrotasks[k]).id < m.next_timer_id
}

pub proof fn lemma_count_settled_bound(s: Seq<PromiseModel>)
    ensures
        count_settled(s) <= s.len(),
    decreases s.len(),
{
    if s.len() > 0 {
        lemma_count_settled_bound(s.drop_last());
    }
}

/// Settling a pending promise adds one to the settled count; a pending one
/// is never counted.
pub proof fn lemma_count_settled_update(s: Seq<PromiseModel>, i: int, x: PromiseModel)
    requires
        0 <= i < s.len(),
    ensures
        s[i].state == PromiseInternalState::Pending ==> count_settled(s) < s.len(),
        s[i].state == PromiseInternalState::Pending && x.state != PromiseInternalState::Pending
            ==> count_settled(s.update(i, x)) == count_settled(s) + 1,
        s[i].state == x.state ==> count_settled(s.update(i, x)) == count_settled(s),
    decreases s.len(),
{
    lemma_count_settled_bound(s.drop_last());
    if i < s.len() - 1 {
        lemma_count_settled_update(s.drop_last(), i, x);
        assert(s.update(i, x).drop_last() =~= s.drop_last().update(i, x));
    } else {
        assert(s.update(i, x).drop_last() =~= s.drop_last());
    }
}

pub proof fn lemma_count_settled_push(s: Seq<PromiseModel>, x: PromiseModel)
    requires
        x.state == PromiseInternalState::Pending,
    ensures
        count_settled(s.push(x)) == count_settled(s),
{
    assert(s.push(x).drop_last() =~= s);
}

/// A fresh, pending promise with no reactions.
pub open spec fn fresh_promise() -> PromiseModel {
    PromiseModel { state: PromiseInternalState::Pending, result: None, reactions: Seq::empty(), handled: false }
}

impl EventLoop {
    /// The loop's invariant.
    pub open spec fn wf(&self) -> bool {
        model_wf(self@)
    }

    /// Whether `h` refers to a promise of this loop.
    pub open spec fn valid_handle(&self, h: PromiseHandle) -> bool {
        h.index < self@.promises.len()
    }

    /// A new, empty event loop at virtual time 0.
    pub fn new() -> (r: EventLoop)
        ensures
            r.wf(),
            r@ == (EventLoopModel {
                promises: Seq::empty(),
                microtasks: Seq::empty(),
                macrotasks: Seq::empty(),
                time: 0,
                next_timer_id: 1,
                unhandled: Seq::empty(),
                pending_promises: Seq::empty(),
                async_tasks: Seq::empty(),
                generator_tasks: Seq::empty(),
                budget: 10_000,
                stats: zero_stats(),
            }),
    {
        let r = EventLoop {
            microtask_queue: VecDeque::new(),
            macrotask_queue: Vec::new(),
            virtual_time: 0,
            next_timer_id: 1,
            unhandled_rejections: Vec::new(),
            draining_microtasks: false,
            promises: Vec::new(),
            pending_promises: Vec::new(),
            pending_async_tasks: Vec::new(),
            max_microtasks_per_tick: 10_000,
            stats: EventLoopStats::zero(),
            pending_async_generator_tasks: Vec::new(),
        };
        assert(r@.promises =~= Seq::empty());
        assert(r@.microtasks =~= Seq::empty());
        assert(r@.macrotasks =~= Seq::empty());
        assert(r@.unhandled =~= Seq::empty());
        assert(r@.pending_promises =~= Seq::empty());
        r
    }

    /// Current virtual time in milliseconds.
    pub fn current_time(&self) -> (r: u64)
        ensures
            r == self@.time,
    {
        self.virtual_time
    }

    /// Move virtual time forward by `ms`.
    pub fn advance_time(&mut self, ms: u64)
        requires
            old(self)@.time + ms <= u64::MAX,
        ensures
            final(self)@ == (EventLoopModel { time: (old(self)@.time + ms) as u64, ..old(self)@ }),
    {
        self.virtual_time = self.virtual_time + ms;
    }
}

impl EventLoop {
    /// Append a microtask to the microtask queue.
    pub fn enqueue_microtask(&mut self, task: Microtask)
        requires
            old(self).wf(),
            task.settle_promise matches Some(h) ==> old(self).valid_handle(h),
        ensures
            final(self).wf(),
            final(self)@ == (EventLoopModel { microtasks: old(self)@.microtasks.push(task.model()), ..old(self)@ }),
    {
        let ghost m = task.model();
        self.microtask_queue.push_back(task);
        assert(self@.microtasks =~= old(self)@.microtasks.push(m));
    }

    /// Append a plain callback microtask with arguments.
    pub fn queue_microtask(&mut self, callback: JsValue, args: Vec<JsValue>)
        requires
            old(self).wf(),
        ensures
            final(self).wf(),
            final(self)@ == (EventLoopModel {
                microtasks: old(self)@.microtasks.push(MicrotaskModel {
                    callback: callback@,
                    args: models_of(args@),
                    settle_promise: None,
                    is_fulfill: true,
                }),
                ..old(self)@
            }),
    {
        self.enqueue_microtask(Microtask { callback, args, settle_promise: None, is_fulfill: true });
    }

    /// `queueMicrotask(callback)`: a microtask without arguments or promise.
    pub fn queue_microtask_fn(&mut self, callback: JsValue)
        requires
            old(self).wf(),
        ensures
            final(self).wf(),
            final(self)@ == (EventLoopModel {
                microtasks: old(self)@.microtasks.push(MicrotaskModel {
                    callback: callback@,
                    args: Seq::empty(),
                    settle_promise: None,
                    is_fulfill: true,
                }),
                ..old(self)@
            }),
    {
        let args: Vec<JsValue> = Vec::new();
        assert(models_of(args@) =~= Seq::empty());
        self.enqueue_microtask(Microtask { callback, args, settle_promise: None, is_fulfill: true });
    }

    /// Whether any microtask is queued.
    pub fn has_pending_microtasks(&self) -> (r: bool)
        ensures
            r == (self@.microtasks.len() > 0),
    {
        self.microtask_queue.len() > 0
    }

    /// Remove and return the oldest microtask.
    pub fn dequeue_microtask(&mut self) -> (r: Option<Microtask>)
        requires
            old(self).wf(),
        ensures
            final(self).wf(),
            old(self)@.microtasks.len() == 0 ==> r is None && final(self)@ == old(self)@,
            old(self)@.microtasks.len() > 0 ==> (r matches Some(t) && t.model() == old(self)@.microtasks[0]
                && final(self)@ == (EventLoopModel { microtasks: old(self)@.microtasks.drop_first(), ..old(self)@ })),
    {
        let r = self.microtask_queue.pop_front();
        assert(self@.microtasks =~= old(self)@.microtasks.drop_first() || old(self)@.microtasks.len() == 0);
        r
    }

    /// Drop every queued microtask, returning how many there were.
    pub fn process_microtasks_with_vm(&mut self) -> (r: usize)
        requires
            old(self).wf(),
        ensures
            final(self).wf(),
            r == old(self)@.microtasks.len(),
            final(self)@ == (EventLoopModel { microtasks: Seq::empty(), ..old(self)@ }),
    {
        let count = self.microtask_queue.len();
        self.microtask_queue.clear();
        assert(self@.microtasks =~= Seq::empty());
        count
    }

    /// Set the most microtasks drained per tick.
    pub fn set_microtask_budget(&mut self, limit: usize)
        ensures
            final(self)@ == (EventLoopModel { budget: limit, ..old(self)@ }),
    {
        self.max_microtasks_per_tick = limit;
    }

    /// The most microtasks drained per tick.
    pub fn microtask_budget(&self) -> (r: usize)
        ensures
            r == self@.budget,
    {
        self.max_microtasks_per_tick
    }

    /// A snapshot of the statistics.
    pub fn stats(&self) -> (r: EventLoopStats)
        ensures
            r == self@.stats,
    {
        self.stats
    }

    /// Reset every statistic to zero.
    pub fn reset_stats(&mut self)
        requires
            old(self).wf(),
        ensures
            final(self).wf(),
            final(self)@ == (EventLoopModel { stats: zero_stats(), ..old(self)@ }),
    {
        self.stats = EventLoopStats::zero();
    }

    /// Record a rejection that nobody handled.
    pub fn track_unhandled_rejection(&mut self, promise: PromiseHandle, reason: JsValue)
        requires
            old(self).wf(),
            old(self).valid_handle(promise),
        ensures
            final(self).wf(),
            final(self)@ == (EventLoopModel {
                unhandled: old(self)@.unhandled.push((promise.index as int, reason@)),
                ..old(self)@
            }),
    {
        let ghost e = (promise.index as int, reason@);
        self.unhandled_rejections.push((promise, reason));
        assert(self@.unhandled =~= old(self)@.unhandled.push(e));
    }

    /// Take every recorded unhandled rejection, in the order recorded.
    pub fn drain_unhandled_rejections(&mut self) -> (r: Vec<(PromiseHandle, JsValue)>)
        requires
            old(self).wf(),
        ensures
            final(self).wf(),
            unhandled_models(r@) == old(self)@.unhandled,
            final(self)@ == (EventLoopModel { unhandled: Seq::empty(), ..old(self)@ }),
    {
        let mut r: Vec<(PromiseHandle, JsValue)> = Vec::new();
        std::mem::swap(&mut r, &mut self.unhandled_rejections);
        assert(self@.unhandled =~= Seq::empty());
        r
    }
}

// ───────────────────────────── Timers ─────────────────────────────

/// A live task that is due at `now`.
pub open spec fn is_ready(t: MacrotaskModel, now: u64) -> bool {
    !t.cancelled && t.fire_at <= now
}

pub open spec fn any_ready(q: Seq<MacrotaskModel>, now: u64) -> bool {
    exists|j: int| 0 <= j < q.len() && is_ready(#[trigger] q[j], now)
}

pub open spec fn any_live(q: Seq<MacrotaskModel>) -> bool {
    exists|j: int| 0 <= j < q.len() && !(#[trigger] q[j]).cancelled
}

/// `i` is the first due task with the earliest firing time.
pub open spec fn is_next_ready(q: Seq<MacrotaskModel>, now: u64, i: int) -> bool {
    &&& 0 <= i < q.len()
    &&& is_ready(q[i], now)
    &&& forall|j: int| 0 <= j < q.len() && is_ready(#[trigger] q[j], now) ==> q[i].fire_at <= q[j].fire_at
    &&& forall|j: int| 0 <= j < i && is_ready(#[trigger] q[j], now) ==> q[i].fire_at < q[j].fire_at
}

/// `t` is the earliest firing time of a live task.
pub open spec fn is_earliest_time(q: Seq<MacrotaskModel>, t: u64) -> bool {
    &&& exists|i: int| 0 <= i < q.len() && !(#[trigger] q[i]).cancelled && q[i].fire_at == t
    &&& forall|j: int| 0 <= j < q.len() && !(#[trigger] q[j]).cancelled ==> t <= q[j].fire_at
}

/// `i` is the first task carrying `id`.
pub open spec fn is_first_with_id(q: Seq<MacrotaskModel>, id: u64, i: int) -> bool {
    &&& 0 <= i < q.len()
    &&& q[i].id == id
    &&& forall|j: int| 0 <= j < i ==> (#[trigger] q[j]).id != id
}

/// The queue after task `i` has fired at `now`: removed, and put back at the
/// end with a new firing time when it repeats.
pub open spec fn after_firing(q: Seq<MacrotaskModel>, now: u64, i: int) -> Seq<MacrotaskModel> {
    if q[i].repeating {
        q.remove(i).push(MacrotaskModel { fire_at: (now + q[i].delay) as u64, cancelled: false, repeating: true, ..q[i] })
    } else {
        q.remove(i)
    }
}

/// A repeating task that could fire now can be put back without overflow.
pub open spec fn reschedule_fits(q: Seq<MacrotaskModel>, now: u64) -> bool {
    forall|i: int| is_next_ready(q, now, i) && q[i].repeating ==> now + q[i].delay <= u64::MAX
}

impl EventLoop {
    /// Schedule a timer (`setTimeout`/`setInterval`) and return its id.
    pub fn schedule_timer(&mut self, callback: JsValue, delay: u64, args: Vec<JsValue>, repeating: bool) -> (r: u64)
        requires
            old(self).wf(),
            old(self)@.time + delay <= u64::MAX,
            old(self)@.next_timer_id < u64::MAX,
        ensures
            final(self).wf(),
            r == old(self)@.next_timer_id,
            final(self)@ == (EventLoopModel {
                macrotasks: old(self)@.macrotasks.push(MacrotaskModel {
                    id: r,
                    callback: callback@,
                    args: models_of(args@),
                    fire_at: (old(self)@.time + delay) as u64,
                    delay,
                    repeating,
                    cancelled: false,
                }),
                next_timer_id: (old(self)@.next_timer_id + 1) as u64,
                ..old(self)@
            }),
    {
        let id = self.next_timer_id;
        self.next_timer_id = self.next_timer_id + 1;
        let fire_at = self.virtual_time + delay;
        let task = Macrotask { id, callback, args, fire_at, delay, repeating, cancelled: false };
        let ghost m = task.model();
        self.macrotask_queue.push(task);
        assert(self@.macrotasks =~= old(self)@.macrotasks.push(m));
        id
    }

    /// `setImmediate`: a one-shot timer firing at the current time.
    pub fn set_immediate(&mut self, callback: JsValue, args: Vec<JsValue>) -> (r: u64)
        requires
            old(self).wf(),
            old(self)@.next_timer_id < u64::MAX,
        ensures
            final(self).wf(),
            r == old(self)@.next_timer_id,
            final(self)@ == (EventLoopModel {
                macrotasks: old(self)@.macrotasks.push(MacrotaskModel {
                    id: r,
                    callback: callback@,
                    args: models_of(args@),
                    fire_at: old(self)@.time,
                    delay: 0,
                    repeating: false,
                    cancelled: false,
                }),
                next_timer_id: (old(self)@.next_timer_id + 1) as u64,
                ..old(self)@
            }),
    {
        self.schedule_timer(callback, 0, args, false)
    }

    /// Cancel the first timer carrying `id`; nothing happens when there is none.
    pub fn cancel_timer(&mut self, id: u64)
        requires
            old(self).wf(),
        ensures
            final(self).wf(),
            (forall|j: int| 0 <= j < old(self)@.macrotasks.len() ==> (#[trigger] old(self)@.macrotasks[j]).id != id)
                ==> final(self)@ == old(self)@,
            forall|i: int| is_first_with_id(old(self)@.macrotasks, id, i) ==> final(self)@ == (EventLoopModel {
                macrotasks: old(self)@.macrotasks.update(i, MacrotaskModel { cancelled: true, ..old(self)@.macrotasks[i] }),
                ..old(self)@
            }),
    {
        let mut i: usize = 0;
        while i < self.macrotask_queue.len()
            invariant
                i <= self.macrotask_queue.len(),
                self@ == old(self)@,
                old(self).wf(),
                forall|j: int| 0 <= j < i ==> (#[trigger] old(self)@.macrotasks[j]).id != id,
            decreases self.macrotask_queue.len() - i,
        {
            if self.macrotask_queue[i].id == id {
                self.macrotask_queue[i].cancelled = true;
                assert(self@.macrotasks =~= old(self)@.macrotasks.update(i as int, MacrotaskModel { cancelled: true, ..old(self)@.macrotasks[i as int] }));
                assert(self@ == (EventLoopModel { macrotasks: self@.macrotasks, ..old(self)@ }));
                return;
            }
            i = i + 1;
        }
    }

    /// Whether any timer is still live (not cancelled).
    pub fn has_pending_macrotasks(&self) -> (r: bool)
        ensures
            r == any_live(self@.macrotasks),
    {
        let mut i: usize = 0;
        while i < self.macrotask_queue.len()
            invariant
                i <= self.macrotask_queue.len(),
                forall|j: int| 0 <= j < i ==> (#[trigger] self@.macrotasks[j]).cancelled,
            decreases self.macrotask_queue.len() - i,
        {
            if !self.macrotask_queue[i].cancelled {
                assert(!self@.macrotasks[i as int].cancelled);
                return true;
            }
            i = i + 1;
        }
        false
    }

    /// Whether a microtask is queued or a timer is live.
    pub fn has_pending_work(&self) -> (r: bool)
        ensures
            r == (self@.microtasks.len() > 0 || any_live(self@.macrotasks)),
    {
        self.has_pending_microtasks() || self.has_pending_macrotasks()
    }

    /// Whether a live timer is due at the current time.
    fn get_next_ready_macrotask_peek(&self) -> (r: bool)
        ensures
            r == any_ready(self@.macrotasks, self@.time),
    {
        let mut i: usize = 0;
        while i < self.macrotask_queue.len()
            invariant
                i <= self.macrotask_queue.len(),
                forall|j: int| 0 <= j < i ==> !is_ready(#[trigger] self@.macrotasks[j], self@.time),
            decreases self.macrotask_queue.len() - i,
        {
            if !self.macrotask_queue[i].cancelled && self.macrotask_queue[i].fire_at <= self.virtual_time {
                assert(is_ready(self@.macrotasks[i as int], self@.time));
                return true;
            }
            i = i + 1;
        }
        false
    }

    /// Index of the first due task with the earliest firing time.
    fn find_next_ready(&self) -> (r: Option<usize>)
        ensures
            r is None <==> !any_ready(self@.macrotasks, self@.time),
            r matches Some(i) ==> is_next_ready(self@.macrotasks, self@.time, i as int),
    {
        let ghost q = self@.macrotasks;
        let ghost now = self@.time;
        let mut best: Option<usize> = None;
        let mut i: usize = 0;
        while i < self.macrotask_queue.len()
            invariant
                i <= self.macrotask_queue.len(),
                q == self@.macrotasks,
                now == self@.time,
                best is None ==> forall|j: int| 0 <= j < i ==> !is_ready(#[trigger] q[j], now),
                best matches Some(b) ==> {
                    &&& b < i
                    &&& is_ready(q[b as int], now)
                    &&& forall|j: int| 0 <= j < i && is_ready(#[trigger] q[j], now) ==> q[b as int].fire_at <= q[j].fire_at
                    &&& forall|j: int| 0 <= j < b && is_ready(#[trigger] q[j], now) ==> q[b as int].fire_at < q[j].fire_at
                },
            decreases self.macrotask_queue.len() - i,
        {
            let t = &self.macrotask_queue[i];
            if !t.cancelled && t.fire_at <= self.virtual_time {
                match best {
                    None => {
                        best = Some(i);
                    },
                    Some(b) => {
                        if t.fire_at < self.macrotask_queue[b].fire_at {
                            best = Some(i);
                        }
                    },
                }
            }
            i = i + 1;
        }
        best
    }

    /// Remove and return the first due timer with the earliest firing time;
    /// a repeating timer is put back at the end, firing `delay` ms from now.
    pub fn get_next_ready_macrotask(&mut self) -> (r: Option<Macrotask>)
        requires
            old(self).wf(),
            reschedule_fits(old(self)@.macrotasks, old(self)@.time),
        ensures
            final(self).wf(),
            r is None <==> !any_ready(old(self)@.macrotasks, old(self)@.time),
            r is None ==> final(self)@ == old(self)@,
            r matches Some(t) ==> exists|i: int| #[trigger] is_next_ready(old(self)@.macrotasks, old(self)@.time, i)
                && t.model() == old(self)@.macrotasks[i]
                && final(self)@ == (EventLoopModel {
                    macrotasks: after_firing(old(self)@.macrotasks, old(self)@.time, i),
                    ..old(self)@
                }),
    {
        match self.find_next_ready() {
            None => None,
            Some(idx) => {
                let ghost q = self@.macrotasks;
                let task = self.macrotask_queue.remove(idx);
                assert(self@.macrotasks =~= q.remove(idx as int));
                if task.repeating {
                    let fire_at = self.virtual_time + task.delay;
                    let again = Macrotask {
                        id: task.id,
                        callback: task.callback.duplicate(),
                        args: duplicate_values(&task.args),
                        fire_at,
                        delay: task.delay,
                        repeating: true,
                        cancelled: false,
                    };
                    let ghost m = again.model();
                    self.macrotask_queue.push(again);
                    assert(self@.macrotasks =~= q.remove(idx as int).push(m));
                    assert(m == MacrotaskModel { fire_at: (old(self)@.time + q[idx as int].delay) as u64, cancelled: false, repeating: true, ..q[idx as int] });
                }
                assert(is_next_ready(q, old(self)@.time, idx as int));
                assert(self@ == (EventLoopModel { macrotasks: self@.macrotasks, ..old(self)@ }));
                Some(task)
            },
        }
    }

    /// The earliest firing time of a live timer.
    pub fn next_macrotask_time(&self) -> (r: Option<u64>)
        ensures
            r is None <==> !any_live(self@.macrotasks),
            r matches Some(t) ==> is_earliest_time(self@.macrotasks, t),
    {
        let ghost q = self@.macrotasks;
        let mut best: Option<u64> = None;
        let mut i: usize = 0;
        while i < self.macrotask_queue.len()
            invariant
                i <= self.macrotask_queue.len(),
                q == self@.macrotasks,
                best is None ==> forall|j: int| 0 <= j < i ==> (#[trigger] q[j]).cancelled,
                best matches Some(b) ==> {
                    &&& exists|k: int| 0 <= k < i && !(#[trigger] q[k]).cancelled && q[k].fire_at == b
                    &&& forall|j: int| 0 <= j < i && !(#[trigger] q[j]).cancelled ==> b <= q[j].fire_at
                },
            decreases self.macrotask_queue.len() - i,
        {
            let t = &self.macrotask_queue[i];
            if !t.cancelled {
                match best {
                    None => {
                        best = Some(t.fire_at);
                    },
                    Some(b) => {
                        if t.fire_at < b {
                            best = Some(t.fire_at);
                        }
                    },
                }
                assert(!q[i as int].cancelled);
            }
            i = i + 1;
        }
        best
    }

    /// Jump virtual time to the earliest live timer and fire it.
    pub fn advance_to_next_macrotask(&mut self) -> (r: Option<Macrotask>)
        requires
            old(self).wf(),
            forall|t: u64| is_earliest_time(old(self)@.macrotasks, t) ==> reschedule_fits(old(self)@.macrotasks, t),
        ensures
            final(self).wf(),
            r is None <==> !any_live(old(self)@.macrotasks),
            r is None ==> final(self)@ == old(self)@,
            r matches Some(task) ==> exists|t: u64, i: int| is_earliest_time(old(self)@.macrotasks, t)
                && #[trigger] is_next_ready(old(self)@.macrotasks, t, i)
                && task.model() == old(self)@.macrotasks[i]
                && final(self)@ == (EventLoopModel {
                    time: t,
                    macrotasks: after_firing(old(self)@.macrotasks, t, i),
                    ..old(self)@
                }),
    {
        match self.next_macrotask_time() {
            Some(fire_at) => {
                self.virtual_time = fire_at;
                let ghost q = self@.macrotasks;
                assert(self@ == (EventLoopModel { time: fire_at, ..old(self)@ }));
                assert(any_ready(q, fire_at)) by {
                    let k = choose|k: int| 0 <= k < q.len() && !(#[trigger] q[k]).cancelled && q[k].fire_at == fire_at;
                    assert(is_ready(q[k], fire_at));
                }
                let r = self.get_next_ready_macrotask();
                r
            },
            None => None,
        }
    }
}

// ───────────────────────────── Promises ─────────────────────────────

pub open spec fn has_reject_handler(rs: Seq<ReactionModel>) -> bool {
    exists|j: int| 0 <= j < rs.len() && (#[trigger] rs[j]).reaction_type == PromiseReactionType::Reject && rs[j].handler is Some
}

pub open spec fn settled_state(kind: PromiseReactionType) -> PromiseInternalState {
    match kind {
        PromiseReactionType::Fulfill => PromiseInternalState::Fulfilled,
        PromiseReactionType::Reject => PromiseInternalState::Rejected,
    }
}

/// Settling promise `p` with `v`: nothing when `p` is no longer pending;
/// otherwise record the result, count the settlement, note an unhandled
/// rejection, and run the reactions of the matching kind in order.
/// `bound` is the size of the promise table, which settling never changes.
pub open spec fn settle_model(s: EventLoopModel, p: int, v: ValueModel, kind: PromiseReactionType, bound: int) -> EventLoopModel
    decreases bound - p, 2int, 0int,
{
    if 0 <= p < bound && p < s.promises.len() && s.promises[p].state == PromiseInternalState::Pending {
        let old_p = s.promises[p];
        let s1 = EventLoopModel {
            promises: s.promises.update(p, PromiseModel {
                state: settled_state(kind),
                result: Some(v),
                reactions: Seq::empty(),
                handled: old_p.handled,
            }),
            stats: EventLoopStats { total_promises_settled: (s.stats.total_promises_settled + 1) as u64, ..s.stats },
            unhandled: if kind == PromiseReactionType::Reject && !old_p.handled && !has_reject_handler(old_p.reactions) {
                s.unhandled.push((p, v))
            } else {
                s.unhandled
            },
            ..s
        };
        react_all(s1, old_p.reactions, 0, v, kind, p, bound)
    } else {
        s
    }
}

/// Running reactions `rs[i..]` of a promise `src` settled with `v`.
pub open spec fn react_all(
    s: EventLoopModel,
    rs: Seq<ReactionModel>,
    i: int,
    v: ValueModel,
    kind: PromiseReactionType,
    src: int,
    bound: int,
) -> EventLoopModel
    decreases bound - src, 1int, rs.len() - i,
{
    if 0 <= i < rs.len() {
        react_all(react_one(s, rs[i], v, kind, src, bound), rs, i + 1, v, kind, src, bound)
    } else {
        s
    }
}

/// Running one reaction: a handler becomes a microtask; without one the
/// value passes through to the reaction's promise.
pub open spec fn react_one(
    s: EventLoopModel,
    r: ReactionModel,
    v: ValueModel,
    kind: PromiseReactionType,
    src: int,
    bound: int,
) -> EventLoopModel
    decreases bound - src, 0int, 0int,
{
    if r.reaction_type != kind {
        s
    } else {
        match r.handler {
            Some(h) => EventLoopModel {
                microtasks: s.microtasks.push(MicrotaskModel {
                    callback: h,
                    args: seq![v],
                    settle_promise: Some(r.promise),
                    is_fulfill: kind == PromiseReactionType::Fulfill,
                }),
                ..s
            },
            None => if src < r.promise < bound {
                match r.combinator {
                    None => settle_model(s, r.promise, v, kind, bound),
                    Some((k, ps)) => match combinator_outcome(s, k, ps) {
                        Some(o) => settle_model(s, r.promise, o.0, o.1, bound),
                        None => s,
                    },
                }
            } else {
                s
            },
        }
    }
}

/// The model after a new pending promise is added.
pub open spec fn create_model(s: EventLoopModel) -> EventLoopModel {
    EventLoopModel {
        promises: s.promises.push(fresh_promise()),
        pending_promises: s.pending_promises.push(s.promises.len() as int),
        stats: EventLoopStats { total_promises_created: (s.stats.total_promises_created + 1) as u64, ..s.stats },
        ..s
    }
}

pub proof fn lemma_models_of_single(v: JsValue)
    ensures
        models_of(seq![v]) == seq![v@],
{
    crate::value::lemma_models_of_push(Seq::empty(), v);
    assert(Seq::<JsValue>::empty().push(v) =~= seq![v]);
    assert(crate::value::models_of(Seq::<JsValue>::empty()) =~= Seq::empty());
    assert(Seq::<ValueModel>::empty().push(v@) =~= seq![v@]);
}

impl EventLoop {
    /// Create a new pending promise.
    pub fn create_promise(&mut self) -> (r: PromiseHandle)
        requires
            old(self).wf(),
            old(self)@.promises.len() < usize::MAX,
        ensures
            final(self).wf(),
            r.index == old(self)@.promises.len(),
            final(self)@ == create_model(old(self)@),
    {
        let h = PromiseHandle { index: self.promises.len() };
        let p = PromiseInternal { state: PromiseInternalState::Pending, result: None, reactions: Vec::new(), handled: false };
        assert(p.model() == fresh_promise()) by {
            assert(reaction_models(p.reactions@) =~= Seq::empty());
        }
        self.promises.push(p);
        self.pending_promises.push(h);
        self.stats.total_promises_created = self.stats.total_promises_created + 1;
        proof {
            lemma_count_settled_push(old(self)@.promises, fresh_promise());
            assert(self@.promises =~= old(self)@.promises.push(fresh_promise()));
            assert(self@.pending_promises =~= old(self)@.pending_promises.push(h.index as int));
            assert(self@ == create_model(old(self)@));
        }
        h
    }

    /// The promise behind `h`.
    pub fn promise(&self, h: PromiseHandle) -> (r: &PromiseInternal)
        requires
            self.valid_handle(h),
        ensures
            r.model() == self@.promises[h.index as int],
    {
        &self.promises[h.index]
    }

    /// The state of the promise behind `h`.
    pub fn promise_state(&self, h: PromiseHandle) -> (r: PromiseInternalState)
        requires
            self.valid_handle(h),
        ensures
            r == self@.promises[h.index as int].state,
    {
        self.promises[h.index].state
    }

    fn has_reject_handlers(reactions: &Vec<PromiseReaction>) -> (r: bool)
        ensures
            r == has_reject_handler(reaction_models(reactions@)),
    {
        let ghost rs = reaction_models(reactions@);
        let mut i: usize = 0;
        while i < reactions.len()
            invariant
                i <= reactions.len(),
                rs == reaction_models(reactions@),
                forall|j: int| 0 <= j < i ==> !((#[trigger] rs[j]).reaction_type == PromiseReactionType::Reject && rs[j].handler is Some),
            decreases reactions.len() - i,
        {
            if reactions[i].reaction_type == PromiseReactionType::Reject && reactions[i].handler.is_some() {
                assert(rs[i as int].reaction_type == PromiseReactionType::Reject && rs[i as int].handler is Some);
                return true;
            }
            i = i + 1;
        }
        false
    }

    fn duplicate_reaction(r: &PromiseReaction) -> (d: PromiseReaction)
        ensures
            d.model() == r.model(),
    {
        let handler = match &r.handler {
            Some(h) => Some(h.duplicate()),
            None => None,
        };
        let combinator = match &r.combinator {
            Some((k, ps)) => Some((*k, copy_handles(ps))),
            None => None,
        };
        PromiseReaction { handler, promise: r.promise, reaction_type: r.reaction_type, combinator }
    }

    fn settle_promise(&mut self, promise: PromiseHandle, value: JsValue, kind: PromiseReactionType, Ghost(bound): Ghost<int>)
        requires
            old(self).wf(),
            old(self).valid_handle(promise),
            bound == old(self)@.promises.len(),
        ensures
            final(self).wf(),
            final(self)@.promises.len() == old(self)@.promises.len(),
            final(self)@ == settle_model(old(self)@, promise.index as int, value@, kind, bound),
        decreases bound - promise.index, 2int, 0int,
    {
        let i = promise.index;
        if self.promises[i].state != PromiseInternalState::Pending {
            return;
        }
        let n = self.promises.len();
        let ghost s0 = self@;
        let ghost old_p = s0.promises[i as int];
        let mut reactions: Vec<PromiseReaction> = Vec::new();
        std::mem::swap(&mut reactions, &mut self.promises[i].reactions);
        self.promises[i].state = match kind {
            PromiseReactionType::Fulfill => PromiseInternalState::Fulfilled,
            PromiseReactionType::Reject => PromiseInternalState::Rejected,
        };
        self.promises[i].result = Some(value.duplicate());
        let ghost new_p = PromiseModel { state: settled_state(kind), result: Some(value@), reactions: Seq::empty(), handled: old_p.handled };
        proof {
            assert(reaction_models(Seq::<PromiseReaction>::empty()) =~= Seq::empty());
            assert(self@.promises =~= s0.promises.update(i as int, new_p));
            lemma_count_settled_update(s0.promises, i as int, new_p);
            assert(s0.stats.total_promises_settled < n);
        }
        self.stats.total_promises_settled = self.stats.total_promises_settled + 1;
        if kind == PromiseReactionType::Reject {
            let handled = self.promises[i].handled;
            if !handled && !Self::has_reject_handlers(&reactions) {
                let ghost e = (i as int, value@);
                self.unhandled_rejections.push((promise, value.duplicate()));
                assert(self@.unhandled =~= s0.unhandled.push(e));
            }
        }
        let ghost rs = reaction_models(reactions@);
        let ghost target = settle_model(s0, i as int, value@, kind, bound);
        assert(rs == old_p.reactions);
        assert(forall|j: int| 0 <= j < rs.len() ==> i < (#[trigger] rs[j]).promise < bound) by {
            assert forall|j: int| 0 <= j < rs.len() implies i < (#[trigger] rs[j]).promise < bound by {
                assert(i < s0.promises[i as int].reactions[j].promise < bound);
            }
        }
        assert(react_all(self@, rs, 0, value@, kind, i as int, bound) == target);
        let mut k: usize = 0;
        while k < reactions.len()
            invariant
                k <= reactions.len(),
                self.wf(),
                self@.promises.len() == bound,
                rs == reaction_models(reactions@),
                i == promise.index,
                i < bound,
                forall|j: int| 0 <= j < rs.len() ==> i < (#[trigger] rs[j]).promise < bound,
                react_all(self@, rs, k as int, value@, kind, i as int, bound) == target,
            decreases reactions.len() - k,
        {
            let ghost before = self@;
            if reactions[k].reaction_type == kind {
                let r = Self::duplicate_reaction(&reactions[k]);
                assert(rs[k as int].promise == r.promise.index);
                self.enqueue_promise_reaction(r, value.duplicate(), Ghost(i as int), Ghost(bound));
            }
            assert(self@ == react_one(before, rs[k as int], value@, kind, i as int, bound));
            k = k + 1;
        }
    }

    fn enqueue_promise_reaction(&mut self, reaction: PromiseReaction, value: JsValue, Ghost(src): Ghost<int>, Ghost(bound): Ghost<int>)
        requires
            old(self).wf(),
            bound == old(self)@.promises.len(),
            0 <= src < reaction.promise.index < bound,
        ensures
            final(self).wf(),
            final(self)@.promises.len() == old(self)@.promises.len(),
            final(self)@ == react_one(old(self)@, reaction.model(), value@, reaction.reaction_type, src, bound),
        decreases bound - src, 0int, 0int,
    {
        let kind = reaction.reaction_type;
        match reaction.handler {
            Some(handler) => {
                let args = vec![value];
                proof {
                    lemma_models_of_single(value);
                    assert(args@ =~= seq![value]);
                }
                self.enqueue_microtask(Microtask {
                    callback: handler,
                    args,
                    settle_promise: Some(reaction.promise),
                    is_fulfill: kind == PromiseReactionType::Fulfill,
                });
            },
            None => match reaction.combinator {
                None => {
                    self.settle_promise(reaction.promise, value, kind, Ghost(bound));
                },
                Some((k, inputs)) => {
                    match self.combinator_result(k, &inputs) {
                        Some((w, k2)) => {
                            self.settle_promise(reaction.promise, w, k2, Ghost(bound));
                        },
                        None => {},
                    }
                },
            },
        }
    }
}

/// The value a settled promise hands on (`undefined` when it has none).
pub open spec fn value_of(p: PromiseModel) -> ValueModel {
    match p.result {
        Some(v) => v,
        None => ValueModel::Undefined,
    }
}

/// Attaching `then(on_fulfilled, on_rejected)` to promise `p`: a new result
/// promise is created, `p` is marked handled, and either both reactions wait
/// on `p`, or the one matching `p`'s settlement runs at once.
pub open spec fn add_reactions_model(
    s: EventLoopModel,
    p: int,
    on_fulfilled: Option<ValueModel>,
    on_rejected: Option<ValueModel>,
) -> EventLoopModel {
    let q = s.promises.len() as int;
    let s1 = create_model(s);
    let old_p = s.promises[p];
    let rf = ReactionModel { handler: on_fulfilled, promise: q, reaction_type: PromiseReactionType::Fulfill, combinator: None };
    let rr = ReactionModel { handler: on_rejected, promise: q, reaction_type: PromiseReactionType::Reject, combinator: None };
    match old_p.state {
        PromiseInternalState::Pending => EventLoopModel {
            promises: s1.promises.update(p, PromiseModel { handled: true, reactions: old_p.reactions.push(rf).push(rr), ..old_p }),
            ..s1
        },
        PromiseInternalState::Fulfilled => react_one(
            EventLoopModel { promises: s1.promises.update(p, PromiseModel { handled: true, ..old_p }), ..s1 },
            rf,
            value_of(old_p),
            PromiseReactionType::Fulfill,
            p,
            q + 1,
        ),
        PromiseInternalState::Rejected => react_one(
            EventLoopModel { promises: s1.promises.update(p, PromiseModel { handled: true, ..old_p }), ..s1 },
            rr,
            value_of(old_p),
            PromiseReactionType::Reject,
            p,
            q + 1,
        ),
    }
}

impl EventLoop {
    /// Fulfill a promise with `value`; nothing happens once it is settled.
    pub fn fulfill_promise(&mut self, promise: &PromiseHandle, value: JsValue)
        requires
            old(self).wf(),
            old(self).valid_handle(*promise),
        ensures
            final(self).wf(),
            final(self)@ == settle_model(old(self)@, promise.index as int, value@, PromiseReactionType::Fulfill, old(self)@.promises.len() as int),
    {
        self.settle_promise(*promise, value, PromiseReactionType::Fulfill, Ghost(self@.promises.len() as int));
    }

    /// Reject a promise with `reason`; nothing happens once it is settled.
    pub fn reject_promise(&mut self, promise: &PromiseHandle, reason: JsValue)
        requires
            old(self).wf(),
            old(self).valid_handle(*promise),
        ensures
            final(self).wf(),
            final(self)@ == settle_model(old(self)@, promise.index as int, reason@, PromiseReactionType::Reject, old(self)@.promises.len() as int),
    {
        self.settle_promise(*promise, reason, PromiseReactionType::Reject, Ghost(self@.promises.len() as int));
    }

    /// `promise.then(on_fulfilled, on_rejected)`: returns the new result promise.
    pub fn add_promise_reactions(
        &mut self,
        promise: &PromiseHandle,
        on_fulfilled: Option<JsValue>,
        on_rejected: Option<JsValue>,
    ) -> (r: PromiseHandle)
        requires
            old(self).wf(),
            old(self).valid_handle(*promise),
            old(self)@.promises.len() < usize::MAX,
        ensures
            final(self).wf(),
            r.index == old(self)@.promises.len(),
            final(self)@ == add_reactions_model(old(self)@, promise.index as int, opt_model(on_fulfilled), opt_model(on_rejected)),
    {
        let ghost s0 = self@;
        let result_promise = self.create_promise();
        let ghost s1 = self@;
        let p = promise.index;
        let ghost old_p = s0.promises[p as int];
        assert(s1.promises[p as int] == old_p);
        self.promises[p].handled = true;
        proof {
            assert(self@.promises =~= s1.promises.update(p as int, PromiseModel { handled: true, ..old_p }));
            lemma_count_settled_update(s1.promises, p as int, PromiseModel { handled: true, ..old_p });
        }
        let ghost s2 = self@;
        let ghost n = s1.promises.len() as int;
        match self.promises[p].state {
            PromiseInternalState::Pending => {
                let rf = PromiseReaction { handler: on_fulfilled, promise: result_promise, reaction_type: PromiseReactionType::Fulfill, combinator: None };
                let rr = PromiseReaction { handler: on_rejected, promise: result_promise, reaction_type: PromiseReactionType::Reject, combinator: None };
                let ghost (mf, mr) = (rf.model(), rr.model());
                self.promises[p].reactions.push(rf);
                self.promises[p].reactions.push(rr);
                proof {
                    let np = PromiseModel { handled: true, reactions: old_p.reactions.push(mf).push(mr), ..old_p };
                    assert(reaction_models(self.promises@[p as int].reactions@) =~= old_p.reactions.push(mf).push(mr));
                    assert(self@.promises =~= s1.promises.update(p as int, np));
                    lemma_count_settled_update(s1.promises, p as int, np);
                    assert forall|i: int, j: int|
                        0 <= i < n && 0 <= j < self@.promises[i].reactions.len() implies i < #[trigger] self@.promises[i].reactions[j].promise < n by {
                        if i != p {
                            assert(self@.promises[i] == s2.promises[i]);
                        } else if j < old_p.reactions.len() {
                            assert(self@.promises[i].reactions[j] == s2.promises[i].reactions[j]);
                        }
                    }
                }
            },
            PromiseInternalState::Fulfilled => {
                let value = match &self.promises[p].result {
                    Some(v) => v.duplicate(),
                    None => JsValue::Undefined,
                };
                let rf = PromiseReaction { handler: on_fulfilled, promise: result_promise, reaction_type: PromiseReactionType::Fulfill, combinator: None };
                self.enqueue_promise_reaction(rf, value, Ghost(p as int), Ghost(n));
            },
            PromiseInternalState::Rejected => {
                let reason = match &self.promises[p].result {
                    Some(v) => v.duplicate(),
                    None => JsValue::Undefined,
                };
                let rr = PromiseReaction { handler: on_rejected, promise: result_promise, reaction_type: PromiseReactionType::Reject, combinator: None };
                self.enqueue_promise_reaction(rr, reason, Ghost(p as int), Ghost(n));
            },
        }
        result_promise
    }

    /// `Promise.resolve(value)`: a new promise fulfilled with `value`.
    pub fn resolve_promise(&mut self, value: JsValue) -> (r: PromiseHandle)
        requires
            old(self).wf(),
            old(self)@.promises.len() < usize::MAX,
        ensures
            final(self).wf(),
            r.index == old(self)@.promises.len(),
            final(self)@ == settle_model(create_model(old(self)@), r.index as int, value@, PromiseReactionType::Fulfill, r.index + 1),
    {
        let promise = self.create_promise();
        self.fulfill_promise(&promise, value);
        promise
    }

    /// `Promise.reject(reason)`: a new promise rejected with `reason`.
    pub fn reject_promise_new(&mut self, reason: JsValue) -> (r: PromiseHandle)
        requires
            old(self).wf(),
            old(self)@.promises.len() < usize::MAX,
        ensures
            final(self).wf(),
            r.index == old(self)@.promises.len(),
            final(self)@ == settle_model(create_model(old(self)@), r.index as int, reason@, PromiseReactionType::Reject, r.index + 1),
    {
        let promise = self.create_promise();
        self.reject_promise(&promise, reason);
        promise
    }
}

// ───────────────────────────── Promise combinators ─────────────────────────────

/// The state of the `j`-th listed promise; a handle outside the table counts
/// as pending.
pub open spec fn state_of(s: EventLoopModel, ps: Seq<PromiseHandle>, j: int) -> PromiseInternalState {
    if ps[j].index < s.promises.len() {
        s.promises[ps[j].index as int].state
    } else {
        PromiseInternalState::Pending
    }
}

pub open spec fn all_valid(s: EventLoopModel, ps: Seq<PromiseHandle>) -> bool {
    forall|j: int| 0 <= j < ps.len() ==> (#[trigger] ps[j]).index < s.promises.len()
}

/// `i` is the first listed promise in state `st`.
pub open spec fn first_with_state(s: EventLoopModel, ps: Seq<PromiseHandle>, st: PromiseInternalState, i: int) -> bool {
    &&& 0 <= i < ps.len()
    &&& state_of(s, ps, i) == st
    &&& forall|j: int| 0 <= j < i ==> #[trigger] state_of(s, ps, j) != st
}

/// `i` is the first listed promise that has settled.
pub open spec fn first_settled(s: EventLoopModel, ps: Seq<PromiseHandle>, i: int) -> bool {
    &&& 0 <= i < ps.len()
    &&& state_of(s, ps, i) != PromiseInternalState::Pending
    &&& forall|j: int| 0 <= j < i ==> #[trigger] state_of(s, ps, j) == PromiseInternalState::Pending
}

pub open spec fn all_in_state(s: EventLoopModel, ps: Seq<PromiseHandle>, st: PromiseInternalState) -> bool {
    forall|j: int| 0 <= j < ps.len() ==> #[trigger] state_of(s, ps, j) == st
}

pub open spec fn all_settled(s: EventLoopModel, ps: Seq<PromiseHandle>) -> bool {
    forall|j: int| 0 <= j < ps.len() ==> #[trigger] state_of(s, ps, j) != PromiseInternalState::Pending
}

/// The values of the listed promises, in order.
pub open spec fn all_values(s: EventLoopModel, ps: Seq<PromiseHandle>) -> Seq<ValueModel> {
    Seq::new(ps.len(), |j: int| value_of(s.promises[ps[j].index as int]))
}

pub open spec fn kind_of(st: PromiseInternalState) -> PromiseReactionType {
    if st == PromiseInternalState::Fulfilled { PromiseReactionType::Fulfill } else { PromiseReactionType::Reject }
}

/// Settling the fresh result promise of a combinator.
pub open spec fn settle_fresh(s: EventLoopModel, v: ValueModel, kind: PromiseReactionType) -> EventLoopModel {
    let q = s.promises.len() as int;
    settle_model(create_model(s), q, v, kind, q + 1)
}

/// `Promise.all` decides: fulfilled with every value when all are fulfilled,
/// rejected with the reason of the first rejected one, otherwise it waits.
pub open spec fn all_outcome(s: EventLoopModel, ps: Seq<PromiseHandle>) -> Option<(ValueModel, PromiseReactionType)> {
    if ps.len() == 0 {
        Some((ValueModel::Array(Seq::empty()), PromiseReactionType::Fulfill))
    } else if exists|i: int| first_with_state(s, ps, PromiseInternalState::Rejected, i) {
        let i = choose|i: int| first_with_state(s, ps, PromiseInternalState::Rejected, i);
        Some((value_of(s.promises[ps[i].index as int]), PromiseReactionType::Reject))
    } else if all_in_state(s, ps, PromiseInternalState::Fulfilled) {
        Some((ValueModel::Array(all_values(s, ps)), PromiseReactionType::Fulfill))
    } else {
        None
    }
}

/// `Promise.race` decides: like the first listed promise that has settled,
/// otherwise it waits.
pub open spec fn race_outcome(s: EventLoopModel, ps: Seq<PromiseHandle>) -> Option<(ValueModel, PromiseReactionType)> {
    if exists|i: int| first_settled(s, ps, i) {
        let i = choose|i: int| first_settled(s, ps, i);
        Some((value_of(s.promises[ps[i].index as int]), kind_of(state_of(s, ps, i))))
    } else {
        None
    }
}

pub open spec fn aggregate_error_model(errors: Seq<ValueModel>, message: Seq<char>) -> ValueModel {
    ValueModel::Object(seq![
        ("name"@, ValueModel::Str("AggregateError"@)),
        ("message"@, ValueModel::Str(message)),
        ("errors"@, ValueModel::Array(errors)),
    ])
}

/// `Promise.any` decides: fulfilled like the first fulfilled one; rejected
/// with an aggregate error when all are rejected (or none are given);
/// otherwise it waits.
pub open spec fn any_outcome(s: EventLoopModel, ps: Seq<PromiseHandle>) -> Option<(ValueModel, PromiseReactionType)> {
    if ps.len() == 0 {
        Some((ValueModel::Str("All promises were rejected"@), PromiseReactionType::Reject))
    } else if exists|i: int| first_with_state(s, ps, PromiseInternalState::Fulfilled, i) {
        let i = choose|i: int| first_with_state(s, ps, PromiseInternalState::Fulfilled, i);
        Some((value_of(s.promises[ps[i].index as int]), PromiseReactionType::Fulfill))
    } else if all_in_state(s, ps, PromiseInternalState::Rejected) {
        Some((aggregate_error_model(all_values(s, ps), "All promises were rejected"@), PromiseReactionType::Reject))
    } else {
        None
    }
}

pub open spec fn settled_entry(p: PromiseModel) -> ValueModel {
    if p.state == PromiseInternalState::Fulfilled {
        ValueModel::Object(seq![("status"@, ValueModel::Str("fulfilled"@)), ("value"@, value_of(p))])
    } else {
        ValueModel::Object(seq![("status"@, ValueModel::Str("rejected"@)), ("reason"@, value_of(p))])
    }
}

pub open spec fn settled_entries(s: EventLoopModel, ps: Seq<PromiseHandle>) -> Seq<ValueModel> {
    Seq::new(ps.len(), |j: int| settled_entry(s.promises[ps[j].index as int]))
}

/// `Promise.allSettled` decides: fulfilled with one status object per
/// promise once all have settled, otherwise it waits.
pub open spec fn all_settled_outcome(s: EventLoopModel, ps: Seq<PromiseHandle>) -> Option<(ValueModel, PromiseReactionType)> {
    if ps.len() == 0 {
        Some((ValueModel::Array(Seq::empty()), PromiseReactionType::Fulfill))
    } else if all_settled(s, ps) {
        Some((ValueModel::Array(settled_entries(s, ps)), PromiseReactionType::Fulfill))
    } else {
        None
    }
}

/// What a combinator of kind `k` over `ps` decides in state `s`.
pub open spec fn combinator_outcome(s: EventLoopModel, k: CombinatorKind, ps: Seq<PromiseHandle>) -> Option<(ValueModel, PromiseReactionType)> {
    match k {
        CombinatorKind::All => all_outcome(s, ps),
        CombinatorKind::Race => race_outcome(s, ps),
        CombinatorKind::Any => any_outcome(s, ps),
        CombinatorKind::AllSettled => all_settled_outcome(s, ps),
    }
}

/// The two reactions by which result promise `q` of a combinator waits on
/// one of its inputs.
pub open spec fn waiting_reaction(k: CombinatorKind, ps: Seq<PromiseHandle>, q: int, t: PromiseReactionType) -> ReactionModel {
    ReactionModel { handler: None, promise: q, reaction_type: t, combinator: Some((k, ps)) }
}

/// Every pending input from the `i`-th on gets the reactions by which result
/// promise `q` waits on it.
pub open spec fn await_inputs(s: EventLoopModel, ps: Seq<PromiseHandle>, i: int, k: CombinatorKind, q: int) -> EventLoopModel
    decreases ps.len() - i,
{
    if 0 <= i < ps.len() {
        let h = ps[i].index as int;
        let s1 = if h < q && h < s.promises.len() && s.promises[h].state == PromiseInternalState::Pending {
            let p = s.promises[h];
            EventLoopModel {
                promises: s.promises.update(h, PromiseModel {
                    reactions: p.reactions.push(waiting_reaction(k, ps, q, PromiseReactionType::Fulfill)).push(
                        waiting_reaction(k, ps, q, PromiseReactionType::Reject),
                    ),
                    ..p
                }),
                ..s
            }
        } else {
            s
        };
        await_inputs(s1, ps, i + 1, k, q)
    } else {
        s
    }
}

/// A combinator over `ps`: a new result promise, settled at once when the
/// inputs already decide it, and otherwise waiting on each pending input so
/// that it is decided again whenever one of them settles.
pub open spec fn combine_model(s: EventLoopModel, k: CombinatorKind, ps: Seq<PromiseHandle>) -> EventLoopModel {
    match combinator_outcome(s, k, ps) {
        Some(o) => settle_fresh(s, o.0, o.1),
        None => await_inputs(create_model(s), ps, 0, k, s.promises.len() as int),
    }
}

pub open spec fn promise_all_model(s: EventLoopModel, ps: Seq<PromiseHandle>) -> EventLoopModel {
    combine_model(s, CombinatorKind::All, ps)
}

pub open spec fn promise_race_model(s: EventLoopModel, ps: Seq<PromiseHandle>) -> EventLoopModel {
    combine_model(s, CombinatorKind::Race, ps)
}

pub open spec fn promise_any_model(s: EventLoopModel, ps: Seq<PromiseHandle>) -> EventLoopModel {
    combine_model(s, CombinatorKind::Any, ps)
}

pub open spec fn promise_all_settled_model(s: EventLoopModel, ps: Seq<PromiseHandle>) -> EventLoopModel {
    combine_model(s, CombinatorKind::AllSettled, ps)
}

/// An AggregateError object: `{ name, message, errors }`.
pub fn create_aggregate_error(errors: Vec<JsValue>, message: &str) -> (r: JsValue)
    ensures
        r@ == aggregate_error_model(models_of(errors@), message@),
{
    object3(
        String::from_str("name"),
        JsValue::String(String::from_str("AggregateError")),
        String::from_str("message"),
        JsValue::String(String::from_str(message)),
        String::from_str("errors"),
        JsValue::new_array(errors),
    )
}

/// The model of a decided outcome.
pub open spec fn outcome_model(r: Option<(JsValue, PromiseReactionType)>) -> Option<(ValueModel, PromiseReactionType)> {
    match r {
        Some((v, k)) => Some((v@, k)),
        None => None,
    }
}

/// A copy of a list of handles.
fn copy_handles(v: &Vec<PromiseHandle>) -> (r: Vec<PromiseHandle>)
    ensures
        r@ == v@,
{
    let mut r: Vec<PromiseHandle> = Vec::new();
    let mut i: usize = 0;
    while i < v.len()
        invariant
            i <= v.len(),
            r@ == v@.take(i as int),
        decreases v.len() - i,
    {
        r.push(v[i]);
        assert(r@ =~= v@.take(i as int + 1));
        i = i + 1;
    }
    assert(v@.take(i as int) =~= v@);
    r
}

impl EventLoop {
    fn result_value(&self, h: PromiseHandle) -> (r: JsValue)
        requires
            self.valid_handle(h),
        ensures
            r@ == value_of(self@.promises[h.index as int]),
    {
        match &self.promises[h.index].result {
            Some(v) => v.duplicate(),
            None => JsValue::Undefined,
        }
    }

    /// The state of a listed promise; pending for a handle outside the table.
    fn listed_state(&self, list: &Vec<PromiseHandle>, j: usize) -> (r: PromiseInternalState)
        requires
            j < list.len(),
        ensures
            r == state_of(self@, list@, j as int),
    {
        let h = list[j];
        if h.index < self.promises.len() {
            self.promises[h.index].state
        } else {
            PromiseInternalState::Pending
        }
    }

    fn all_result(&self, list: &Vec<PromiseHandle>) -> (r: Option<(JsValue, PromiseReactionType)>)
        ensures
            outcome_model(r) == all_outcome(self@, list@),
    {
        let ghost s0 = self@;
        let ghost ps = list@;
        let count = list.len();
        if count == 0 {
            let empty: Vec<JsValue> = Vec::new();
            assert(models_of(empty@) =~= Seq::empty());
            return Some((JsValue::new_array(empty), PromiseReactionType::Fulfill));
        }
        let mut results: Vec<JsValue> = Vec::new();
        let mut all_fulfilled = true;
        let mut i: usize = 0;
        while i < count
            invariant
                count == ps.len(),
                ps == list@,
                s0 == self@,
                i <= count,
                results.len() == i,
                forall|j: int| 0 <= j < i ==> #[trigger] state_of(s0, ps, j) != PromiseInternalState::Rejected,
                all_fulfilled <==> (forall|j: int| 0 <= j < i ==> #[trigger] state_of(s0, ps, j) == PromiseInternalState::Fulfilled),
                forall|j: int| 0 <= j < i && state_of(s0, ps, j) == PromiseInternalState::Fulfilled
                    ==> (#[trigger] results@[j])@ == value_of(s0.promises[ps[j].index as int]),
            decreases count - i,
        {
            let st = self.listed_state(list, i);
            match st {
                PromiseInternalState::Fulfilled => {
                    let val = self.result_value(list[i]);
                    results.push(val);
                },
                PromiseInternalState::Rejected => {
                    let reason = self.result_value(list[i]);
                    proof {
                        assert(first_with_state(s0, ps, PromiseInternalState::Rejected, i as int));
                        let c = choose|r: int| first_with_state(s0, ps, PromiseInternalState::Rejected, r);
                        assert(c == i as int) by {
                            if c < i as int {
                                assert(state_of(s0, ps, c) != PromiseInternalState::Rejected);
                            } else if c > i as int {
                                assert(state_of(s0, ps, i as int) != PromiseInternalState::Rejected);
                            }
                        }
                    }
                    return Some((reason, PromiseReactionType::Reject));
                },
                PromiseInternalState::Pending => {
                    all_fulfilled = false;
                    results.push(JsValue::Undefined);
                },
            }
            i = i + 1;
        }
        assert(!exists|r: int| first_with_state(s0, ps, PromiseInternalState::Rejected, r));
        if all_fulfilled {
            proof {
                lemma_models_of_index(results@);
                assert(models_of(results@) =~= all_values(s0, ps));
            }
            Some((JsValue::new_array(results), PromiseReactionType::Fulfill))
        } else {
            None
        }
    }

    fn race_result(&self, list: &Vec<PromiseHandle>) -> (r: Option<(JsValue, PromiseReactionType)>)
        ensures
            outcome_model(r) == race_outcome(self@, list@),
    {
        let ghost s0 = self@;
        let ghost ps = list@;
        let mut i: usize = 0;
        while i < list.len()
            invariant
                ps == list@,
                s0 == self@,
                i <= ps.len(),
                forall|j: int| 0 <= j < i ==> #[trigger] state_of(s0, ps, j) == PromiseInternalState::Pending,
            decreases ps.len() - i,
        {
            let st = self.listed_state(list, i);
            if st != PromiseInternalState::Pending {
                let val = self.result_value(list[i]);
                proof {
                    assert(first_settled(s0, ps, i as int));
                    let c = choose|r: int| first_settled(s0, ps, r);
                    assert(c == i as int) by {
                        if c < i as int {
                            assert(state_of(s0, ps, c) == PromiseInternalState::Pending);
                        } else if c > i as int {
                            assert(state_of(s0, ps, i as int) == PromiseInternalState::Pending);
                        }
                    }
                }
                if st == PromiseInternalState::Fulfilled {
                    return Some((val, PromiseReactionType::Fulfill));
                } else {
                    return Some((val, PromiseReactionType::Reject));
                }
            }
            i = i + 1;
        }
        assert(!exists|r: int| first_settled(s0, ps, r));
        None
    }

    fn all_settled_result(&self, list: &Vec<PromiseHandle>) -> (r: Option<(JsValue, PromiseReactionType)>)
        ensures
            outcome_model(r) == all_settled_outcome(self@, list@),
    {
        let ghost s0 = self@;
        let ghost ps = list@;
        let count = list.len();
        if count == 0 {
            let empty: Vec<JsValue> = Vec::new();
            assert(models_of(empty@) =~= Seq::empty());
            return Some((JsValue::new_array(empty), PromiseReactionType::Fulfill));
        }
        let mut settled_results: Vec<JsValue> = Vec::new();
        let mut all_done = true;
        let mut i: usize = 0;
        while i < count
            invariant
                count == ps.len(),
                ps == list@,
                s0 == self@,
                i <= count,
                settled_results.len() == i,
                all_done <==> (forall|j: int| 0 <= j < i ==> #[trigger] state_of(s0, ps, j) != PromiseInternalState::Pending),
                forall|j: int| 0 <= j < i && state_of(s0, ps, j) != PromiseInternalState::Pending
                    ==> (#[trigger] settled_results@[j])@ == settled_entry(s0.promises[ps[j].index as int]),
            decreases count - i,
        {
            let st = self.listed_state(list, i);
            match st {
                PromiseInternalState::Fulfilled => {
                    let val = self.result_value(list[i]);
                    let entry = object2(
                        String::from_str("status"),
                        JsValue::String(String::from_str("fulfilled")),
                        String::from_str("value"),
                        val,
                    );
                    settled_results.push(entry);
                },
                PromiseInternalState::Rejected => {
                    let reason = self.result_value(list[i]);
                    let entry = object2(
                        String::from_str("status"),
                        JsValue::String(String::from_str("rejected")),
                        String::from_str("reason"),
                        reason,
                    );
                    settled_results.push(entry);
                },
                PromiseInternalState::Pending => {
                    all_done = false;
                    settled_results.push(JsValue::Undefined);
                },
            }
            i = i + 1;
        }
        if all_done {
            proof {
                lemma_models_of_index(settled_results@);
                assert(models_of(settled_results@) =~= settled_entries(s0, ps));
            }
            Some((JsValue::new_array(settled_results), PromiseReactionType::Fulfill))
        } else {
            None
        }
    }

    fn any_result(&self, list: &Vec<PromiseHandle>) -> (r: Option<(JsValue, PromiseReactionType)>)
        ensures
            outcome_model(r) == any_outcome(self@, list@),
    {
        let ghost s0 = self@;
        let ghost ps = list@;
        let count = list.len();
        if count == 0 {
            return Some((JsValue::String(String::from_str("All promises were rejected")), PromiseReactionType::Reject));
        }
        let mut errors: Vec<JsValue> = Vec::new();
        let mut all_rejected = true;
        let mut i: usize = 0;
        while i < count
            invariant
                count == ps.len(),
                ps == list@,
                s0 == self@,
                i <= count,
                errors.len() == i,
                forall|j: int| 0 <= j < i ==> #[trigger] state_of(s0, ps, j) != PromiseInternalState::Fulfilled,
                all_rejected <==> (forall|j: int| 0 <= j < i ==> #[trigger] state_of(s0, ps, j) == PromiseInternalState::Rejected),
                forall|j: int| 0 <= j < i && state_of(s0, ps, j) == PromiseInternalState::Rejected
                    ==> (#[trigger] errors@[j])@ == value_of(s0.promises[ps[j].index as int]),
            decreases count - i,
        {
            let st = self.listed_state(list, i);
            match st {
                PromiseInternalState::Fulfilled => {
                    let val = self.result_value(list[i]);
                    proof {
                        assert(first_with_state(s0, ps, PromiseInternalState::Fulfilled, i as int));
                        let c = choose|r: int| first_with_state(s0, ps, PromiseInternalState::Fulfilled, r);
                        assert(c == i as int) by {
                            if c < i as int {
                                assert(state_of(s0, ps, c) != PromiseInternalState::Fulfilled);
                            } else if c > i as int {
                                assert(state_of(s0, ps, i as int) != PromiseInternalState::Fulfilled);
                            }
                        }
                    }
                    return Some((val, PromiseReactionType::Fulfill));
                },
                PromiseInternalState::Rejected => {
                    let reason = self.result_value(list[i]);
                    errors.push(reason);
                },
                PromiseInternalState::Pending => {
                    all_rejected = false;
                    errors.push(JsValue::Undefined);
                },
            }
            i = i + 1;
        }
        assert(!exists|r: int| first_with_state(s0, ps, PromiseInternalState::Fulfilled, r));
        if all_rejected {
            proof {
                lemma_models_of_index(errors@);
                assert(models_of(errors@) =~= all_values(s0, ps));
            }
            Some((create_aggregate_error(errors, "All promises were rejected"), PromiseReactionType::Reject))
        } else {
            None
        }
    }

    /// What a combinator of kind `k` over `list` decides now.
    fn combinator_result(&self, k: CombinatorKind, list: &Vec<PromiseHandle>) -> (r: Option<(JsValue, PromiseReactionType)>)
        ensures
            outcome_model(r) == combinator_outcome(self@, k, list@),
    {
        match k {
            CombinatorKind::All => self.all_result(list),
            CombinatorKind::Race => self.race_result(list),
            CombinatorKind::Any => self.any_result(list),
            CombinatorKind::AllSettled => self.all_settled_result(list),
        }
    }

    /// Let result promise `result` wait on every pending listed promise.
    fn await_listed(&mut self, k: CombinatorKind, list: &Vec<PromiseHandle>, result: PromiseHandle)
        requires
            old(self).wf(),
            result.index < old(self)@.promises.len(),
        ensures
            final(self).wf(),
            final(self)@ == await_inputs(old(self)@, list@, 0, k, result.index as int),
    {
        let ghost ps = list@;
        let ghost q = result.index as int;
        let ghost target = await_inputs(self@, ps, 0, k, q);
        let mut i: usize = 0;
        while i < list.len()
            invariant
                ps == list@,
                q == result.index,
                q < self@.promises.len(),
                i <= ps.len(),
                self.wf(),
                await_inputs(self@, ps, i as int, k, q) == target,
            decreases ps.len() - i,
        {
            let h = list[i].index;
            if h < result.index && h < self.promises.len() && self.promises[h].state == PromiseInternalState::Pending {
                let ghost s0 = self@;
                let ghost p = s0.promises[h as int];
                let mut reactions: Vec<PromiseReaction> = Vec::new();
                std::mem::swap(&mut reactions, &mut self.promises[h].reactions);
                reactions.push(PromiseReaction {
                    handler: None,
                    promise: result,
                    reaction_type: PromiseReactionType::Fulfill,
                    combinator: Some((k, copy_handles(list))),
                });
                reactions.push(PromiseReaction {
                    handler: None,
                    promise: result,
                    reaction_type: PromiseReactionType::Reject,
                    combinator: Some((k, copy_handles(list))),
                });
                std::mem::swap(&mut reactions, &mut self.promises[h].reactions);
                proof {
                    let np = PromiseModel {
                        reactions: p.reactions.push(waiting_reaction(k, ps, q, PromiseReactionType::Fulfill)).push(
                            waiting_reaction(k, ps, q, PromiseReactionType::Reject),
                        ),
                        ..p
                    };
                    assert(reaction_models(self.promises@[h as int].reactions@) =~= np.reactions);
                    assert(self@.promises =~= s0.promises.update(h as int, np));
                    lemma_count_settled_update(s0.promises, h as int, np);
                    assert(self@ == EventLoopModel { promises: s0.promises.update(h as int, np), ..s0 });
                }
            }
            i = i + 1;
        }
    }

    /// A combinator of kind `k` over `list`: its result promise is settled
    /// now when the inputs decide it, and otherwise waits on them.
    fn combine(&mut self, k: CombinatorKind, list: Vec<PromiseHandle>) -> (r: PromiseHandle)
        requires
            old(self).wf(),
            all_valid(old(self)@, list@),
            old(self)@.promises.len() < usize::MAX,
        ensures
            final(self).wf(),
            r.index == old(self)@.promises.len(),
            final(self)@ == combine_model(old(self)@, k, list@),
    {
        let out = self.combinator_result(k, &list);
        let result = self.create_promise();
        match out {
            Some((v, kind)) => {
                let ghost bound = self@.promises.len() as int;
                self.settle_promise(result, v, kind, Ghost(bound));
            },
            None => {
                self.await_listed(k, &list, result);
            },
        }
        result
    }

    /// `Promise.all`.
    pub fn promise_all(&mut self, list: Vec<PromiseHandle>) -> (r: PromiseHandle)
        requires
            old(self).wf(),
            all_valid(old(self)@, list@),
            old(self)@.promises.len() < usize::MAX,
        ensures
            final(self).wf(),
            r.index == old(self)@.promises.len(),
            final(self)@ == promise_all_model(old(self)@, list@),
    {
        self.combine(CombinatorKind::All, list)
    }

    /// `Promise.race`.
    pub fn promise_race(&mut self, list: Vec<PromiseHandle>) -> (r: PromiseHandle)
        requires
            old(self).wf(),
            all_valid(old(self)@, list@),
            old(self)@.promises.len() < usize::MAX,
        ensures
            final(self).wf(),
            r.index == old(self)@.promises.len(),
            final(self)@ == promise_race_model(old(self)@, list@),
    {
        self.combine(CombinatorKind::Race, list)
    }

    /// `Promise.allSettled`.
    pub fn promise_all_settled(&mut self, list: Vec<PromiseHandle>) -> (r: PromiseHandle)
        requires
            old(self).wf(),
            all_valid(old(self)@, list@),
            old(self)@.promises.len() < usize::MAX,
        ensures
            final(self).wf(),
            r.index == old(self)@.promises.len(),
            final(self)@ == promise_all_settled_model(old(self)@, list@),
    {
        self.combine(CombinatorKind::AllSettled, list)
    }

    /// `Promise.any`.
    pub fn promise_any(&mut self, list: Vec<PromiseHandle>) -> (r: PromiseHandle)
        requires
            old(self).wf(),
            all_valid(old(self)@, list@),
            old(self)@.promises.len() < usize::MAX,
        ensures
            final(self).wf(),
            r.index == old(self)@.promises.len(),
            final(self)@ == promise_any_model(old(self)@, list@),
    {
        self.combine(CombinatorKind::Any, list)
    }
}

// ───────────────────────────── Draining and running ─────────────────────────────

/// Microtasks taken by one drain: the whole queue up to the budget, and at
/// least one when the queue is not empty.
pub open spec fn drain_count(len: nat, budget: usize) -> nat {
    if len == 0 {
        0
    } else if budget == 0 {
        1
    } else if len < budget {
        len
    } else {
        budget as nat
    }
}

pub open spec fn drained_models(s: Seq<(JsValue, Vec<JsValue>)>) -> Seq<(ValueModel, Seq<ValueModel>)> {
    s.map_values(|e: (JsValue, Vec<JsValue>)| (e.0@, models_of(e.1@)))
}

pub open spec fn callback_models(s: Seq<MicrotaskModel>) -> Seq<(ValueModel, Seq<ValueModel>)> {
    s.map_values(|m: MicrotaskModel| (m.callback, m.args))
}

pub open spec fn max_u64(a: u64, b: u64) -> u64 {
    if a >= b { a } else { b }
}

/// The model after one drain.
pub open spec fn drain_model(s: EventLoopModel) -> EventLoopModel {
    let k = drain_count(s.microtasks.len(), s.budget);
    EventLoopModel {
        microtasks: s.microtasks.skip(k as int),
        stats: EventLoopStats {
            total_microtasks: (s.stats.total_microtasks + k) as u64,
            max_microtasks_per_tick: max_u64(s.stats.max_microtasks_per_tick, k as u64),
            ..s.stats
        },
        ..s
    }
}

impl EventLoop {
    /// Take microtasks from the front of the queue up to the budget; returns
    /// their (callback, arguments) pairs and how many stay queued.
    pub fn drain_microtasks(&mut self) -> (r: (Vec<(JsValue, Vec<JsValue>)>, usize))
        requires
            old(self).wf(),
            old(self)@.stats.total_microtasks + drain_count(old(self)@.microtasks.len(), old(self)@.budget) <= u64::MAX,
        ensures
            final(self).wf(),
            drained_models(r.0@) == callback_models(old(self)@.microtasks.take(drain_count(old(self)@.microtasks.len(), old(self)@.budget) as int)),
            r.1 == old(self)@.microtasks.len() - drain_count(old(self)@.microtasks.len(), old(self)@.budget),
            final(self)@ == drain_model(old(self)@),
    {
        let ghost q = self@.microtasks;
        let ghost k = drain_count(q.len(), self@.budget);
        self.draining_microtasks = true;
        let mut drained: Vec<(JsValue, Vec<JsValue>)> = Vec::new();
        let mut count: usize = 0;
        assert(q.skip(0) =~= q);
        assert(q.take(0) =~= Seq::empty());
        assert(drained_models(drained@) =~= Seq::empty());
        while self.microtask_queue.len() > 0
            invariant_except_break
                old(self)@.budget > 0 ==> count < old(self)@.budget,
                old(self)@.budget == 0 ==> count == 0,
            invariant
                count <= q.len(),
                q == old(self)@.microtasks,
                k == drain_count(q.len(), old(self)@.budget),
                self@ == (EventLoopModel { microtasks: q.skip(count as int), ..old(self)@ }),
                old(self).wf(),
                count <= k,
                self@.microtasks.len() == self.microtask_queue@.len(),
                drained_models(drained@) == callback_models(q.take(count as int)),
            ensures
                count == k,
            decreases self.microtask_queue.len(),
        {
            assert(self@.microtasks.len() == self.microtask_queue@.len());
            let ghost dq = self.microtask_queue@;
            assert(microtask_models(dq)[0] == dq[0].model());
            let task = self.microtask_queue.pop_front().unwrap();
            let ghost e = (task.callback@, models_of(task.args@));
            let ghost d0 = drained@;
            proof {
                assert(task.model() == q[count as int]);
                assert(microtask_models(self.microtask_queue@) =~= microtask_models(dq).drop_first());
            }
            drained.push((task.callback, task.args));
            count = count + 1;
            proof {
                assert(drained@ == d0.push(drained@.last()));
                assert(drained_models(drained@) =~= drained_models(d0).push(e));
                assert(q.take(count as int) =~= q.take(count - 1).push(q[count - 1]));
                assert(callback_models(q.take(count as int)) =~= callback_models(q.take(count - 1)).push(e));
                assert(self@.microtasks =~= q.skip(count as int));
            }
            if count >= self.max_microtasks_per_tick {
                break;
            }
        }
        self.draining_microtasks = false;
        self.stats.total_microtasks = self.stats.total_microtasks + count as u64;
        if (count as u64) > self.stats.max_microtasks_per_tick {
            self.stats.max_microtasks_per_tick = count as u64;
        }
        let remaining = self.microtask_queue.len();
        assert(self@.microtasks.len() == self.microtask_queue@.len());
        (drained, remaining)
    }
}

// ───────────────────────────── Wall clock ─────────────────────────────

#[verifier::external_type_specification]
#[verifier::external_body]
pub struct ExInstant(std::time::Instant);

/// `Instant::now`: the current wall-clock instant; nothing is promised of it.
#[verifier::external_body]
pub(crate) fn instant_now() -> std::time::Instant {
    std::time::Instant::now()
}

/// `Instant::elapsed`: the wall-clock time since `start`; nothing is promised of it.
#[verifier::external_body]
pub(crate) fn instant_elapsed(start: &std::time::Instant) -> std::time::Duration {
    start.elapsed()
}

/// The length of a duration in nanoseconds.
pub uninterp spec fn duration_nanos(d: std::time::Duration) -> nat;

/// `Duration::as_nanos`: the length of the duration in nanoseconds.
#[verifier::external_body]
pub(crate) fn duration_as_nanos(d: &std::time::Duration) -> (r: u128)
    ensures
        r == duration_nanos(*d),
{
    d.as_nanos()
}

/// `Duration::from_secs`: a duration of whole seconds.
#[verifier::external_body]
pub(crate) fn duration_from_secs(secs: u64) -> (r: std::time::Duration)
    ensures
        duration_nanos(r) == secs * 1_000_000_000,
{
    std::time::Duration::from_secs(secs)
}

/// `Duration::as_millis`: whole milliseconds of `d`; nothing is promised of it.
#[verifier::external_body]
pub(crate) fn duration_as_millis(d: &std::time::Duration) -> u128 {
    d.as_millis()
}

// ───────────────────────────── Running to completion ─────────────────────────────

/// Number of live (not cancelled) timers.
pub open spec fn live_count(q: Seq<MacrotaskModel>) -> nat
    decreases q.len(),
{
    if q.len() == 0 {
        0
    } else {
        live_count(q.drop_last()) + if !q.last().cancelled { 1nat } else { 0nat }
    }
}

/// The latest firing time of a live timer (0 when there is none).
pub open spec fn max_live_fire(q: Seq<MacrotaskModel>) -> u64
    decreases q.len(),
{
    if q.len() == 0 {
        0
    } else {
        max_u64(max_live_fire(q.drop_last()), if !q.last().cancelled { q.last().fire_at } else { 0 })
    }
}

/// The cancelled timers, in order.
pub open spec fn cancelled_only(q: Seq<MacrotaskModel>) -> Seq<MacrotaskModel>
    decreases q.len(),
{
    if q.len() == 0 {
        Seq::empty()
    } else if q.last().cancelled {
        cancelled_only(q.drop_last()).push(q.last())
    } else {
        cancelled_only(q.drop_last())
    }
}

pub open spec fn no_live_repeating(q: Seq<MacrotaskModel>) -> bool {
    forall|j: int| 0 <= j < q.len() && !(#[trigger] q[j]).cancelled ==> !q[j].repeating
}

/// The budget as it acts: a drain always takes at least one microtask.
pub open spec fn effective_budget(budget: usize) -> nat {
    if budget == 0 { 1 } else { budget as nat }
}

/// Ticks that [`EventLoop::run_to_completion`] takes with `live` timers and
/// `rem` microtasks left, draining up to `b` microtasks per tick.
pub open spec fn remaining_ticks(live: nat, rem: nat, b: nat) -> nat
    decreases live, rem,
{
    let d = if rem < b { rem } else { b };
    let rem2 = (rem - d) as nat;
    if live > 0 {
        1 + remaining_ticks((live - 1) as nat, rem2, b)
    } else if rem2 == 0 || b == 0 {
        1
    } else {
        1 + remaining_ticks(0, rem2, b)
    }
}

pub proof fn lemma_remaining_ticks_bound(live: nat, rem: nat, b: nat)
    ensures
        1 <= remaining_ticks(live, rem, b) <= live + rem + 1,
    decreases live, rem,
{
    let d = if rem < b { rem } else { b };
    let rem2 = (rem - d) as nat;
    if live > 0 {
        lemma_remaining_ticks_bound((live - 1) as nat, rem2, b);
    } else if rem2 == 0 || b == 0 {
    } else {
        lemma_remaining_ticks_bound(0, rem2, b);
    }
}

pub proof fn lemma_live_count_bound(q: Seq<MacrotaskModel>)
    ensures
        live_count(q) <= q.len(),
        any_live(q) ==> live_count(q) > 0,
        !any_live(q) ==> live_count(q) == 0 && max_live_fire(q) == 0 && cancelled_only(q) == q,
    decreases q.len(),
{
    if q.len() > 0 {
        let p = q.drop_last();
        lemma_live_count_bound(p);
        if any_live(q) && q.last().cancelled {
            let j = choose|j: int| 0 <= j < q.len() && !(#[trigger] q[j]).cancelled;
            assert(!p[j].cancelled);
        }
        if !any_live(q) {
            assert forall|j: int| 0 <= j < p.len() implies !(#[trigger] p[j]).cancelled == false by {
                assert(q[j] == p[j]);
            }
            assert(!q[q.len() - 1].cancelled == false);
            assert(p.push(q.last()) =~= q);
        }
    } else {
        assert(q =~= Seq::empty());
    }
}

/// Removing a live timer takes one from the live count, keeps the cancelled
/// ones, and the latest live firing time covers the removed one.
pub proof fn lemma_remove_live(q: Seq<MacrotaskModel>, i: int)
    requires
        0 <= i < q.len(),
        !q[i].cancelled,
    ensures
        live_count(q) == live_count(q.remove(i)) + 1,
        max_live_fire(q) == max_u64(max_live_fire(q.remove(i)), q[i].fire_at),
        cancelled_only(q.remove(i)) == cancelled_only(q),
    decreases q.len(),
{
    if i == q.len() - 1 {
        assert(q.remove(i) =~= q.drop_last());
    } else {
        lemma_remove_live(q.drop_last(), i);
        assert(q.remove(i).drop_last() =~= q.drop_last().remove(i));
        assert(q.remove(i).last() == q.last());
    }
}

impl EventLoop {
    /// Run the loop until no work is left: each tick drains microtasks up to
    /// the budget, then fires one due timer, jumping virtual time to the next
    /// timer when none is due.
    pub fn run_to_completion(&mut self) -> (r: RunResult)
        requires
            old(self).wf(),
            no_live_repeating(old(self)@.macrotasks),
            old(self)@.microtasks.len() + old(self)@.macrotasks.len() <= usize::MAX,
            old(self)@.stats.total_microtasks + old(self)@.microtasks.len() <= u64::MAX,
            old(self)@.stats.total_macrotasks + old(self)@.macrotasks.len() <= u64::MAX,
            old(self)@.stats.total_ticks + old(self)@.microtasks.len() + old(self)@.macrotasks.len() + 1 <= u64::MAX,
        ensures
            final(self).wf(),
            ({
                let s = old(self)@;
                let m = s.microtasks.len();
                let live = live_count(s.macrotasks);
                let ticks = remaining_ticks(live, m, effective_budget(s.budget));
                &&& r == (RunResult {
                    microtasks_processed: m as usize,
                    macrotasks_processed: live as usize,
                    iterations: (ticks - 1) as usize,
                    final_time: max_u64(s.time, max_live_fire(s.macrotasks)),
                })
                &&& final(self)@ == (EventLoopModel {
                    microtasks: Seq::empty(),
                    macrotasks: cancelled_only(s.macrotasks),
                    time: max_u64(s.time, max_live_fire(s.macrotasks)),
                    stats: EventLoopStats {
                        total_microtasks: (s.stats.total_microtasks + m) as u64,
                        total_macrotasks: (s.stats.total_macrotasks + live) as u64,
                        total_ticks: (s.stats.total_ticks + ticks) as u64,
                        max_microtasks_per_tick: max_u64(s.stats.max_microtasks_per_tick, drain_count(m, s.budget) as u64),
                        longest_tick_ms: final(self)@.stats.longest_tick_ms,
                        ..s.stats
                    },
                    ..s
                })
                &&& final(self)@.stats.longest_tick_ms >= s.stats.longest_tick_ms
            }),
    {
        let ghost s0 = self@;
        let ghost m0 = s0.microtasks.len();
        let ghost q0 = s0.macrotasks;
        let ghost live0 = live_count(q0);
        let ghost b = effective_budget(s0.budget);
        let ghost t0 = remaining_ticks(live0, m0, b);
        let ghost d0 = drain_count(m0, s0.budget);
        proof {
            lemma_live_count_bound(q0);
            lemma_remaining_ticks_bound(live0, m0, b);
        }
        let mut result = RunResult::zero();
        loop
            invariant_except_break
                self@.stats.total_ticks == s0.stats.total_ticks + result.iterations,
                result.iterations == 0 ==> result.microtasks_processed == 0,
                self@.stats.max_microtasks_per_tick == (if result.iterations == 0 {
                    s0.stats.max_microtasks_per_tick
                } else {
                    max_u64(s0.stats.max_microtasks_per_tick, d0 as u64)
                }),
            invariant
                self.wf(),
                self@.promises == s0.promises,
                self@.next_timer_id == s0.next_timer_id,
                self@.unhandled == s0.unhandled,
                self@.pending_promises == s0.pending_promises,
                self@.async_tasks == s0.async_tasks,
                self@.generator_tasks == s0.generator_tasks,
                self@.budget == s0.budget,
                self@.stats.total_promises_created == s0.stats.total_promises_created,
                self@.stats.total_promises_settled == s0.stats.total_promises_settled,
                self@.stats.longest_tick_ms >= s0.stats.longest_tick_ms,
                no_live_repeating(self@.macrotasks),
                live_count(self@.macrotasks) <= live0,
                self@.microtasks.len() <= m0,
                m0 + q0.len() <= usize::MAX,
                live0 <= q0.len(),
                t0 <= live0 + m0 + 1,
                s0.stats.total_microtasks + m0 <= u64::MAX,
                s0.stats.total_macrotasks + q0.len() <= u64::MAX,
                s0.stats.total_ticks + m0 + q0.len() + 1 <= u64::MAX,
                result.microtasks_processed + self@.microtasks.len() == m0,
                result.macrotasks_processed + live_count(self@.macrotasks) == live0,
                result.iterations + remaining_ticks(live_count(self@.macrotasks), self@.microtasks.len(), b) == t0,
                self@.stats.total_microtasks == s0.stats.total_microtasks + result.microtasks_processed,
                self@.stats.total_macrotasks == s0.stats.total_macrotasks + result.macrotasks_processed,
                cancelled_only(self@.macrotasks) == cancelled_only(q0),
                max_u64(self@.time, max_live_fire(self@.macrotasks)) == max_u64(s0.time, max_live_fire(q0)),
                result.final_time == 0,
                b == effective_budget(s0.budget),
                d0 == drain_count(m0, s0.budget),
                t0 == remaining_ticks(live0, m0, b),
            ensures
                self@.stats.total_ticks == s0.stats.total_ticks + t0,
                self@.stats.max_microtasks_per_tick == max_u64(s0.stats.max_microtasks_per_tick, d0 as u64),
                self@.microtasks.len() == 0,
                !any_live(self@.macrotasks),
            decreases live_count(self@.macrotasks), self@.microtasks.len(),
        {
            let ghost sa = self@;
            let ghost live_a = live_count(sa.macrotasks);
            let ghost rem_a = sa.microtasks.len();
            let tick_start = instant_now();
            let (drained, _remaining) = self.drain_microtasks();
            let ghost sb = self@;
            proof {
                assert(drained.len() == drain_count(rem_a, sa.budget)) by {
                    assert(drained_models(drained@).len() == drained@.len());
                }
                let d = drain_count(rem_a, sa.budget);
                assert(d == (if rem_a < b { rem_a } else { b }));
                assert(d <= d0);
                assert(result.iterations == 0 ==> rem_a == m0);
                assert(result.iterations == 0 ==> d == d0);
                let rem2 = (rem_a - d) as nat;
                assert(self@.microtasks.len() == rem2);
                lemma_remaining_ticks_bound(live_a, rem2, b);
                if live_a > 0 {
                    lemma_remaining_ticks_bound((live_a - 1) as nat, rem2, b);
                    assert(remaining_ticks(live_a, rem_a, b) == 1 + remaining_ticks((live_a - 1) as nat, rem2, b));
                } else if rem2 == 0 {
                    assert(remaining_ticks(live_a, rem_a, b) == 1);
                } else {
                    lemma_remaining_ticks_bound(0, rem2, b);
                    assert(remaining_ticks(live_a, rem_a, b) == 1 + remaining_ticks(0, rem2, b));
                }
            }
            result.microtasks_processed = result.microtasks_processed + drained.len();
            let pending = self.has_pending_macrotasks();
            let macrotask = if pending {
                if self.get_next_ready_macrotask_peek() {
                    self.get_next_ready_macrotask()
                } else {
                    self.advance_to_next_macrotask()
                }
            } else {
                None
            };
            proof {
                if pending {
                    let q = sb.macrotasks;
                    if any_ready(q, sb.time) {
                        let i = choose|i: int| #[trigger] is_next_ready(q, sb.time, i)
                            && macrotask.unwrap().model() == q[i]
                            && self@ == (EventLoopModel { macrotasks: after_firing(q, sb.time, i), ..sb });
                        lemma_remove_live(q, i);
                        assert(self@.macrotasks == q.remove(i));
                    } else {
                        let (t, i) = choose|t: u64, i: int| is_earliest_time(q, t)
                            && #[trigger] is_next_ready(q, t, i)
                            && macrotask.unwrap().model() == q[i]
                            && self@ == (EventLoopModel { time: t, macrotasks: after_firing(q, t, i), ..sb });
                        assert(!is_ready(q[i], sb.time));
                        lemma_remove_live(q, i);
                        assert(self@.macrotasks == q.remove(i));
                    }
                    assert(no_live_repeating(self@.macrotasks)) by {
                        assert forall|j: int| 0 <= j < self@.macrotasks.len() && !(#[trigger] self@.macrotasks[j]).cancelled implies !self@.macrotasks[j].repeating by {
                            let i = choose|i: int| 0 <= i < q.len() && self@.macrotasks == q.remove(i);
                            if j < i { assert(self@.macrotasks[j] == q[j]); } else { assert(self@.macrotasks[j] == q[j + 1]); }
                        }
                    }
                } else {
                    lemma_live_count_bound(sb.macrotasks);
                }
            }
            let elapsed = instant_elapsed(&tick_start);
            let tick_elapsed = duration_as_millis(&elapsed) as u64;
            if tick_elapsed > self.stats.longest_tick_ms {
                self.stats.longest_tick_ms = tick_elapsed;
            }
            self.stats.total_ticks = self.stats.total_ticks + 1;
            if let Some(_task) = macrotask {
                result.macrotasks_processed = result.macrotasks_processed + 1;
                result.iterations = result.iterations + 1;
                self.stats.total_macrotasks = self.stats.total_macrotasks + 1;
                continue;
            }
            if !self.has_pending_microtasks() {
                break;
            }
            result.iterations = result.iterations + 1;
        }
        proof {
            lemma_live_count_bound(self@.macrotasks);
            assert(remaining_ticks(0, 0, b) == 1);
            assert(self@.microtasks =~= Seq::empty());
            assert(result.iterations + 1 == t0);
            assert(result.macrotasks_processed == live0);
            assert(result.microtasks_processed == m0);
            assert(self@.time == max_u64(s0.time, max_live_fire(q0)));
        }
        result.final_time = self.virtual_time;
        result
    }
}

// ───────────────────────────── Async tasks on the loop ─────────────────────────────

pub open spec fn task_ready(s: EventLoopModel) -> spec_fn(AsyncTask) -> bool {
    |t: AsyncTask| s.promises[t.awaiting.index as int].state != PromiseInternalState::Pending
}

pub open spec fn task_waiting(s: EventLoopModel) -> spec_fn(AsyncTask) -> bool {
    |t: AsyncTask| s.promises[t.awaiting.index as int].state == PromiseInternalState::Pending
}

pub open spec fn generator_ready(s: EventLoopModel) -> spec_fn(AsyncGeneratorTask) -> bool {
    |t: AsyncGeneratorTask| s.promises[t.awaiting.index as int].state != PromiseInternalState::Pending
}

pub open spec fn generator_waiting(s: EventLoopModel) -> spec_fn(AsyncGeneratorTask) -> bool {
    |t: AsyncGeneratorTask| s.promises[t.awaiting.index as int].state == PromiseInternalState::Pending
}

impl EventLoop {
    /// Drop queued microtasks, timers, unhandled rejections, tracked pending
    /// promises and async generator tasks. Promises themselves stay readable.
    pub fn clear(&mut self)
        requires
            old(self).wf(),
        ensures
            final(self).wf(),
            final(self)@ == (EventLoopModel {
                microtasks: Seq::empty(),
                macrotasks: Seq::empty(),
                unhandled: Seq::empty(),
                pending_promises: Seq::empty(),
                generator_tasks: Seq::empty(),
                ..old(self)@
            }),
    {
        self.microtask_queue.clear();
        self.macrotask_queue.clear();
        self.unhandled_rejections.clear();
        self.pending_promises.clear();
        self.pending_async_generator_tasks.clear();
        assert(self@.microtasks =~= Seq::empty());
        assert(self@.macrotasks =~= Seq::empty());
        assert(self@.unhandled =~= Seq::empty());
        assert(self@.pending_promises =~= Seq::empty());
        assert(self@.generator_tasks =~= Seq::empty());
    }

    /// Register an async task waiting on its `awaiting` promise.
    pub fn submit_async_task(&mut self, task: AsyncTask)
        requires
            old(self).wf(),
            old(self).valid_handle(task.awaiting),
            old(self).valid_handle(task.result_promise),
        ensures
            final(self).wf(),
            final(self)@ == (EventLoopModel { async_tasks: old(self)@.async_tasks.push(task), ..old(self)@ }),
    {
        self.pending_async_tasks.push(task);
    }

    /// Remove and return, in order, the async tasks whose awaited promise has
    /// settled; the others stay, in order.
    pub fn get_ready_async_tasks(&mut self) -> (r: Vec<AsyncTask>)
        requires
            old(self).wf(),
        ensures
            final(self).wf(),
            r@ == old(self)@.async_tasks.filter(task_ready(old(self)@)),
            final(self)@ == (EventLoopModel {
                async_tasks: old(self)@.async_tasks.filter(task_waiting(old(self)@)),
                ..old(self)@
            }),
    {
        let ghost s0 = self@;
        let ghost all = s0.async_tasks;
        let mut tasks: Vec<AsyncTask> = Vec::new();
        std::mem::swap(&mut tasks, &mut self.pending_async_tasks);
        let mut ready: Vec<AsyncTask> = Vec::new();
        let mut still_pending: Vec<AsyncTask> = Vec::new();
        let ghost mut k: int = 0;
        assert(all.take(0) =~= Seq::empty());
        assert(all.skip(0) =~= all);
        proof {
            reveal(Seq::filter);
        }
        while tasks.len() > 0
            invariant
                0 <= k <= all.len(),
                tasks@ == all.skip(k),
                ready@ == all.take(k).filter(task_ready(s0)),
                still_pending@ == all.take(k).filter(task_waiting(s0)),
                forall|j: int| 0 <= j < still_pending@.len() ==> (#[trigger] still_pending@[j]).awaiting.index < s0.promises.len() && still_pending@[j].result_promise.index < s0.promises.len(),
                self@ == (EventLoopModel { async_tasks: Seq::empty(), ..s0 }),
                model_wf(s0),
                all == s0.async_tasks,
            decreases tasks.len(),
        {
            let task = tasks.remove(0);
            assert(task == all[k]);
            assert(all.take(k + 1).drop_last() =~= all.take(k));
            assert(task.awaiting.index < s0.promises.len());
            let st = self.promise_state(task.awaiting);
            let ghost tk = task;
            proof {
                assert(all.take(k + 1).last() == tk);
                assert(all.take(k).push(tk) =~= all.take(k + 1));
                assert(self@.promises == s0.promises);
            }
            if st != PromiseInternalState::Pending {
                ready.push(task);
            } else {
                still_pending.push(task);
            }
            proof {
                all.take(k).lemma_filter_push(tk, task_ready(s0));
                all.take(k).lemma_filter_push(tk, task_waiting(s0));
                k = k + 1;
                assert(tasks@ =~= all.skip(k));
            }
        }
        assert(all.take(k) =~= all);
        self.pending_async_tasks = still_pending;
        ready
    }

    /// Number of async tasks still waiting.
    pub fn pending_async_task_count(&self) -> (r: usize)
        ensures
            r == self@.async_tasks.len(),
    {
        self.pending_async_tasks.len()
    }

    /// The waiting async tasks, in the order submitted.
    pub fn pending_async_tasks(&self) -> (r: &Vec<AsyncTask>)
        ensures
            r@ == self@.async_tasks,
    {
        &self.pending_async_tasks
    }

    /// Register an async generator task waiting on its `awaiting` promise.
    pub fn submit_async_generator_task(&mut self, task: AsyncGeneratorTask)
        requires
            old(self).wf(),
            old(self).valid_handle(task.awaiting),
        ensures
            final(self).wf(),
            final(self)@ == (EventLoopModel { generator_tasks: old(self)@.generator_tasks.push(task), ..old(self)@ }),
    {
        self.pending_async_generator_tasks.push(task);
    }

    /// Remove and return, in order, the generator tasks whose awaited promise
    /// has settled; the others stay, in order.
    pub fn get_ready_async_generator_tasks(&mut self) -> (r: Vec<AsyncGeneratorTask>)
        requires
            old(self).wf(),
        ensures
            final(self).wf(),
            r@ == old(self)@.generator_tasks.filter(generator_ready(old(self)@)),
            final(self)@ == (EventLoopModel {
                generator_tasks: old(self)@.generator_tasks.filter(generator_waiting(old(self)@)),
                ..old(self)@
            }),
    {
        let ghost s0 = self@;
        let ghost all = s0.generator_tasks;
        let mut tasks: Vec<AsyncGeneratorTask> = Vec::new();
        std::mem::swap(&mut tasks, &mut self.pending_async_generator_tasks);
        let mut ready: Vec<AsyncGeneratorTask> = Vec::new();
        let mut still_pending: Vec<AsyncGeneratorTask> = Vec::new();
        let ghost mut k: int = 0;
        assert(all.take(0) =~= Seq::empty());
        assert(all.skip(0) =~= all);
        proof {
            reveal(Seq::filter);
        }
        while tasks.len() > 0
            invariant
                0 <= k <= all.len(),
                tasks@ == all.skip(k),
                ready@ == all.take(k).filter(generator_ready(s0)),
                still_pending@ == all.take(k).filter(generator_waiting(s0)),
                forall|j: int| 0 <= j < still_pending@.len() ==> (#[trigger] still_pending@[j]).awaiting.index < s0.promises.len(),
                self@ == (EventLoopModel { generator_tasks: Seq::empty(), ..s0 }),
                model_wf(s0),
                all == s0.generator_tasks,
            decreases tasks.len(),
        {
            let task = tasks.remove(0);
            assert(task == all[k]);
            assert(all.take(k + 1).drop_last() =~= all.take(k));
            assert(task.awaiting.index < s0.promises.len());
            let st = self.promise_state(task.awaiting);
            let ghost tk = task;
            proof {
                assert(all.take(k + 1).last() == tk);
                assert(all.take(k).push(tk) =~= all.take(k + 1));
                assert(self@.promises == s0.promises);
            }
            if st != PromiseInternalState::Pending {
                ready.push(task);
            } else {
                still_pending.push(task);
            }
            proof {
                all.take(k).lemma_filter_push(tk, generator_ready(s0));
                all.take(k).lemma_filter_push(tk, generator_waiting(s0));
                k = k + 1;
                assert(tasks@ =~= all.skip(k));
            }
        }
        assert(all.take(k) =~= all);
        self.pending_async_generator_tasks = still_pending;
        ready
    }

    /// Number of async generator tasks still waiting.
    pub fn pending_async_generator_count(&self) -> (r: usize)
        ensures
            r == self@.generator_tasks.len(),
    {
        self.pending_async_generator_tasks.len()
    }

    /// The waiting async generator tasks, in the order submitted.
    pub fn pending_async_generator_tasks(&self) -> (r: &Vec<AsyncGeneratorTask>)
        ensures
            r@ == self@.generator_tasks,
    {
        &self.pending_async_generator_tasks
    }

    /// `Promise.withResolvers()`: a new pending promise with its resolvers.
    pub fn promise_with_resolvers(&mut self) -> (r: PromiseWithResolvers)
        requires
            old(self).wf(),
            old(self)@.promises.len() < usize::MAX,
        ensures
            final(self).wf(),
            r.promise.index == old(self)@.promises.len(),
            !r.resolved && !r.rejected,
            final(self)@ == create_model(old(self)@),
    {
        let promise = self.create_promise();
        PromiseWithResolvers { promise, resolved: false, rejected: false }
    }
}

impl Default for EventLoop {
    fn default() -> (r: EventLoop)
        ensures
            r.wf(),
            r@ == (EventLoopModel {
                promises: Seq::empty(),
                microtasks: Seq::empty(),
                macrotasks: Seq::empty(),
                time: 0,
                next_timer_id: 1,
                unhandled: Seq::empty(),
                pending_promises: Seq::empty(),
                async_tasks: Seq::empty(),
                generator_tasks: Seq::empty(),
                budget: 10_000,
                stats: zero_stats(),
            }),
    {
        EventLoop::new()
    }
}

/// A promise together with its `resolve`/`reject` capabilities
/// (`Promise.withResolvers()`).
pub struct PromiseWithResolvers {
    pub promise: PromiseHandle,
    /// Whether `resolve` has taken effect.
    pub resolved: bool,
    /// Whether `reject` has taken effect.
    pub rejected: bool,
}

impl PromiseWithResolvers {
    /// Fulfill the promise, unless `resolve` or `reject` was called before.
    pub fn resolve(&mut self, event_loop: &mut EventLoop, value: JsValue)
        requires
            old(event_loop).wf(),
            old(event_loop).valid_handle(old(self).promise),
        ensures
            final(event_loop).wf(),
            final(self).promise == old(self).promise,
            final(self).rejected == old(self).rejected,
            old(self).resolved || old(self).rejected ==> *final(self) == *old(self) && final(event_loop)@ == old(event_loop)@,
            !old(self).resolved && !old(self).rejected ==> final(self).resolved
                && final(event_loop)@ == settle_model(old(event_loop)@, old(self).promise.index as int, value@,
                    PromiseReactionType::Fulfill, old(event_loop)@.promises.len() as int),
    {
        if !self.resolved && !self.rejected {
            event_loop.fulfill_promise(&self.promise, value);
            self.resolved = true;
        }
    }

    /// Reject the promise, unless `resolve` or `reject` was called before.
    pub fn reject(&mut self, event_loop: &mut EventLoop, reason: JsValue)
        requires
            old(event_loop).wf(),
            old(event_loop).valid_handle(old(self).promise),
        ensures
            final(event_loop).wf(),
            final(self).promise == old(self).promise,
            final(self).resolved == old(self).resolved,
            old(self).resolved || old(self).rejected ==> *final(self) == *old(self) && final(event_loop)@ == old(event_loop)@,
            !old(self).resolved && !old(self).rejected ==> final(self).rejected
                && final(event_loop)@ == settle_model(old(event_loop)@, old(self).promise.index as int, reason@,
                    PromiseReactionType::Reject, old(event_loop)@.promises.len() as int),
    {
        if !self.resolved && !self.rejected {
            event_loop.reject_promise(&self.promise, reason);
            self.rejected = true;
        }
    }

    /// The `{ promise, resolve, reject }` object as a JS value; the three
    /// members are `undefined` placeholders.
    pub fn to_js_value(&self) -> (r: JsValue)
        ensures
            r@ == ValueModel::Object(seq![
                ("promise"@, ValueModel::Undefined),
                ("resolve"@, ValueModel::Undefined),
                ("reject"@, ValueModel::Undefined),
            ]),
    {
        object3(
            String::from_str("promise"),
            JsValue::Undefined,
            String::from_str("resolve"),
            JsValue::Undefined,
            String::from_str("reject"),
            JsValue::Undefined,
        )
    }
}

// ───────────────────────────── Abort signals ─────────────────────────────

/// Cancellation signal (Web `AbortSignal`).
#[derive(Debug)]
pub struct AbortSignal {
    pub aborted: bool,
    /// Why the signal was aborted.
    pub reason: Option<JsValue>,
    on_abort_callbacks: Vec<JsValue>,
    /// Timeout after which `check_timeout` aborts the signal.
    timeout_ms: Option<u64>,
}

/// Abstract state of an [`AbortSignal`].
pub struct AbortSignalModel {
    pub aborted: bool,
    pub reason: Option<ValueModel>,
    /// Registered callbacks, in order.
    pub callbacks: Seq<ValueModel>,
    pub timeout: Option<u64>,
}

impl View for AbortSignal {
    type V = AbortSignalModel;

    closed spec fn view(&self) -> AbortSignalModel {
        AbortSignalModel {
            aborted: self.aborted,
            reason: opt_model(self.reason),
            callbacks: models_of(self.on_abort_callbacks@),
            timeout: self.timeout_ms,
        }
    }
}

/// The model of a fresh signal.
pub open spec fn fresh_signal(timeout: Option<u64>) -> AbortSignalModel {
    AbortSignalModel { aborted: false, reason: None, callbacks: Seq::empty(), timeout }
}

impl AbortSignal {

    /// A signal that is not aborted and has no timeout.
    pub fn new() -> (r: AbortSignal)
        ensures
            r@ == fresh_signal(None),
    {
        let r = AbortSignal { aborted: false, reason: None, on_abort_callbacks: Vec::new(), timeout_ms: None };
        assert(r@.callbacks =~= Seq::empty());
        r
    }

    /// A signal that `check_timeout` aborts once `ms` milliseconds have elapsed.
    pub fn timeout(ms: u64) -> (r: AbortSignal)
        ensures
            r@ == fresh_signal(Some(ms)),
    {
        let r = AbortSignal { aborted: false, reason: None, on_abort_callbacks: Vec::new(), timeout_ms: Some(ms) };
        assert(r@.callbacks =~= Seq::empty());
        r
    }

    /// A signal that is aborted, with the reason of the first aborted one of
    /// `signals`, when any of them is aborted.
    pub fn any(signals: &[&AbortSignal]) -> (r: AbortSignal)
        ensures
            (forall|j: int| 0 <= j < signals@.len() ==> !(#[trigger] signals@[j])@.aborted) ==> r@ == fresh_signal(None),
            forall|i: int| 0 <= i < signals@.len() && (#[trigger] signals@[i])@.aborted
                && (forall|j: int| 0 <= j < i ==> !(#[trigger] signals@[j])@.aborted)
                ==> r@ == (AbortSignalModel { aborted: true, reason: signals@[i]@.reason, ..fresh_signal(None) }),
    {
        let mut signal = AbortSignal::new();
        let mut i: usize = 0;
        while i < signals.len()
            invariant
                i <= signals@.len(),
                forall|j: int| 0 <= j < i ==> !(#[trigger] signals@[j])@.aborted,
                signal@ == fresh_signal(None),
            decreases signals@.len() - i,
        {
            let s = signals[i];
            if s.aborted {
                signal.aborted = true;
                signal.reason = match &s.reason {
                    Some(v) => Some(v.duplicate()),
                    None => None,
                };
                assert forall|k: int| 0 <= k < signals@.len() && (#[trigger] signals@[k])@.aborted
                    && (forall|j: int| 0 <= j < k ==> !(#[trigger] signals@[j])@.aborted) implies k == i by {
                    if k < i {
                    } else if k > i {
                        assert(!signals@[i as int]@.aborted);
                    }
                }
                return signal;
            }
            i = i + 1;
        }
        signal
    }

    /// Register a callback to run on abort.
    pub fn add_on_abort(&mut self, callback: JsValue)
        ensures
            final(self)@ == (AbortSignalModel { callbacks: old(self)@.callbacks.push(callback@), ..old(self)@ }),
    {
        let ghost c = callback;
        proof {
            crate::value::lemma_models_of_push(self.on_abort_callbacks@, c);
        }
        self.on_abort_callbacks.push(callback);
    }

    /// The registered callbacks.
    pub fn on_abort_callbacks(&self) -> (r: &[JsValue])
        ensures
            models_of(r@) == self@.callbacks,
    {
        self.on_abort_callbacks.as_slice()
    }

    /// The auto-abort timeout, if any.
    pub fn timeout_ms(&self) -> (r: Option<u64>)
        ensures
            r == self@.timeout,
    {
        self.timeout_ms
    }

    /// Abort with `reason`, handing back the registered callbacks; nothing
    /// happens (and nothing is handed back) once aborted.
    pub fn abort(&mut self, reason: JsValue) -> (r: Vec<JsValue>)
        ensures
            old(self)@.aborted ==> r@.len() == 0 && final(self)@ == old(self)@,
            !old(self)@.aborted ==> models_of(r@) == old(self)@.callbacks
                && final(self)@ == (AbortSignalModel { aborted: true, reason: Some(reason@), callbacks: Seq::empty(), ..old(self)@ }),
    {
        if self.aborted {
            return Vec::new();
        }
        self.aborted = true;
        self.reason = Some(reason);
        let mut callbacks: Vec<JsValue> = Vec::new();
        std::mem::swap(&mut callbacks, &mut self.on_abort_callbacks);
        assert(self@.callbacks =~= Seq::empty());
        callbacks
    }

    /// Abort with reason `"TimeoutError"` when the timeout has elapsed and the
    /// signal is not yet aborted; returns whether it did.
    pub fn check_timeout(&mut self, elapsed_ms: u64) -> (r: bool)
        ensures
            r == (old(self)@.timeout matches Some(t) && elapsed_ms >= t && !old(self)@.aborted),
            r ==> final(self)@ == (AbortSignalModel {
                aborted: true,
                reason: Some(ValueModel::Str("TimeoutError"@)),
                callbacks: Seq::empty(),
                ..old(self)@
            }),
            !r ==> final(self)@ == old(self)@,
    {
        if let Some(timeout) = self.timeout_ms {
            if elapsed_ms >= timeout && !self.aborted {
                self.abort(JsValue::String(String::from_str("TimeoutError")));
                return true;
            }
        }
        false
    }
}

impl Default for AbortSignal {
    fn default() -> (r: AbortSignal)
        ensures
            r@ == fresh_signal(None),
    {
        AbortSignal::new()
    }
}

/// Owner of an [`AbortSignal`] (Web `AbortController`).
pub struct AbortController {
    pub signal: AbortSignal,
}

impl AbortController {
    /// A controller with a fresh signal.
    pub fn new() -> (r: AbortController)
        ensures
            r.signal@ == fresh_signal(None),
    {
        AbortController { signal: AbortSignal::new() }
    }

    /// The controller's signal.
    pub fn signal(&self) -> (r: &AbortSignal)
        ensures
            *r == self.signal,
    {
        &self.signal
    }

    /// The controller's signal, for registering callbacks.
    pub fn signal_mut(&mut self) -> (r: &mut AbortSignal)
        ensures
            *r == old(self).signal,
            final(self).signal == *final(r),
    {
        &mut self.signal
    }

    /// Abort the signal with `reason` (see [`AbortSignal::abort`]).
    pub fn abort(&mut self, reason: JsValue) -> (r: Vec<JsValue>)
        ensures
            old(self).signal@.aborted ==> r@.len() == 0 && final(self).signal@ == old(self).signal@,
            !old(self).signal@.aborted ==> models_of(r@) == old(self).signal@.callbacks
                && final(self).signal@ == (AbortSignalModel {
                    aborted: true,
                    reason: Some(reason@),
                    callbacks: Seq::empty(),
                    ..old(self).signal@
                }),
    {
        self.signal.abort(reason)
    }
}

impl Default for AbortController {
    fn default() -> (r: AbortController)
        ensures
            r.signal@ == fresh_signal(None),
    {
        AbortController::new()
    }
}

// ───────────────────────────── Async function state ─────────────────────────────

/// Saved state of an async function between `await`s.
#[derive(Debug)]
pub struct AsyncFunctionState {
    pub locals: Vec<JsValue>,
    pub ip: usize,
    pub result_promise: PromiseHandle,
    pub awaiting: Option<PromiseHandle>,
    pub stack_snapshot: Vec<JsValue>,
}

impl AsyncFunctionState {
    /// Fresh state at instruction 0 for the given result promise.
    pub fn new(result_promise: PromiseHandle) -> (r: AsyncFunctionState)
        ensures
            r.locals@.len() == 0,
            r.ip == 0,
            r.result_promise == result_promise,
            r.awaiting is None,
            r.stack_snapshot@.len() == 0,
    {
        AsyncFunctionState { locals: Vec::new(), ip: 0, result_promise, awaiting: None, stack_snapshot: Vec::new() }
    }
}

/// A saved `try` handler.
#[derive(Debug, Clone, Copy, PartialEq, Eq, Structural)]
pub struct ExceptionHandlerState {
    pub catch_ip: usize,
    pub finally_ip: Option<usize>,
    pub stack_depth: usize,
}

/// The machine state captured at an `await`.
#[derive(Debug)]
pub struct SuspensionPoint {
    pub id: u64,
    pub function_name: String,
    pub ip: usize,
    pub bp: usize,
    pub locals: Vec<JsValue>,
    pub stack: Vec<JsValue>,
    pub awaiting_promise: PromiseHandle,
    pub result_promise: PromiseHandle,
    pub exception_handlers: Vec<ExceptionHandlerState>,
    pub scope_depth: u32,
    /// When the function was suspended.
    pub suspended_at: u64,
}

/// Counters kept by a [`SuspensionManager`].
#[derive(Debug, Clone, Copy, PartialEq, Eq, Structural)]
pub struct SuspensionStats {
    pub total_suspensions: u64,
    pub total_resumptions: u64,
    pub currently_suspended: usize,
    pub max_concurrent_suspensions: usize,
}

/// Store of suspended async functions, keyed by suspension id.
pub struct SuspensionManager {
    suspensions: HashMap<u64, SuspensionPoint>,
    next_id: u64,
    total_suspensions: u64,
    total_resumptions: u64,
    max_concurrent: usize,
}

/// Abstract state of a [`SuspensionManager`].
pub struct SuspensionManagerModel {
    pub suspensions: Map<u64, SuspensionPoint>,
    pub next_id: u64,
    pub total_suspensions: u64,
    pub total_resumptions: u64,
    pub max_concurrent: usize,
}

impl View for SuspensionManager {
    type V = SuspensionManagerModel;

    closed spec fn view(&self) -> SuspensionManagerModel {
        SuspensionManagerModel {
            suspensions: self.suspensions@,
            next_id: self.next_id,
            total_suspensions: self.total_suspensions,
            total_resumptions: self.total_resumptions,
            max_concurrent: self.max_concurrent,
        }
    }
}

/// A pending promise cancelled by a suspension manager: rejected with
/// `"Cancelled"`, its reactions left unrun and no statistic counted.
pub open spec fn cancel_model(s: EventLoopModel, p: int) -> EventLoopModel {
    if s.promises[p].state == PromiseInternalState::Pending {
        EventLoopModel {
            promises: s.promises.update(p, PromiseModel {
                state: PromiseInternalState::Rejected,
                result: Some(ValueModel::Str("Cancelled"@)),
                ..s.promises[p]
            }),
            ..s
        }
    } else {
        s
    }
}

impl EventLoop {
    /// Reject a pending promise with `"Cancelled"` directly.
    fn cancel_promise(&mut self, h: PromiseHandle)
        requires
            old(self).wf(),
            old(self).valid_handle(h),
        ensures
            final(self).wf(),
            final(self)@ == cancel_model(old(self)@, h.index as int),
    {
        if self.promises[h.index].state == PromiseInternalState::Pending {
            let ghost s0 = self@;
            let ghost np = PromiseModel {
                state: PromiseInternalState::Rejected,
                result: Some(ValueModel::Str("Cancelled"@)),
                ..s0.promises[h.index as int]
            };
            self.promises[h.index].state = PromiseInternalState::Rejected;
            self.promises[h.index].result = Some(JsValue::String(String::from_str("Cancelled")));
            proof {
                assert(self@.promises =~= s0.promises.update(h.index as int, np));
                lemma_count_settled_update(s0.promises, h.index as int, np);
                let n = s0.promises.len() as int;
                assert forall|i: int, j: int|
                    0 <= i < n && 0 <= j < self@.promises[i].reactions.len() implies i < #[trigger] self@.promises[i].reactions[j].promise < n by {
                    assert(self@.promises[i].reactions == s0.promises[i].reactions);
                }
                assert(self@ == (EventLoopModel { promises: self@.promises, ..s0 }));
                assert(self@.stats.total_promises_settled <= count_settled(self@.promises));
                assert(model_wf(self@));
            }
        }
    }
}

impl SuspensionManager {
    /// Ids are handed out from 1 upward and never reused; every stored id was
    /// handed out, and resumptions never outnumber suspensions.
    pub open spec fn wf(&self) -> bool {
        &&& forall|k: u64| #[trigger] self@.suspensions.dom().contains(k) ==> 1 <= k < self@.next_id
        &&& self@.next_id >= 1
        &&& self@.total_resumptions + self@.suspensions.len() <= self@.total_suspensions
        &&& self@.suspensions.dom().finite()
    }

    /// An empty manager.
    pub fn new() -> (r: SuspensionManager)
        ensures
            r.wf(),
            r@ == (SuspensionManagerModel {
                suspensions: Map::empty(),
                next_id: 1,
                total_suspensions: 0,
                total_resumptions: 0,
                max_concurrent: 0,
            }),
    {
        SuspensionManager { suspensions: HashMap::new(), next_id: 1, total_suspensions: 0, total_resumptions: 0, max_concurrent: 0 }
    }

    /// Store a suspension under a fresh id, which is returned.
    pub fn suspend(&mut self, point: SuspensionPoint) -> (r: u64)
        requires
            old(self).wf(),
            old(self)@.next_id < u64::MAX,
            old(self)@.total_suspensions < u64::MAX,
        ensures
            final(self).wf(),
            r == old(self)@.next_id,
            !old(self)@.suspensions.dom().contains(r),
            final(self)@ == (SuspensionManagerModel {
                suspensions: old(self)@.suspensions.insert(r, SuspensionPoint { id: r, ..point }),
                next_id: (r + 1) as u64,
                total_suspensions: (old(self)@.total_suspensions + 1) as u64,
                max_concurrent: if old(self)@.suspensions.len() + 1 > old(self)@.max_concurrent {
                    (old(self)@.suspensions.len() + 1) as usize
                } else {
                    old(self)@.max_concurrent
                },
                ..old(self)@
            }),
    {
        broadcast use vstd::std_specs::hash::group_hash_axioms;
        let mut point = point;
        let id = self.next_id;
        self.next_id = self.next_id + 1;
        point.id = id;
        self.suspensions.insert(id, point);
        self.total_suspensions = self.total_suspensions + 1;
        let n = self.suspensions.len();
        if n > self.max_concurrent {
            self.max_concurrent = n;
        }
        id
    }

    /// Remove and return the suspension with `id`.
    pub fn resume(&mut self, id: u64) -> (r: Option<SuspensionPoint>)
        requires
            old(self).wf(),
        ensures
            final(self).wf(),
            old(self)@.suspensions.dom().contains(id) ==> r == Some(old(self)@.suspensions[id])
                && final(self)@ == (SuspensionManagerModel {
                    suspensions: old(self)@.suspensions.remove(id),
                    total_resumptions: (old(self)@.total_resumptions + 1) as u64,
                    ..old(self)@
                }),
            !old(self)@.suspensions.dom().contains(id) ==> r is None && final(self)@ == old(self)@,
    {
        broadcast use vstd::std_specs::hash::group_hash_axioms;
        let point = self.suspensions.remove(&id);
        if point.is_some() {
            self.total_resumptions = self.total_resumptions + 1;
        } else {
            assert(self@.suspensions =~= old(self)@.suspensions);
        }
        point
    }

    /// The suspension with `id`, left in place.
    pub fn get(&self, id: u64) -> (r: Option<&SuspensionPoint>)
        ensures
            self@.suspensions.dom().contains(id) ==> r == Some(&self@.suspensions[id]),
            !self@.suspensions.dom().contains(id) ==> r is None,
    {
        broadcast use vstd::std_specs::hash::group_hash_axioms;
        self.suspensions.get(&id)
    }

    /// Whether a suspension with `id` is stored.
    pub fn is_suspended(&self, id: u64) -> (r: bool)
        ensures
            r == self@.suspensions.dom().contains(id),
    {
        broadcast use vstd::std_specs::hash::group_hash_axioms;
        self.suspensions.contains_key(&id)
    }

    /// Number of stored suspensions.
    pub fn pending_count(&self) -> (r: usize)
        ensures
            r == self@.suspensions.len(),
    {
        broadcast use vstd::std_specs::hash::group_hash_axioms;
        self.suspensions.len()
    }

    /// Remove the suspension with `id` and reject its result promise with
    /// `"Cancelled"` if still pending; returns whether it was stored.
    pub fn cancel(&mut self, event_loop: &mut EventLoop, id: u64) -> (r: bool)
        requires
            old(self).wf(),
            old(event_loop).wf(),
            forall|k: u64| #[trigger] old(self)@.suspensions.dom().contains(k)
                ==> old(event_loop).valid_handle(old(self)@.suspensions[k].result_promise),
        ensures
            final(self).wf(),
            final(event_loop).wf(),
            r == old(self)@.suspensions.dom().contains(id),
            r ==> final(self)@ == (SuspensionManagerModel { suspensions: old(self)@.suspensions.remove(id), ..old(self)@ })
                && final(event_loop)@ == cancel_model(old(event_loop)@, old(self)@.suspensions[id].result_promise.index as int),
            !r ==> final(self)@ == old(self)@ && final(event_loop)@ == old(event_loop)@,
    {
        broadcast use vstd::std_specs::hash::group_hash_axioms;
        match self.suspensions.remove(&id) {
            Some(point) => {
                event_loop.cancel_promise(point.result_promise);
                true
            },
            None => {
                assert(self@.suspensions =~= old(self)@.suspensions);
                false
            },
        }
    }

    /// The stored ids, each once.
    fn suspension_ids(&self) -> (r: Vec<u64>)
        ensures
            r@.to_set() == self@.suspensions.dom(),
            r@.no_duplicates(),
    {
        broadcast use vstd::std_specs::hash::group_hash_axioms;
        let mut ids: Vec<u64> = Vec::new();
        let ghost ks = vstd::std_specs::hash::spec_keys_iter(&self.suspensions).remaining();
        proof {
            vstd::std_specs::hash::axiom_spec_keys_iter(&self.suspensions);
        }
        for k in it: self.suspensions.keys()
            invariant
                it.seq() == ks,
                ids@ == ks.take(it.index()).unref(),
        {
            ids.push(*k);
            assert(ids@ =~= ks.take(it.index() + 1).unref());
        }
        assert(ids@ =~= ks.unref());
        assert(ids@.no_duplicates()) by {
            assert forall|a: int, b: int| 0 <= a < ids@.len() && 0 <= b < ids@.len() && a != b implies ids@[a] != ids@[b] by {
                assert(ks[a] != ks[b]);
            }
        }
        ids
    }

    /// Cancel every stored suspension (see [`SuspensionManager::cancel`]);
    /// returns how many there were.
    pub fn cancel_all(&mut self, event_loop: &mut EventLoop) -> (r: usize)
        requires
            old(self).wf(),
            old(event_loop).wf(),
            forall|k: u64| #[trigger] old(self)@.suspensions.dom().contains(k)
                ==> old(event_loop).valid_handle(old(self)@.suspensions[k].result_promise),
        ensures
            final(self).wf(),
            final(event_loop).wf(),
            r == old(self)@.suspensions.len(),
            final(self)@ == (SuspensionManagerModel { suspensions: Map::empty(), ..old(self)@ }),
            final(event_loop)@.promises.len() == old(event_loop)@.promises.len(),
            forall|p: int| 0 <= p < old(event_loop)@.promises.len() ==> #[trigger] final(event_loop)@.promises[p] ==
                if (exists|k: u64| #[trigger] old(self)@.suspensions.dom().contains(k)
                    && old(self)@.suspensions[k].result_promise.index == p)
                    && old(event_loop)@.promises[p].state == PromiseInternalState::Pending {
                    PromiseModel {
                        state: PromiseInternalState::Rejected,
                        result: Some(ValueModel::Str("Cancelled"@)),
                        ..old(event_loop)@.promises[p]
                    }
                } else {
                    old(event_loop)@.promises[p]
                },
            final(event_loop)@ == (EventLoopModel { promises: final(event_loop)@.promises, ..old(event_loop)@ }),
    {
        broadcast use vstd::std_specs::hash::group_hash_axioms;
        let count = self.suspensions.len();
        let ids = self.suspension_ids();
        let ghost m0 = self@.suspensions;
        let ghost e0 = event_loop@;
        let ghost n = e0.promises.len();
        let mut i: usize = 0;
        proof {
            ids@.unique_seq_to_set();
            assert(ids@.take(0).to_set() =~= Set::empty());
            assert(m0.remove_keys(Set::empty()) =~= m0);
        }
        while i < ids.len()
            invariant
                i <= ids@.len(),
                ids@.to_set() == m0.dom(),
                ids@.no_duplicates(),
                self.wf(),
                event_loop.wf(),
                self@ == (SuspensionManagerModel { suspensions: m0.remove_keys(ids@.take(i as int).to_set()), ..old(self)@ }),
                event_loop@ == (EventLoopModel { promises: event_loop@.promises, ..e0 }),
                event_loop@.promises.len() == n,
                n == e0.promises.len(),
                forall|k: u64| #[trigger] m0.dom().contains(k) ==> m0[k].result_promise.index < n,
                forall|p: int| 0 <= p < n ==> #[trigger] event_loop@.promises[p] ==
                    if (exists|j: int| 0 <= j < i && #[trigger] m0[ids@[j]].result_promise.index == p)
                        && e0.promises[p].state == PromiseInternalState::Pending {
                        PromiseModel {
                            state: PromiseInternalState::Rejected,
                            result: Some(ValueModel::Str("Cancelled"@)),
                            ..e0.promises[p]
                        }
                    } else {
                        e0.promises[p]
                    },
            decreases ids.len() - i,
        {
            let id = ids[i];
            proof {
                assert(ids@.to_set().contains(id));
                assert(!ids@.take(i as int).to_set().contains(id)) by {
                    if ids@.take(i as int).to_set().contains(id) {
                        let j = choose|j: int| 0 <= j < i && ids@.take(i as int)[j] == id;
                        assert(ids@[j] == ids@[i as int]);
                    }
                }
                assert(self@.suspensions.dom().contains(id));
            }
            let ghost before = event_loop@;
            let found = self.cancel(event_loop, id);
            proof {
                assert(ids@.take(i + 1) =~= ids@.take(i as int).push(id));
                ids@.take(i as int).lemma_push_to_set_commute(id);
                assert(m0.remove_keys(ids@.take(i + 1).to_set()) =~= m0.remove_keys(ids@.take(i as int).to_set()).remove(id));
                let q = m0[id].result_promise.index as int;
                assert forall|p: int| 0 <= p < n implies #[trigger] event_loop@.promises[p] ==
                    if (exists|j: int| 0 <= j < i + 1 && #[trigger] m0[ids@[j]].result_promise.index == p)
                        && e0.promises[p].state == PromiseInternalState::Pending {
                        PromiseModel {
                            state: PromiseInternalState::Rejected,
                            result: Some(ValueModel::Str("Cancelled"@)),
                            ..e0.promises[p]
                        }
                    } else {
                        e0.promises[p]
                    } by {
                    if p == q {
                        assert(m0[ids@[i as int]].result_promise.index == p);
                    } else {
                        if exists|j: int| 0 <= j < i + 1 && #[trigger] m0[ids@[j]].result_promise.index == p {
                            let j = choose|j: int| 0 <= j < i + 1 && #[trigger] m0[ids@[j]].result_promise.index == p;
                            assert(j != i);
                        }
                    }
                }
            }
            i = i + 1;
        }
        proof {
            assert(ids@.take(ids@.len() as int) =~= ids@);
            assert(self@.suspensions =~= Map::empty());
            assert forall|p: int| 0 <= p < n implies #[trigger] event_loop@.promises[p] ==
                if (exists|k: u64| #[trigger] m0.dom().contains(k) && m0[k].result_promise.index == p)
                    && e0.promises[p].state == PromiseInternalState::Pending {
                    PromiseModel {
                        state: PromiseInternalState::Rejected,
                        result: Some(ValueModel::Str("Cancelled"@)),
                        ..e0.promises[p]
                    }
                } else {
                    e0.promises[p]
                } by {
                if exists|k: u64| #[trigger] m0.dom().contains(k) && m0[k].result_promise.index == p {
                    let k = choose|k: u64| #[trigger] m0.dom().contains(k) && m0[k].result_promise.index == p;
                    assert(ids@.to_set().contains(k));
                    let j = choose|j: int| 0 <= j < ids@.len() && ids@[j] == k;
                    assert(m0[ids@[j]].result_promise.index == p);
                }
                if exists|j: int| 0 <= j < ids@.len() && #[trigger] m0[ids@[j]].result_promise.index == p {
                    let j = choose|j: int| 0 <= j < ids@.len() && #[trigger] m0[ids@[j]].result_promise.index == p;
                    assert(ids@.to_set().contains(ids@[j]));
                    assert(m0.dom().contains(ids@[j]));
                }
            }
        }
        count
    }

    /// The manager's counters.
    pub fn stats(&self) -> (r: SuspensionStats)
        ensures
            r == (SuspensionStats {
                total_suspensions: self@.total_suspensions,
                total_resumptions: self@.total_resumptions,
                currently_suspended: self@.suspensions.len() as usize,
                max_concurrent_suspensions: self@.max_concurrent,
            }),
    {
        broadcast use vstd::std_specs::hash::group_hash_axioms;
        SuspensionStats {
            total_suspensions: self.total_suspensions,
            total_resumptions: self.total_resumptions,
            currently_suspended: self.suspensions.len(),
            max_concurrent_suspensions: self.max_concurrent,
        }
    }
}

impl Default for SuspensionManager {
    fn default() -> (r: SuspensionManager)
        ensures
            r.wf(),
            r@ == (SuspensionManagerModel {
                suspensions: Map::empty(),
                next_id: 1,
                total_suspensions: 0,
                total_resumptions: 0,
                max_concurrent: 0,
            }),
    {
        SuspensionManager::new()
    }
}

// ───────────────────────────── Async generators ─────────────────────────────

/// Lifecycle of an async generator.
#[derive(Debug, Clone, Copy, PartialEq, Eq, Structural)]
pub enum AsyncGenState {
    SuspendedStart,
    SuspendedYield,
    Executing,
    AwaitingReturn,
    Completed,
}

/// Kind of a request made to an async generator.
#[derive(Debug, Clone, Copy, PartialEq, Eq, Structural)]
pub enum AsyncGenRequestKind {
    Next,
    Return,
    Throw,
}

/// A `next`/`return`/`throw` request waiting for an async generator.
#[derive(Debug)]
pub struct AsyncGenRequest {
    pub kind: AsyncGenRequestKind,
    pub value: JsValue,
    pub promise: PromiseHandle,
}

/// State of one async generator.
#[derive(Debug)]
pub struct AsyncGeneratorState {
    pub state: AsyncGenState,
    /// Pending requests, oldest first.
    pub queue: VecDeque<AsyncGenRequest>,
    pub suspension: Option<SuspensionPoint>,
    pub yielded_values: Vec<JsValue>,
}

impl AsyncGeneratorState {
    /// A generator that has not started.
    pub fn new() -> (r: AsyncGeneratorState)
        ensures
            r.state == AsyncGenState::SuspendedStart,
            r.queue@.len() == 0,
            r.suspension is None,
            r.yielded_values@.len() == 0,
    {
        AsyncGeneratorState { state: AsyncGenState::SuspendedStart, queue: VecDeque::new(), suspension: None, yielded_values: Vec::new() }
    }

    /// Queue a request at the back.
    pub fn enqueue(&mut self, request: AsyncGenRequest)
        ensures
            final(self).queue@ == old(self).queue@.push(request),
            final(self).state == old(self).state,
            final(self).suspension == old(self).suspension,
            final(self).yielded_values == old(self).yielded_values,
    {
        self.queue.push_back(request);
    }

    /// Take the oldest request.
    pub fn dequeue(&mut self) -> (r: Option<AsyncGenRequest>)
        ensures
            old(self).queue@.len() == 0 ==> r is None && final(self).queue@ == old(self).queue@,
            old(self).queue@.len() > 0 ==> r == Some(old(self).queue@[0]) && final(self).queue@ == old(self).queue@.drop_first(),
            final(self).state == old(self).state,
            final(self).suspension == old(self).suspension,
            final(self).yielded_values == old(self).yielded_values,
    {
        self.queue.pop_front()
    }

    /// Whether the generator has completed.
    pub fn is_completed(&self) -> (r: bool)
        ensures
            r == (self.state == AsyncGenState::Completed),
    {
        self.state == AsyncGenState::Completed
    }

    /// Mark the generator completed.
    pub fn complete(&mut self)
        ensures
            final(self).state == AsyncGenState::Completed,
            final(self).queue == old(self).queue,
            final(self).suspension == old(self).suspension,
            final(self).yielded_values == old(self).yielded_values,
    {
        self.state = AsyncGenState::Completed;
    }
}

impl Default for AsyncGeneratorState {
    fn default() -> (r: AsyncGeneratorState)
        ensures
            r.state == AsyncGenState::SuspendedStart,
            r.queue@.len() == 0,
            r.suspension is None,
            r.yielded_values@.len() == 0,
    {
        AsyncGeneratorState::new()
    }
}

// ───────────────────────────── Promise executor ─────────────────────────────

/// A callback waiting to be run by the VM.
#[derive(Debug)]
pub struct PendingCallback {
    pub id: u64,
    pub callback: JsValue,
    pub args: Vec<JsValue>,
    pub resolve_promise: Option<PromiseHandle>,
}

/// The outcome of a callback run by the VM.
#[derive(Debug)]
pub struct CallbackResult {
    pub id: u64,
    pub value: JsValue,
    pub is_error: bool,
}

/// Queue of promise callbacks handed to the VM, and their results.
pub struct PromiseExecutor {
    pending_callbacks: VecDeque<PendingCallback>,
    completed_results: Vec<CallbackResult>,
    next_id: u64,
}

/// Abstract state of a [`PromiseExecutor`].
pub struct PromiseExecutorModel {
    pub pending: Seq<PendingCallback>,
    pub completed: Seq<CallbackResult>,
    pub next_id: u64,
}

impl View for PromiseExecutor {
    type V = PromiseExecutorModel;

    closed spec fn view(&self) -> PromiseExecutorModel {
        PromiseExecutorModel {
            pending: self.pending_callbacks@,
            completed: self.completed_results@,
            next_id: self.next_id,
        }
    }
}

impl PromiseExecutor {
    /// An empty executor; ids start at 1.
    pub fn new() -> (r: PromiseExecutor)
        ensures
            r@ == (PromiseExecutorModel { pending: Seq::empty(), completed: Seq::empty(), next_id: 1 }),
    {
        let r = PromiseExecutor { pending_callbacks: VecDeque::new(), completed_results: Vec::new(), next_id: 1 };
        assert(r@.pending =~= Seq::empty());
        assert(r@.completed =~= Seq::empty());
        r
    }

    /// Queue a callback under the next id.
    pub fn enqueue(&mut self, callback: PendingCallback)
        requires
            old(self)@.next_id < u64::MAX,
        ensures
            final(self)@ == (PromiseExecutorModel {
                pending: old(self)@.pending.push(PendingCallback { id: old(self)@.next_id, ..callback }),
                next_id: (old(self)@.next_id + 1) as u64,
                ..old(self)@
            }),
    {
        let mut callback = callback;
        callback.id = self.next_id;
        self.next_id = self.next_id + 1;
        self.pending_callbacks.push_back(callback);
    }

    /// Take the oldest queued callback.
    pub fn dequeue(&mut self) -> (r: Option<PendingCallback>)
        ensures
            old(self)@.pending.len() == 0 ==> r is None && final(self)@ == old(self)@,
            old(self)@.pending.len() > 0 ==> r == Some(old(self)@.pending[0])
                && final(self)@ == (PromiseExecutorModel { pending: old(self)@.pending.drop_first(), ..old(self)@ }),
    {
        self.pending_callbacks.pop_front()
    }

    /// Record a callback's result.
    pub fn complete(&mut self, result: CallbackResult)
        ensures
            final(self)@ == (PromiseExecutorModel { completed: old(self)@.completed.push(result), ..old(self)@ }),
    {
        self.completed_results.push(result);
    }

    /// Number of queued callbacks.
    pub fn pending_count(&self) -> (r: usize)
        ensures
            r == self@.pending.len(),
    {
        self.pending_callbacks.len()
    }

    /// Take every recorded result, in order.
    pub fn drain_completed(&mut self) -> (r: Vec<CallbackResult>)
        ensures
            r@ == old(self)@.completed,
            final(self)@ == (PromiseExecutorModel { completed: Seq::empty(), ..old(self)@ }),
    {
        let mut r: Vec<CallbackResult> = Vec::new();
        std::mem::swap(&mut r, &mut self.completed_results);
        assert(self@.completed =~= Seq::empty());
        r
    }
}

impl Default for PromiseExecutor {
    fn default() -> (r: PromiseExecutor)
        ensures
            r@ == (PromiseExecutorModel { pending: Seq::empty(), completed: Seq::empty(), next_id: 1 }),
    {
        PromiseExecutor::new()
    }
}

/// Counters for async/await activity.
#[derive(Debug, Clone, Copy, PartialEq, Eq, Structural)]
pub struct AsyncStats {
    pub total_awaits: u64,
    pub total_resumes: u64,
    pub total_async_functions: u64,
    pub total_async_generators: u64,
    pub current_suspended: usize,
    pub max_suspension_depth: usize,
    pub avg_suspension_time_us: u64,
}

impl Default for AsyncStats {
    fn default() -> (r: AsyncStats)
        ensures
            r == (AsyncStats {
                total_awaits: 0,
                total_resumes: 0,
                total_async_functions: 0,
                total_async_generators: 0,
                current_suspended: 0,
                max_suspension_depth: 0,
                avg_suspension_time_us: 0,
            }),
    {
        AsyncStats {
            total_awaits: 0,
            total_resumes: 0,
            total_async_functions: 0,
            total_async_generators: 0,
            current_suspended: 0,
            max_suspension_depth: 0,
            avg_suspension_time_us: 0,
        }
    }
}

// ───────────────────────────── Laws ─────────────────────────────

/// A promise settles at most once: settling one that is no longer pending
/// changes nothing.
pub proof fn lemma_settle_only_once(s: EventLoopModel, p: int, v: ValueModel, kind: PromiseReactionType, bound: int)
    requires
        0 <= p < s.promises.len(),
        s.promises[p].state != PromiseInternalState::Pending,
    ensures
        settle_model(s, p, v, kind, bound) == s,
{
}

/// Settling a promise never touches promises created before it, nor the
/// size of the promise table.
pub proof fn lemma_settle_frame(s: EventLoopModel, q: int, v: ValueModel, kind: PromiseReactionType, bound: int)
    requires
        bound == s.promises.len(),
    ensures
        settle_model(s, q, v, kind, bound).promises.len() == s.promises.len(),
        forall|j: int| 0 <= j < q && j < s.promises.len() ==> #[trigger] settle_model(s, q, v, kind, bound).promises[j] == s.promises[j],
    decreases bound - q, 2int, 0int,
{
    if 0 <= q < bound && q < s.promises.len() && s.promises[q].state == PromiseInternalState::Pending {
        let old_p = s.promises[q];
        let s1 = EventLoopModel {
            promises: s.promises.update(q, PromiseModel {
                state: settled_state(kind),
                result: Some(v),
                reactions: Seq::empty(),
                handled: old_p.handled,
            }),
            stats: EventLoopStats { total_promises_settled: (s.stats.total_promises_settled + 1) as u64, ..s.stats },
            unhandled: if kind == PromiseReactionType::Reject && !old_p.handled && !has_reject_handler(old_p.reactions) {
                s.unhandled.push((q, v))
            } else {
                s.unhandled
            },
            ..s
        };
        lemma_react_all_frame(s1, old_p.reactions, 0, v, kind, q, bound);
    }
}

pub proof fn lemma_react_all_frame(
    s: EventLoopModel,
    rs: Seq<ReactionModel>,
    i: int,
    v: ValueModel,
    kind: PromiseReactionType,
    src: int,
    bound: int,
)
    requires
        bound == s.promises.len(),
    ensures
        react_all(s, rs, i, v, kind, src, bound).promises.len() == s.promises.len(),
        forall|j: int| 0 <= j <= src && j < s.promises.len() ==> #[trigger] react_all(s, rs, i, v, kind, src, bound).promises[j] == s.promises[j],
    decreases bound - src, 1int, rs.len() - i,
{
    if 0 <= i < rs.len() {
        let s2 = react_one(s, rs[i], v, kind, src, bound);
        lemma_react_one_frame(s, rs[i], v, kind, src, bound);
        lemma_react_all_frame(s2, rs, i + 1, v, kind, src, bound);
    }
}

pub proof fn lemma_react_one_frame(
    s: EventLoopModel,
    r: ReactionModel,
    v: ValueModel,
    kind: PromiseReactionType,
    src: int,
    bound: int,
)
    requires
        bound == s.promises.len(),
    ensures
        react_one(s, r, v, kind, src, bound).promises.len() == s.promises.len(),
        forall|j: int| 0 <= j <= src && j < s.promises.len() ==> #[trigger] react_one(s, r, v, kind, src, bound).promises[j] == s.promises[j],
    decreases bound - src, 0int, 0int,
{
    if r.reaction_type == kind && r.handler is None && src < r.promise < bound {
        match r.combinator {
            None => lemma_settle_frame(s, r.promise, v, kind, bound),
            Some((k, ps)) => match combinator_outcome(s, k, ps) {
                Some(o) => lemma_settle_frame(s, r.promise, o.0, o.1, bound),
                None => {},
            },
        }
    }
}

/// Settling a pending promise fixes its state and result for good: the
/// reactions that run afterwards only settle later promises; a promise that
/// nothing waits on adds exactly one to the settled count.
pub proof fn lemma_settle_records_result(s: EventLoopModel, p: int, v: ValueModel, kind: PromiseReactionType)
    requires
        0 <= p < s.promises.len(),
        s.promises[p].state == PromiseInternalState::Pending,
    ensures
        settle_model(s, p, v, kind, s.promises.len() as int).promises[p].state == settled_state(kind),
        settle_model(s, p, v, kind, s.promises.len() as int).promises[p].result == Some(v),
        s.promises[p].reactions.len() == 0 && s.stats.total_promises_settled < u64::MAX ==> settle_model(
            s,
            p,
            v,
            kind,
            s.promises.len() as int,
        ).stats.total_promises_settled == s.stats.total_promises_settled + 1,
{
    let bound = s.promises.len() as int;
    let old_p = s.promises[p];
    let s1 = EventLoopModel {
        promises: s.promises.update(p, PromiseModel {
            state: settled_state(kind),
            result: Some(v),
            reactions: Seq::empty(),
            handled: old_p.handled,
        }),
        stats: EventLoopStats { total_promises_settled: (s.stats.total_promises_settled + 1) as u64, ..s.stats },
        unhandled: if kind == PromiseReactionType::Reject && !old_p.handled && !has_reject_handler(old_p.reactions) {
            s.unhandled.push((p, v))
        } else {
            s.unhandled
        },
        ..s
    };
    lemma_react_all_frame(s1, old_p.reactions, 0, v, kind, p, bound);
}

/// The state right after promise `p` is marked settled with `v`, before its
/// reactions run.
pub open spec fn marked_settled(s: EventLoopModel, p: int, v: ValueModel, kind: PromiseReactionType) -> EventLoopModel {
    let old_p = s.promises[p];
    EventLoopModel {
        promises: s.promises.update(p, PromiseModel {
            state: settled_state(kind),
            result: Some(v),
            reactions: Seq::empty(),
            handled: old_p.handled,
        }),
        stats: EventLoopStats { total_promises_settled: (s.stats.total_promises_settled + 1) as u64, ..s.stats },
        unhandled: if kind == PromiseReactionType::Reject && !old_p.handled && !has_reject_handler(old_p.reactions) {
            s.unhandled.push((p, v))
        } else {
            s.unhandled
        },
        ..s
    }
}

/// A combinator's result decides again when an input it waits on settles:
/// if the input's only reactions are the combinator's, settling the input
/// settles the still pending result exactly as the combinator decides on the
/// new states, and leaves it pending when they do not decide it yet.
pub proof fn lemma_waiting_combinator_decides(
    s: EventLoopModel,
    p: int,
    v: ValueModel,
    kind: PromiseReactionType,
    k: CombinatorKind,
    ps: Seq<PromiseHandle>,
    q: int,
)
    requires
        model_wf(s),
        0 <= p < q < s.promises.len(),
        s.promises[p].state == PromiseInternalState::Pending,
        s.promises[p].reactions == seq![
            waiting_reaction(k, ps, q, PromiseReactionType::Fulfill),
            waiting_reaction(k, ps, q, PromiseReactionType::Reject),
        ],
        s.promises[q].state == PromiseInternalState::Pending,
    ensures
        ({
            let after = settle_model(s, p, v, kind, s.promises.len() as int);
            match combinator_outcome(marked_settled(s, p, v, kind), k, ps) {
                Some(o) => after.promises[q].state == settled_state(o.1) && after.promises[q].result == Some(o.0),
                None => after.promises[q] == s.promises[q],
            }
        }),
{
    let bound = s.promises.len() as int;
    let s1 = marked_settled(s, p, v, kind);
    let rs = s.promises[p].reactions;
    let rf = rs[0];
    let rr = rs[1];
    assert(settle_model(s, p, v, kind, bound) == react_all(s1, rs, 0, v, kind, p, bound));
    assert(s1.promises[q] == s.promises[q]);
    let a = react_one(s1, rs[0], v, kind, p, bound);
    assert(react_all(s1, rs, 0, v, kind, p, bound) == react_all(a, rs, 1, v, kind, p, bound));
    let b = react_one(a, rs[1], v, kind, p, bound);
    assert(react_all(a, rs, 1, v, kind, p, bound) == react_all(b, rs, 2, v, kind, p, bound));
    assert(react_all(b, rs, 2, v, kind, p, bound) == b);
    match combinator_outcome(s1, k, ps) {
        Some(o) => {
            if kind == PromiseReactionType::Fulfill {
                assert(a == settle_model(s1, q, o.0, o.1, bound));
                lemma_settle_records_result(s1, q, o.0, o.1);
                assert(b == a);
            } else {
                assert(a == s1);
                assert(b == settle_model(s1, q, o.0, o.1, bound));
                lemma_settle_records_result(s1, q, o.0, o.1);
            }
        },
        None => {
            assert(a == s1);
            assert(b == s1);
        },
    }
}

/// A combinator over one pending input that does not decide it yet leaves
/// its result pending and waits on the input: the input gains the
/// combinator's two reactions after those it had.
pub proof fn lemma_combinator_waits_on_pending_input(s: EventLoopModel, k: CombinatorKind, h: PromiseHandle)
    requires
        h.index < s.promises.len(),
        s.promises[h.index as int].state == PromiseInternalState::Pending,
        combinator_outcome(s, k, seq![h]) is None,
    ensures
        ({
            let q = s.promises.len() as int;
            let after = combine_model(s, k, seq![h]);
            &&& after.promises.len() == q + 1
            &&& after.promises[q] == fresh_promise()
            &&& after.promises[h.index as int].reactions == s.promises[h.index as int].reactions.push(
                waiting_reaction(k, seq![h], q, PromiseReactionType::Fulfill),
            ).push(waiting_reaction(k, seq![h], q, PromiseReactionType::Reject))
        }),
{
    let q = s.promises.len() as int;
    let c = create_model(s);
    let ps = seq![h];
    assert(c.promises[h.index as int] == s.promises[h.index as int]);
    let p = c.promises[h.index as int];
    let c1 = EventLoopModel {
        promises: c.promises.update(h.index as int, PromiseModel {
            reactions: p.reactions.push(waiting_reaction(k, ps, q, PromiseReactionType::Fulfill)).push(
                waiting_reaction(k, ps, q, PromiseReactionType::Reject),
            ),
            ..p
        }),
        ..c
    };
    assert(await_inputs(c, ps, 0, k, q) == await_inputs(c1, ps, 1, k, q));
    assert(await_inputs(c1, ps, 1, k, q) == c1);
}

/// Timer ids are handed out once each: every queued timer's id lies below
/// the next id, so the id a new timer gets is carried by no queued timer.
pub proof fn lemma_next_timer_id_unused(s: EventLoopModel)
    requires
        model_wf(s),
    ensures
        s.next_timer_id >= 1,
        forall|k: int| 0 <= k < s.macrotasks.len() ==> (#[trigger] s.macrotasks[k]).id != s.next_timer_id,
{
}

/// Reactions that each either are of the other kind or have a handler only
/// queue microtasks: they leave the counters as they are.
proof fn lemma_react_all_handled_keeps_stats(
    s: EventLoopModel,
    rs: Seq<ReactionModel>,
    i: int,
    v: ValueModel,
    kind: PromiseReactionType,
    src: int,
    bound: int,
)
    requires
        forall|j: int| 0 <= j < rs.len() && (#[trigger] rs[j]).reaction_type == kind ==> rs[j].handler is Some,
    ensures
        react_all(s, rs, i, v, kind, src, bound).stats == s.stats,
    decreases rs.len() - i,
{
    if 0 <= i < rs.len() {
        let s2 = react_one(s, rs[i], v, kind, src, bound);
        assert(s2.stats == s.stats);
        lemma_react_all_handled_keeps_stats(s2, rs, i + 1, v, kind, src, bound);
    }
}

/// Settling a pending promise counts exactly one settlement more when no
/// reaction of that kind passes the value on to another promise (every one
/// has a handler, which only queues a microtask).
pub proof fn lemma_settle_counts_once(s: EventLoopModel, p: int, v: ValueModel, kind: PromiseReactionType)
    requires
        0 <= p < s.promises.len(),
        s.promises[p].state == PromiseInternalState::Pending,
        s.stats.total_promises_settled < u64::MAX,
        forall|j: int|
            0 <= j < s.promises[p].reactions.len() && (#[trigger] s.promises[p].reactions[j]).reaction_type == kind
                ==> s.promises[p].reactions[j].handler is Some,
    ensures
        settle_model(s, p, v, kind, s.promises.len() as int).stats.total_promises_settled
            == s.stats.total_promises_settled + 1,
{
    let s1 = marked_settled(s, p, v, kind);
    lemma_react_all_handled_keeps_stats(s1, s.promises[p].reactions, 0, v, kind, p, s.promises.len() as int);
}

/// What scheduling a timer does to its id: the call returns the next id of
/// the loop before it, and the loop after it hands out the one after.
pub open spec fn timer_scheduled(before: EventLoopModel, after: EventLoopModel, id: u64) -> bool {
    id == before.next_timer_id && after.next_timer_id == before.next_timer_id + 1
}

/// Timer ids count the timers: along calls of
/// [`EventLoop::schedule_timer`] and [`EventLoop::set_immediate`] from a
/// new loop, the call numbered `k` (from 0) returns `k + 1`.
pub proof fn lemma_timer_ids_count(loops: Seq<EventLoopModel>, ids: Seq<u64>)
    requires
        loops.len() == ids.len() + 1,
        loops[0].next_timer_id == 1,
        forall|k: int| 0 <= k < ids.len() ==> #[trigger] timer_scheduled(loops[k], loops[k + 1], ids[k]),
    ensures
        forall|k: int| 0 <= k < ids.len() ==> #[trigger] ids[k] == k + 1,
{
    assert forall|k: int| 0 <= k < loops.len() implies #[trigger] loops[k].next_timer_id == k + 1 by {
        lemma_timer_ids_prefix(loops, ids, k);
    }
    assert forall|k: int| 0 <= k < ids.len() implies #[trigger] ids[k] == k + 1 by {
        assert(timer_scheduled(loops[k], loops[k + 1], ids[k]));
        assert(loops[k].next_timer_id == k + 1);
    }
}

/// After `k` of the calls the loop's next id is `k + 1`.
proof fn lemma_timer_ids_prefix(loops: Seq<EventLoopModel>, ids: Seq<u64>, k: int)
    requires
        loops.len() == ids.len() + 1,
        loops[0].next_timer_id == 1,
        forall|j: int| 0 <= j < ids.len() ==> #[trigger] timer_scheduled(loops[j], loops[j + 1], ids[j]),
        0 <= k < loops.len(),
    ensures
        loops[k].next_timer_id == k + 1,
    decreases k,
{
    if k > 0 {
        lemma_timer_ids_prefix(loops, ids, k - 1);
        let j = k - 1;
        assert(timer_scheduled(loops[j], loops[j + 1], ids[j]));
    }
}

/// A new live timer makes the earlier of its firing time and the earliest
/// one before it the next firing time.
pub proof fn lemma_next_time_after_schedule(q: Seq<MacrotaskModel>, t: MacrotaskModel, before: Option<u64>)
    requires
        !t.cancelled,
        before is None <==> !any_live(q),
        before matches Some(x) ==> is_earliest_time(q, x),
    ensures
        is_earliest_time(
            q.push(t),
            match before {
                None => t.fire_at,
                Some(x) => if x <= t.fire_at {
                    x
                } else {
                    t.fire_at
                },
            },
        ),
{
    let r = q.push(t);
    let e = match before {
        None => t.fire_at,
        Some(x) => if x <= t.fire_at {
            x
        } else {
            t.fire_at
        },
    };
    assert(r[q.len() as int] == t);
    match before {
        None => {
            assert(!r[q.len() as int].cancelled && r[q.len() as int].fire_at == e);
            assert forall|j: int| 0 <= j < r.len() && !(#[trigger] r[j]).cancelled implies e <= r[j].fire_at by {
                if j < q.len() {
                    assert(r[j] == q[j]);
                    assert(!any_live(q));
                }
            }
        },
        Some(x) => {
            if x <= t.fire_at {
                let i = choose|i: int| 0 <= i < q.len() && !(#[trigger] q[i]).cancelled && q[i].fire_at == x;
                assert(r[i] == q[i]);
                assert(!r[i].cancelled && r[i].fire_at == e);
            } else {
                assert(!r[q.len() as int].cancelled && r[q.len() as int].fire_at == e);
            }
            assert forall|j: int| 0 <= j < r.len() && !(#[trigger] r[j]).cancelled implies e <= r[j].fire_at by {
                if j < q.len() {
                    assert(r[j] == q[j]);
                    assert(!q[j].cancelled);
                }
            }
        },
    }
}

/// After running to completion nothing is left to do: no timer is live.
pub proof fn lemma_run_leaves_no_live_timer(q: Seq<MacrotaskModel>)
    ensures
        !any_live(cancelled_only(q)),
    decreases q.len(),
{
    if q.len() > 0 {
        lemma_run_leaves_no_live_timer(q.drop_last());
        let c = cancelled_only(q.drop_last());
        if q.last().cancelled {
            assert forall|j: int| 0 <= j < c.push(q.last()).len() implies (#[trigger] c.push(q.last())[j]).cancelled by {
                if j < c.len() {
                    assert(c.push(q.last())[j] == c[j]);
                }
            }
        }
    }
}

/// A drain takes something exactly when the queue is not empty, and never
/// more than the queue holds.
pub proof fn lemma_drain_count_bounds(len: nat, budget: usize)
    ensures
        drain_count(len, budget) <= len,
        (drain_count(len, budget) > 0) == (len > 0),
        budget > 0 ==> drain_count(len, budget) <= budget,
{
}

/// A cancelled timer is never due.
pub proof fn lemma_cancelled_timer_never_ready(q: Seq<MacrotaskModel>, id: u64, i: int, now: u64)
    requires
        is_first_with_id(q, id, i),
    ensures
        !is_ready(q.update(i, MacrotaskModel { cancelled: true, ..q[i] })[i], now),
{
}

} // verus!