//! The actor system: actors with priority mailboxes, Erlang-style
//! supervision of children by their parents, routing of messages to groups
//! of actors, and dead letters for what could not be delivered.
use vstd::prelude::*;
use std::collections::{HashMap, VecDeque};
use std::time::{Duration, Instant};
use rustc_hash::FxBuildHasher;
use vstd::string::StringSliceAdditionalSpecFns;
use crate::event_loop::{instant_elapsed, instant_now, duration_as_nanos, duration_nanos};
use crate::text::{decimal, push_decimal, push_str, string_of};

verus! {

// ───────────────────────────── Identifiers ─────────────────────────────

/// Identifies an actor.
#[derive(Debug, Clone, Copy, PartialEq, Eq, Hash, Structural)]
pub struct ActorId(pub u64);

impl ActorId {
    /// The text `actor-N`.
    pub fn display_string(&self) -> (r: String)
        ensures
            r@ == "actor-"@ + decimal(self.0 as nat),
    {
        let mut s = string_of("actor-");
        push_decimal(&mut s, self.0);
        s
    }
}

// ───────────────────────────── Messages ─────────────────────────────

/// How urgent a message is; a higher priority is delivered first.
#[derive(Debug, Clone, Copy, PartialEq, Eq, PartialOrd, Ord, Hash, Structural)]
pub enum MessagePriority {
    Low,
    Normal,
    High,
    System,
}

/// The rank of a priority: `Low` 0, `Normal` 1, `High` 2, `System` 3.
pub open spec fn rank(p: MessagePriority) -> nat {
    match p {
        MessagePriority::Low => 0,
        MessagePriority::Normal => 1,
        MessagePriority::High => 2,
        MessagePriority::System => 3,
    }
}

fn priority_rank(p: MessagePriority) -> (r: u8)
    ensures
        r == rank(p),
{
    match p {
        MessagePriority::Low => 0,
        MessagePriority::Normal => 1,
        MessagePriority::High => 2,
        MessagePriority::System => 3,
    }
}

/// `serde_json::Value::clone`: a copy equal to the original.
#[verifier::external_body]
pub(crate) fn json_value_clone(v: &serde_json::Value) -> (r: serde_json::Value)
    ensures
        r == *v,
{
    v.clone()
}

/// A message between actors.  Payloads are JSON values, which the system
/// carries without reading them.
#[derive(Debug)]
pub enum ActorMessage {
    /// A message of the application.
    User(serde_json::Value),
    /// A request that expects a response.
    Request { id: String, payload: serde_json::Value },
    /// The response to a request.
    Response { id: String, payload: serde_json::Value },
    /// A message meant for many actors.
    Broadcast(serde_json::Value),
    /// A message to pass on to another actor.
    Forward { target: ActorId, message: Box<ActorMessage> },
}

impl Clone for ActorMessage {
    fn clone(&self) -> (r: Self)
        ensures
            r == *self,
        decreases self,
    {
        match self {
            ActorMessage::User(v) => ActorMessage::User(json_value_clone(v)),
            ActorMessage::Request { id, payload } => ActorMessage::Request {
                id: id.clone(),
                payload: json_value_clone(payload),
            },
            ActorMessage::Response { id, payload } => ActorMessage::Response {
                id: id.clone(),
                payload: json_value_clone(payload),
            },
            ActorMessage::Broadcast(v) => ActorMessage::Broadcast(json_value_clone(v)),
            ActorMessage::Forward { target, message } => {
                let inner: &ActorMessage = message;
                ActorMessage::Forward { target: *target, message: Box::new(inner.clone()) }
            },
        }
    }
}

/// A message as it waits in a mailbox, with its sender, priority and the
/// instant it was sent.
#[derive(Debug)]
pub struct Envelope {
    pub sender: Option<ActorId>,
    pub message: ActorMessage,
    pub priority: MessagePriority,
    pub timestamp: Instant,
}

impl Clone for Envelope {
    fn clone(&self) -> (r: Self)
        ensures
            r == *self,
    {
        Envelope {
            sender: self.sender,
            message: self.message.clone(),
            priority: self.priority,
            timestamp: self.timestamp,
        }
    }
}

/// A message that controls an actor's lifecycle.
#[derive(Debug, Clone, Copy, PartialEq, Eq, Structural)]
pub enum SystemMessage {
    Start,
    Stop,
    Restart,
    Suspend,
    Resume,
    Watch(ActorId),
    Unwatch(ActorId),
    Terminate,
}

// ───────────────────────────── Mailbox ─────────────────────────────

/// What a full mailbox does with a new message.
#[derive(Debug, Clone, Copy, PartialEq, Eq, Structural)]
pub enum OverflowStrategy {
    /// Refuse the new message.
    DropNewest,
    /// Drop the oldest waiting message to make room.
    DropOldest,
    /// Refuse the new message, reporting it to the sender.
    RejectNew,
}

/// A mailbox: the waiting messages, highest priority first and in the order
/// they came within a priority, and a separate queue of system messages.
#[derive(Debug)]
pub struct Mailbox {
    queue: VecDeque<Envelope>,
    /// When each waiting message arrived, by the mailbox's own count.
    arrivals: VecDeque<u64>,
    system_queue: VecDeque<SystemMessage>,
    capacity: usize,
    overflow_strategy: OverflowStrategy,
    next_arrival: u64,
}

/// No message waits behind one of lower priority.
pub open spec fn by_priority(q: Seq<Envelope>) -> bool {
    forall|i: int, j: int| 0 <= i < j < q.len() ==> rank(#[trigger] q[i].priority) >= rank(#[trigger] q[j].priority)
}

/// Where a message of priority `p` goes: before the first message of lower
/// priority, or at the end.
pub open spec fn insertion_index(q: Seq<Envelope>, p: MessagePriority) -> int
    decreases q.len(),
{
    if q.len() == 0 {
        0
    } else if rank(q[0].priority) < rank(p) {
        0
    } else {
        1 + insertion_index(q.drop_first(), p)
    }
}

proof fn lemma_insertion_index(q: Seq<Envelope>, p: MessagePriority, k: int)
    requires
        0 <= k <= q.len(),
        forall|j: int| 0 <= j < k ==> rank(#[trigger] q[j].priority) >= rank(p),
        k < q.len() ==> rank(q[k].priority) < rank(p),
    ensures
        insertion_index(q, p) == k,
    decreases k,
{
    if k > 0 {
        assert(rank(q[0].priority) >= rank(p));
        let r = q.drop_first();
        assert forall|j: int| 0 <= j < k - 1 implies rank(#[trigger] r[j].priority) >= rank(p) by {
            assert(r[j] == q[j + 1]);
        }
        if k - 1 < r.len() {
            assert(r[k - 1] == q[k]);
        }
        lemma_insertion_index(r, p, k - 1);
    }
}

/// The place of the earliest arrival: the first of the smallest stamps.
pub open spec fn earliest_index(s: Seq<u64>) -> int
    decreases s.len(),
{
    if s.len() <= 1 {
        0
    } else {
        let k = earliest_index(s.drop_last());
        if s.last() < s[k] {
            s.len() - 1
        } else {
            k
        }
    }
}

/// The earliest arrival is at a place of the sequence, and no stamp is
/// smaller than its own.
pub proof fn lemma_earliest_index(s: Seq<u64>)
    requires
        s.len() > 0,
    ensures
        0 <= earliest_index(s) < s.len(),
        forall|j: int| 0 <= j < s.len() ==> s[earliest_index(s)] <= #[trigger] s[j],
    decreases s.len(),
{
    if s.len() > 1 {
        let t = s.drop_last();
        lemma_earliest_index(t);
        assert forall|j: int| 0 <= j < s.len() implies s[earliest_index(s)] <= #[trigger] s[j] by {
            if j < s.len() - 1 {
                assert(s[j] == t[j]);
            }
        }
    }
}

/// `q` without the message that arrived first by the stamps `s`, if any.
pub open spec fn without_first_arrived<T>(q: Seq<T>, s: Seq<u64>) -> Seq<T> {
    if q.len() > 0 {
        q.remove(earliest_index(s))
    } else {
        q
    }
}

/// The arrival count after one more arrival; it stays at its largest value.
pub open spec fn next_count(n: u64) -> u64 {
    if n < u64::MAX {
        (n + 1) as u64
    } else {
        n
    }
}

/// The waiting messages after `e` is accepted into `q`.
pub open spec fn with_message(q: Seq<Envelope>, e: Envelope) -> Seq<Envelope> {
    q.insert(insertion_index(q, e.priority), e)
}

impl Mailbox {
    /// The waiting messages, in the order they will be taken.
    pub closed spec fn waiting(&self) -> Seq<Envelope> {
        self.queue@
    }

    /// When each waiting message arrived, by the mailbox's own count, in the
    /// order of [`Mailbox::waiting`].
    pub closed spec fn stamps(&self) -> Seq<u64> {
        self.arrivals@
    }

    /// The count the next message gets as its arrival.
    pub closed spec fn next_stamp(&self) -> u64 {
        self.next_arrival
    }

    /// The waiting system messages, oldest first.
    pub closed spec fn waiting_system(&self) -> Seq<SystemMessage> {
        self.system_queue@
    }

    /// How many messages the mailbox holds before it overflows.
    pub closed spec fn limit(&self) -> usize {
        self.capacity
    }

    /// What the mailbox does when full.
    pub closed spec fn overflow(&self) -> OverflowStrategy {
        self.overflow_strategy
    }

    /// The mailbox keeps its messages by priority.
    pub closed spec fn wf(&self) -> bool {
        by_priority(self.queue@) && self.arrivals@.len() == self.queue@.len()
    }

    /// A well-formed mailbox holds its messages by priority, with one
    /// arrival stamp for each waiting message.
    pub proof fn lemma_waiting_by_priority(&self)
        requires
            self.wf(),
        ensures
            by_priority(self.waiting()),
            self.stamps().len() == self.waiting().len(),
    {
    }

    /// An empty mailbox of the given capacity that drops its oldest message
    /// when full.
    pub fn new(capacity: usize) -> (r: Self)
        ensures
            r.wf(),
            r.waiting().len() == 0,
            r.waiting_system().len() == 0,
            r.limit() == capacity,
            r.overflow() == OverflowStrategy::DropOldest,
    {
        Mailbox {
            queue: VecDeque::new(),
            arrivals: VecDeque::new(),
            system_queue: VecDeque::new(),
            capacity,
            overflow_strategy: OverflowStrategy::DropOldest,
            next_arrival: 0,
        }
    }

    /// The mailbox with another overflow strategy.
    pub fn with_overflow_strategy(self, strategy: OverflowStrategy) -> (r: Self)
        ensures
            r.wf() == self.wf(),
            r.waiting() == self.waiting(),
            r.stamps() == self.stamps(),
            r.next_stamp() == self.next_stamp(),
            r.waiting_system() == self.waiting_system(),
            r.limit() == self.limit(),
            r.overflow() == strategy,
    {
        let mut m = self;
        m.overflow_strategy = strategy;
        m
    }

    /// Where a message of priority `p` goes in the queue.
    fn position_for(&self, p: MessagePriority) -> (r: usize)
        ensures
            r == insertion_index(self.queue@, p),
    {
        let pr = priority_rank(p);
        let mut i: usize = 0;
        while i < self.queue.len()
            invariant
                i <= self.queue@.len(),
                pr == rank(p),
                forall|j: int| 0 <= j < i ==> rank(#[trigger] self.queue@[j].priority) >= rank(p),
            decreases self.queue@.len() - i,
        {
            if priority_rank(self.queue[i].priority) < pr {
                proof {
                    lemma_insertion_index(self.queue@, p, i as int);
                }
                return i;
            }
            i = i + 1;
        }
        proof {
            lemma_insertion_index(self.queue@, p, i as int);
        }
        i
    }

    /// The place of the message that arrived first.
    fn earliest_position(&self) -> (r: usize)
        requires
            self.arrivals@.len() > 0,
        ensures
            r == earliest_index(self.arrivals@),
    {
        let n = self.arrivals.len();
        let mut best: usize = 0;
        let mut i: usize = 1;
        assert(self.arrivals@.take(1).len() == 1);
        while i < n
            invariant
                n == self.arrivals@.len(),
                1 <= i <= n,
                best == earliest_index(self.arrivals@.take(i as int)),
                best < i,
            decreases n - i,
        {
            let ghost t = self.arrivals@.take(i as int + 1);
            assert(t.drop_last() =~= self.arrivals@.take(i as int));
            if self.arrivals[i] < self.arrivals[best] {
                best = i;
            }
            i = i + 1;
        }
        assert(self.arrivals@.take(n as int) =~= self.arrivals@);
        best
    }

    /// Offer a message.  A full mailbox (as many messages as its capacity)
    /// refuses it under `DropNewest` and `RejectNew`, and drops the message
    /// that arrived first under `DropOldest`.  An accepted message goes
    /// before the first message of lower priority.  The result says whether
    /// the message was accepted.
    pub fn enqueue(&mut self, envelope: Envelope) -> (accepted: bool)
        requires
            old(self).wf(),
        ensures
            final(self).wf(),
            final(self).waiting_system() == old(self).waiting_system(),
            final(self).limit() == old(self).limit(),
            final(self).overflow() == old(self).overflow(),
            accepted == (old(self).waiting().len() < old(self).limit() || old(self).overflow()
                == OverflowStrategy::DropOldest),
            !accepted ==> *final(self) == *old(self),
            final(self).stamps().len() == final(self).waiting().len(),
            accepted ==> final(self).next_stamp() == next_count(old(self).next_stamp()),
            accepted ==> final(self).waiting().len() == if old(self).waiting().len() >= old(self).limit()
                && old(self).waiting().len() > 0 {
                old(self).waiting().len()
            } else {
                old(self).waiting().len() + 1
            },
            accepted && old(self).waiting().len() < old(self).limit() ==> (final(self).waiting()
                == with_message(old(self).waiting(), envelope)
                && final(self).stamps() == old(self).stamps().insert(
                    insertion_index(old(self).waiting(), envelope.priority), old(self).next_stamp())),
            accepted && old(self).waiting().len() >= old(self).limit() ==> ({
                let q = without_first_arrived(old(self).waiting(), old(self).stamps());
                let st = without_first_arrived(old(self).stamps(), old(self).stamps());
                &&& final(self).waiting() == with_message(q, envelope)
                &&& final(self).stamps() == st.insert(insertion_index(q, envelope.priority), old(self).next_stamp())
            }),
    {
        if self.queue.len() >= self.capacity {
            match self.overflow_strategy {
                OverflowStrategy::DropNewest => {
                    return false;
                },
                OverflowStrategy::DropOldest => {
                    if self.queue.len() > 0 {
                        let k = self.earliest_position();
                        proof {
                            lemma_earliest_index(self.arrivals@);
                        }
                        let _ = self.queue.remove(k);
                        let _ = self.arrivals.remove(k);
                        assert forall|i: int, j: int| 0 <= i < j < self.queue@.len() implies rank(#[trigger] self.queue@[i].priority)
                            >= rank(#[trigger] self.queue@[j].priority) by {
                            let a = if i < k { i } else { i + 1 };
                            let b = if j < k { j } else { j + 1 };
                            assert(self.queue@[i] == old(self).queue@[a]);
                            assert(self.queue@[j] == old(self).queue@[b]);
                        }
                    }
                },
                OverflowStrategy::RejectNew => {
                    return false;
                },
            }
        }
        let ghost q = self.queue@;
        let ghost st = self.arrivals@;
        let pos = self.position_for(envelope.priority);
        proof {
            lemma_insert_keeps_order(q, envelope);
        }
        let stamp = self.next_arrival;
        if pos < self.queue.len() {
            self.queue.insert(pos, envelope);
            self.arrivals.insert(pos, stamp);
        } else {
            self.queue.push_back(envelope);
            self.arrivals.push_back(stamp);
            assert(self.queue@ =~= q.insert(pos as int, envelope));
            assert(self.arrivals@ =~= st.insert(pos as int, stamp));
        }
        self.next_arrival = if self.next_arrival < u64::MAX { self.next_arrival + 1 } else { self.next_arrival };
        true
    }

    /// Take the next message: the first of the highest priority.
    pub fn dequeue(&mut self) -> (r: Option<Envelope>)
        requires
            old(self).wf(),
        ensures
            final(self).wf(),
            final(self).waiting_system() == old(self).waiting_system(),
            final(self).limit() == old(self).limit(),
            final(self).overflow() == old(self).overflow(),
            match r {
                Some(e) => old(self).waiting().len() > 0 && e == old(self).waiting()[0]
                    && final(self).waiting() == old(self).waiting().drop_first(),
                None => old(self).waiting().len() == 0 && final(self).waiting() == old(self).waiting(),
            },
            final(self).stamps() == if r is Some { old(self).stamps().drop_first() } else { old(self).stamps() },
            final(self).next_stamp() == old(self).next_stamp(),
    {
        let r = self.queue.pop_front();
        let _ = self.arrivals.pop_front();
        proof {
            if r is Some {
                assert(self.queue@ =~= old(self).queue@.drop_first());
                assert(self.arrivals@ =~= old(self).arrivals@.drop_first());
            }
        }
        r
    }

    /// Queue a system message; these are always accepted.
    pub fn push_system(&mut self, msg: SystemMessage)
        ensures
            final(self).waiting_system() == old(self).waiting_system().push(msg),
            final(self).waiting() == old(self).waiting(),
            final(self).stamps() == old(self).stamps(),
            final(self).next_stamp() == old(self).next_stamp(),
            final(self).wf() == old(self).wf(),
            final(self).limit() == old(self).limit(),
            final(self).overflow() == old(self).overflow(),
    {
        self.system_queue.push_back(msg);
    }

    /// Take the oldest system message.
    pub fn pop_system(&mut self) -> (r: Option<SystemMessage>)
        ensures
            final(self).waiting() == old(self).waiting(),
            final(self).stamps() == old(self).stamps(),
            final(self).next_stamp() == old(self).next_stamp(),
            final(self).wf() == old(self).wf(),
            final(self).limit() == old(self).limit(),
            final(self).overflow() == old(self).overflow(),
            match r {
                Some(m) => old(self).waiting_system().len() > 0 && m == old(self).waiting_system()[0]
                    && final(self).waiting_system() == old(self).waiting_system().drop_first(),
                None => old(self).waiting_system().len() == 0 && final(self).waiting_system()
                    == old(self).waiting_system(),
            },
    {
        let r = self.system_queue.pop_front();
        proof {
            if r is Some {
                assert(self.system_queue@ =~= old(self).system_queue@.drop_first());
            }
        }
        r
    }

    /// The number of waiting messages.
    pub fn len(&self) -> (r: usize)
        ensures
            r == self.waiting().len(),
    {
        self.queue.len()
    }

    /// Whether no message waits.
    pub fn is_empty(&self) -> (r: bool)
        ensures
            r == (self.waiting().len() == 0),
    {
        self.queue.len() == 0
    }

    /// The number of waiting system messages.
    pub fn system_len(&self) -> (r: usize)
        ensures
            r == self.waiting_system().len(),
    {
        self.system_queue.len()
    }

    /// The mailbox's capacity.
    pub fn capacity(&self) -> (r: usize)
        ensures
            r == self.limit(),
    {
        self.capacity
    }
}

/// A message put at its insertion index keeps a queue ordered by priority.
pub proof fn lemma_insert_keeps_order(q: Seq<Envelope>, e: Envelope)
    requires
        by_priority(q),
    ensures
        0 <= insertion_index(q, e.priority) <= q.len(),
        by_priority(with_message(q, e)),
    decreases q.len(),
{
    let k = insertion_index(q, e.priority);
    if q.len() > 0 && rank(q[0].priority) >= rank(e.priority) {
        let r = q.drop_first();
        assert forall|i: int, j: int| 0 <= i < j < r.len() implies rank(#[trigger] r[i].priority) >= rank(
            #[trigger] r[j].priority,
        ) by {
            assert(r[i] == q[i + 1] && r[j] == q[j + 1]);
        }
        lemma_insert_keeps_order(r, e);
        assert(with_message(q, e) =~= seq![q[0]] + with_message(r, e));
        let w = with_message(q, e);
        let wr = with_message(r, e);
        assert forall|i: int, j: int| 0 <= i < j < w.len() implies rank(#[trigger] w[i].priority) >= rank(
            #[trigger] w[j].priority,
        ) by {
            if i == 0 {
                assert(w[j] == wr[j - 1]);
                if wr[j - 1] == e {
                } else {
                    let jj = j - 1;
                    if jj < insertion_index(r, e.priority) {
                        assert(wr[jj] == r[jj]);
                        assert(r[jj] == q[jj + 1]);
                    } else {
                        assert(wr[jj] == r[jj - 1]);
                        assert(r[jj - 1] == q[jj]);
                    }
                }
            } else {
                assert(w[i] == wr[i - 1] && w[j] == wr[j - 1]);
            }
        }
    } else {
        assert forall|i: int, j: int| 0 <= i < j < with_message(q, e).len() implies rank(
            #[trigger] with_message(q, e)[i].priority,
        ) >= rank(#[trigger] with_message(q, e)[j].priority) by {
            let w = with_message(q, e);
            if i == 0 {
                assert(w[0] == e);
                if q.len() > 0 {
                    assert(w[j] == q[j - 1]);
                    if j - 1 > 0 {
                        assert(rank(q[0].priority) >= rank(q[j - 1].priority));
                    }
                }
            } else {
                assert(w[i] == q[i - 1] && w[j] == q[j - 1]);
            }
        }
    }
}

proof fn lemma_insertion_bounds(q: Seq<Envelope>, p: MessagePriority)
    ensures
        0 <= insertion_index(q, p) <= q.len(),
        forall|j: int| 0 <= j < insertion_index(q, p) ==> rank(#[trigger] q[j].priority) >= rank(p),
        by_priority(q) ==> forall|j: int| insertion_index(q, p) <= j < q.len() ==> rank(#[trigger] q[j].priority) < rank(p),
    decreases q.len(),
{
    if q.len() > 0 {
        let r = q.drop_first();
        if rank(q[0].priority) < rank(p) {
            if by_priority(q) {
                assert forall|j: int| 0 <= j < q.len() implies rank(#[trigger] q[j].priority) < rank(p) by {
                    if j > 0 {
                        assert(rank(q[0].priority) >= rank(q[j].priority));
                    }
                }
            }
        } else {
            lemma_insertion_bounds(r, p);
            assert forall|j: int| 0 <= j < insertion_index(q, p) implies rank(#[trigger] q[j].priority) >= rank(p) by {
                if j > 0 {
                    assert(q[j] == r[j - 1]);
                }
            }
            if by_priority(q) {
                assert(by_priority(r)) by {
                    assert forall|i: int, j: int| 0 <= i < j < r.len() implies rank(#[trigger] r[i].priority) >= rank(
                        #[trigger] r[j].priority,
                    ) by {
                        assert(r[i] == q[i + 1] && r[j] == q[j + 1]);
                    }
                }
                assert forall|j: int| insertion_index(q, p) <= j < q.len() implies rank(#[trigger] q[j].priority) < rank(p) by {
                    assert(q[j] == r[j - 1]);
                }
            }
        }
    }
}

/// Where an accepted message goes among messages kept by priority: after
/// every message of its priority or higher and before every one of lower
/// priority, the others keeping their order; the messages stay by priority.
pub proof fn lemma_message_placement(q: Seq<Envelope>, e: Envelope)
    requires
        by_priority(q),
    ensures
        ({
            let k = insertion_index(q, e.priority);
            let w = with_message(q, e);
            &&& 0 <= k <= q.len()
            &&& w.len() == q.len() + 1
            &&& w[k] == e
            &&& w.remove(k) == q
            &&& forall|j: int| 0 <= j < k ==> rank(#[trigger] w[j].priority) >= rank(e.priority)
            &&& forall|j: int| k < j < w.len() ==> rank(#[trigger] w[j].priority) < rank(e.priority)
            &&& by_priority(w)
        }),
{
    lemma_insertion_bounds(q, e.priority);
    lemma_insert_keeps_order(q, e);
    let k = insertion_index(q, e.priority);
    let w = with_message(q, e);
    assert(w.remove(k) =~= q);
    assert forall|j: int| 0 <= j < k implies rank(#[trigger] w[j].priority) >= rank(e.priority) by {
        assert(w[j] == q[j]);
    }
    assert forall|j: int| k < j < w.len() implies rank(#[trigger] w[j].priority) < rank(e.priority) by {
        assert(w[j] == q[j - 1]);
    }
}

// ───────────────────────────── Lifecycle ─────────────────────────────

/// Where an actor is in its life.
#[derive(Debug, PartialEq, Eq)]
pub enum ActorLifecycle {
    Created,
    Starting,
    Running,
    Suspended,
    Stopping,
    Stopped,
    Failed(String),
}

impl Clone for ActorLifecycle {
    fn clone(&self) -> (r: Self)
        ensures
            r == *self,
    {
        match self {
            ActorLifecycle::Created => ActorLifecycle::Created,
            ActorLifecycle::Starting => ActorLifecycle::Starting,
            ActorLifecycle::Running => ActorLifecycle::Running,
            ActorLifecycle::Suspended => ActorLifecycle::Suspended,
            ActorLifecycle::Stopping => ActorLifecycle::Stopping,
            ActorLifecycle::Stopped => ActorLifecycle::Stopped,
            ActorLifecycle::Failed(e) => ActorLifecycle::Failed(e.clone()),
        }
    }
}

/// An actor as the system keeps it.
#[derive(Debug)]
pub struct ActorCell {
    pub id: ActorId,
    pub name: String,
    pub mailbox: Mailbox,
    pub state: ActorLifecycle,
    pub parent: Option<ActorId>,
    pub children: Vec<ActorId>,
    pub restart_count: u32,
    pub created_at: Instant,
    pub last_message_at: Option<Instant>,
    pub message_count: u64,
}

impl ActorCell {
    /// A new actor: created, without parent or children, with an empty
    /// mailbox of the given capacity, no messages and no restarts.
    pub fn new(id: ActorId, name: String, mailbox_capacity: usize) -> (r: Self)
        ensures
            r.id == id,
            r.name == name,
            r.mailbox.wf(),
            r.mailbox.waiting().len() == 0,
            r.mailbox.waiting_system().len() == 0,
            r.mailbox.limit() == mailbox_capacity,
            r.mailbox.overflow() == OverflowStrategy::DropOldest,
            r.state == ActorLifecycle::Created,
            r.parent is None,
            r.children@.len() == 0,
            r.restart_count == 0,
            r.last_message_at is None,
            r.message_count == 0,
    {
        ActorCell {
            id,
            name,
            mailbox: Mailbox::new(mailbox_capacity),
            state: ActorLifecycle::Created,
            parent: None,
            children: Vec::new(),
            restart_count: 0,
            created_at: instant_now(),
            last_message_at: None,
            message_count: 0,
        }
    }
}

// ───────────────────────────── Supervision ─────────────────────────────

/// Which children a supervisor restarts when one fails.
#[derive(Debug, Clone, Copy, PartialEq, Eq, Structural)]
pub enum SupervisionType {
    /// Only the failed child.
    OneForOne,
    /// All children.
    OneForAll,
    /// The failed child and the children that came after it.
    RestForOne,
    /// None: the failure goes up to the supervisor's own parent.
    Escalate,
}

/// A supervisor's strategy, with the instants of its recent restarts.
#[derive(Debug)]
pub struct SupervisorStrategy {
    pub strategy: SupervisionType,
    pub max_restarts: u32,
    pub within_duration: Duration,
    pub restart_history: Vec<Instant>,
}

impl Clone for SupervisorStrategy {
    fn clone(&self) -> (r: Self)
        ensures
            r.strategy == self.strategy,
            r.max_restarts == self.max_restarts,
            r.within_duration == self.within_duration,
            r.restart_history@ == self.restart_history@,
    {
        let mut history: Vec<Instant> = Vec::new();
        let mut i: usize = 0;
        while i < self.restart_history.len()
            invariant
                i <= self.restart_history@.len(),
                history@ == self.restart_history@.take(i as int),
            decreases self.restart_history@.len() - i,
        {
            history.push(self.restart_history[i]);
            assert(self.restart_history@.take(i as int + 1) =~= self.restart_history@.take(i as int).push(
                self.restart_history@[i as int],
            ));
            i = i + 1;
        }
        assert(self.restart_history@.take(i as int) =~= self.restart_history@);
        SupervisorStrategy {
            strategy: self.strategy,
            max_restarts: self.max_restarts,
            within_duration: self.within_duration,
            restart_history: history,
        }
    }
}

/// `Instant::duration_since`: the wall-clock time between the two instants;
/// nothing is promised of it.
#[verifier::external_body]
pub(crate) fn instant_duration_since(later: &Instant, earlier: &Instant) -> Duration {
    later.duration_since(*earlier)
}

impl SupervisorStrategy {
    /// A strategy that allows `max_restarts` restarts within `within`.
    pub fn new(strategy: SupervisionType, max_restarts: u32, within: Duration) -> (r: Self)
        ensures
            r.strategy == strategy,
            r.max_restarts == max_restarts,
            r.within_duration == within,
            r.restart_history@.len() == 0,
    {
        SupervisorStrategy { strategy, max_restarts, within_duration: within, restart_history: Vec::new() }
    }

    /// Record a restart at `now`, where `ages` are how long ago each
    /// recorded restart was: keep those younger than the window, in order,
    /// then `now`, and say whether more restarts than allowed are left.
    pub fn record_restart_at(&mut self, now: Instant, ages: &Vec<Duration>) -> (exceeded: bool)
        requires
            ages@.len() == old(self).restart_history@.len(),
        ensures
            final(self).strategy == old(self).strategy,
            final(self).max_restarts == old(self).max_restarts,
            final(self).within_duration == old(self).within_duration,
            final(self).restart_history@ == within_window(old(self).restart_history@, ages@, old(self).within_duration).push(now),
            exceeded == ((final(self).restart_history@.len() as u32) > final(self).max_restarts),
    {
        let window = duration_as_nanos(&self.within_duration);
        let mut kept: Vec<Instant> = Vec::new();
        let mut i: usize = 0;
        while i < self.restart_history.len()
            invariant
                i <= self.restart_history@.len(),
                ages@.len() == self.restart_history@.len(),
                window == duration_nanos(self.within_duration),
                kept@ == within_window(self.restart_history@.take(i as int), ages@.take(i as int), self.within_duration),
            decreases self.restart_history@.len() - i,
        {
            proof {
                assert(self.restart_history@.take(i as int + 1).drop_last() =~= self.restart_history@.take(i as int));
                assert(ages@.take(i as int + 1).drop_last() =~= ages@.take(i as int));
            }
            let t = self.restart_history[i];
            if duration_as_nanos(&ages[i]) < window {
                kept.push(t);
            }
            i = i + 1;
        }
        proof {
            assert(self.restart_history@.take(i as int) =~= self.restart_history@);
            assert(ages@.take(i as int) =~= ages@);
        }
        kept.push(now);
        self.restart_history = kept;
        (self.restart_history.len() as u32) > self.max_restarts
    }

    /// Record a restart now: forget the restarts older than the window,
    /// remember this one, and say whether more restarts than allowed are
    /// left in the window.  How old the recorded restarts are is the clock's
    /// to say; [`SupervisorStrategy::record_restart_at`] does the rest.
    pub fn record_restart(&mut self) -> (exceeded: bool)
        ensures
            final(self).strategy == old(self).strategy,
            final(self).max_restarts == old(self).max_restarts,
            final(self).within_duration == old(self).within_duration,
            exists|now: Instant, ages: Seq<Duration>|
                #[trigger] restart_recorded(old(self).restart_history@, final(self).restart_history@, old(self).within_duration, now, ages),
            1 <= final(self).restart_history@.len() <= old(self).restart_history@.len() + 1,
            exceeded == ((final(self).restart_history@.len() as u32) > final(self).max_restarts),
    {
        let now = instant_now();
        let mut ages: Vec<Duration> = Vec::new();
        let mut i: usize = 0;
        while i < self.restart_history.len()
            invariant
                i <= self.restart_history@.len(),
                ages@.len() == i,
            decreases self.restart_history@.len() - i,
        {
            ages.push(instant_duration_since(&now, &self.restart_history[i]));
            i = i + 1;
        }
        proof {
            lemma_within_window_len(self.restart_history@, ages@, self.within_duration);
        }
        let exceeded = self.record_restart_at(now, &ages);
        assert(restart_recorded(old(self).restart_history@, self.restart_history@, old(self).within_duration, now, ages@));
        exceeded
    }
}

/// `after` is `before` with a restart recorded at `now`, the recorded ones
/// being `ages` old: those younger than the window, in order, then `now`.
pub open spec fn restart_recorded(before: Seq<Instant>, after: Seq<Instant>, window: Duration, now: Instant, ages: Seq<Duration>) -> bool {
    ages.len() == before.len() && after == within_window(before, ages, window).push(now)
}

/// The instants of `hist` whose ages (in `ages`, place by place) are below
/// the window, in order.
pub open spec fn within_window(hist: Seq<Instant>, ages: Seq<Duration>, window: Duration) -> Seq<Instant>
    decreases hist.len(),
{
    if hist.len() == 0 {
        Seq::empty()
    } else {
        let rest = within_window(hist.drop_last(), ages.drop_last(), window);
        if duration_nanos(ages.last()) < duration_nanos(window) {
            rest.push(hist.last())
        } else {
            rest
        }
    }
}

/// No more instants are kept than there were.
pub proof fn lemma_within_window_len(hist: Seq<Instant>, ages: Seq<Duration>, window: Duration)
    ensures
        within_window(hist, ages, window).len() <= hist.len(),
    decreases hist.len(),
{
    if hist.len() > 0 {
        lemma_within_window_len(hist.drop_last(), ages.drop_last(), window);
    }
}

// ───────────────────────────── Routing ─────────────────────────────

/// How a router picks among the actors of a topic.
#[derive(Debug, Clone)]
pub enum RoutingStrategy {
    /// Each in turn, from the given index on.
    RoundRobin { index: usize },
    /// One picked by the clock.
    Random,
    /// All of them.
    Broadcast,
    /// The one at the topic's length in bytes, modulo their number.
    ConsistentHash,
}

/// A topic-keyed table of actor groups hashed with `rustc_hash`.
pub type RouteTable = HashMap<String, Vec<ActorId>, FxBuildHasher>;

/// The groups of a route table, by topic.
pub uninterp spec fn route_groups(m: RouteTable) -> Map<Seq<char>, Seq<ActorId>>;

/// No topic has a group.
pub open spec fn no_routes() -> Map<Seq<char>, Seq<ActorId>> {
    Map::empty()
}

/// `FxHashMap::default`: a table with no topic.
#[verifier::external_body]
fn routes_new() -> (r: RouteTable)
    ensures
        route_groups(r) == no_routes(),
{
    HashMap::default()
}

/// `HashMap::get`: the group of the topic, if it has one.
#[verifier::external_body]
fn routes_get<'a>(m: &'a RouteTable, topic: &str) -> (r: Option<&'a Vec<ActorId>>)
    ensures
        match r {
            Some(v) => route_groups(*m).contains_key(topic@) && route_groups(*m)[topic@] == v@,
            None => !route_groups(*m).contains_key(topic@),
        },
{
    m.get(topic)
}

/// `HashMap::insert`: the topic now has the group; other topics keep theirs.
#[verifier::external_body]
fn routes_insert(m: &mut RouteTable, topic: String, group: Vec<ActorId>)
    ensures
        route_groups(*final(m)) == route_groups(*old(m)).insert(topic@, group@),
{
    m.insert(topic, group);
}

/// `HashMap::remove`: the topic no longer has a group; the group it had is
/// returned.
#[verifier::external_body]
fn routes_remove(m: &mut RouteTable, topic: &str) -> (r: Option<Vec<ActorId>>)
    ensures
        route_groups(*final(m)) == route_groups(*old(m)).remove(topic@),
        match r {
            Some(v) => route_groups(*old(m)).contains_key(topic@) && route_groups(*old(m))[topic@] == v@,
            None => !route_groups(*old(m)).contains_key(topic@),
        },
{
    m.remove(topic)
}

/// `HashMap::keys`, each copied out: every topic once, in an order the
/// hasher decides.
#[verifier::external_body]
fn routes_topics(m: &RouteTable) -> (r: Vec<String>)
    ensures
        forall|i: int| 0 <= i < r@.len() ==> route_groups(*m).contains_key((#[trigger] r@[i])@),
        forall|i: int, j: int| 0 <= i < j < r@.len() ==> (#[trigger] r@[i])@ != (#[trigger] r@[j])@,
        forall|k: Seq<char>|
            route_groups(*m).contains_key(k) ==> exists|i: int| 0 <= i < r@.len() && (#[trigger] r@[i])@ == k,
{
    m.keys().cloned().collect()
}

/// `Duration::subsec_nanos`: the nanoseconds past the whole seconds.
#[verifier::external_body]
fn duration_subsec_nanos(d: &Duration) -> u32 {
    d.subsec_nanos()
}

/// Routes messages to groups of actors by topic.
#[derive(Debug)]
pub struct ActorRouter {
    routes: RouteTable,
    strategy: RoutingStrategy,
}

/// A group without the actor.
pub open spec fn without_actor(g: Seq<ActorId>, id: ActorId) -> Seq<ActorId> {
    g.filter(|a: ActorId| a != id)
}

impl ActorRouter {
    /// The groups, by topic.
    pub closed spec fn groups(&self) -> Map<Seq<char>, Seq<ActorId>> {
        route_groups(self.routes)
    }

    /// How the router picks.
    pub closed spec fn picking(&self) -> RoutingStrategy {
        self.strategy
    }

    /// A router with no topic.
    pub fn new(strategy: RoutingStrategy) -> (r: Self)
        ensures
            r.groups() == no_routes(),
            r.picking() == strategy,
    {
        ActorRouter { routes: routes_new(), strategy }
    }

    /// Add the actor at the end of the topic's group.
    pub fn add_route(&mut self, topic: &str, actor_id: ActorId)
        ensures
            final(self).picking() == old(self).picking(),
            final(self).groups() == old(self).groups().insert(
                topic@,
                if old(self).groups().contains_key(topic@) {
                    old(self).groups()[topic@]
                } else {
                    Seq::<ActorId>::empty()
                }.push(actor_id),
            ),
    {
        let mut group = match routes_remove(&mut self.routes, topic) {
            Some(g) => g,
            None => Vec::new(),
        };
        group.push(actor_id);
        routes_insert(&mut self.routes, string_of(topic), group);
        assert(route_groups(self.routes) =~= old(self).groups().insert(
            topic@,
            if old(self).groups().contains_key(topic@) {
                old(self).groups()[topic@]
            } else {
                Seq::<ActorId>::empty()
            }.push(actor_id),
        ));
    }

    /// Take the actor out of the topic's group.
    pub fn remove_route(&mut self, topic: &str, actor_id: ActorId)
        ensures
            final(self).picking() == old(self).picking(),
            final(self).groups() == if old(self).groups().contains_key(topic@) {
                old(self).groups().insert(topic@, without_actor(old(self).groups()[topic@], actor_id))
            } else {
                old(self).groups()
            },
    {
        if let Some(group) = routes_remove(&mut self.routes, topic) {
            let mut kept: Vec<ActorId> = Vec::new();
            let mut i: usize = 0;
            while i < group.len()
                invariant
                    i <= group@.len(),
                    kept@ == without_actor(group@.take(i as int), actor_id),
                decreases group@.len() - i,
            {
                proof {
                    reveal_with_fuel(Seq::filter, 1);
                    assert(group@.take(i as int + 1).drop_last() =~= group@.take(i as int));
                }
                if group[i] != actor_id {
                    kept.push(group[i]);
                }
                i = i + 1;
            }
            assert(group@.take(i as int) =~= group@);
            routes_insert(&mut self.routes, string_of(topic), kept);
        } else {
            assert(route_groups(self.routes) =~= old(self).groups());
        }
    }

    /// The actors a message on the topic goes to: none for a topic without
    /// actors; all of them when broadcasting; otherwise one: the next in
    /// turn (and the turn advances), the one the clock picks, or the one at
    /// the topic's byte length modulo the group's size.
    pub fn resolve(&mut self, topic: &str) -> (r: Vec<ActorId>)
        ensures
            final(self).groups() == old(self).groups(),
            !(old(self).groups().contains_key(topic@) && old(self).groups()[topic@].len() > 0) ==> r@.len() == 0
                && final(self).picking() == old(self).picking(),
            old(self).groups().contains_key(topic@) && old(self).groups()[topic@].len() > 0 ==> {
                let g = old(self).groups()[topic@];
                match old(self).picking() {
                    RoutingStrategy::RoundRobin { index } => r@ == seq![g[(index as int) % (g.len() as int)]]
                        && final(self).picking() == (RoutingStrategy::RoundRobin {
                        index: if index == usize::MAX {
                            0
                        } else {
                            (index + 1) as usize
                        },
                    }),
                    RoutingStrategy::Random => r@.len() == 1 && g.contains(r@[0]) && final(self).picking()
                        == old(self).picking(),
                    RoutingStrategy::Broadcast => r@ == g && final(self).picking() == old(self).picking(),
                    RoutingStrategy::ConsistentHash => r@ == seq![
                        g[(topic.spec_bytes().len() as usize as int) % (g.len() as int)],
                    ] && final(self).picking() == old(self).picking(),
                }
            },
    {
        let group = match routes_get(&self.routes, topic) {
            Some(g) => g,
            None => {
                return Vec::new();
            },
        };
        let n = group.len();
        if n == 0 {
            return Vec::new();
        }
        match &mut self.strategy {
            RoutingStrategy::RoundRobin { index } => {
                let id = group[*index % n];
                *index = index.wrapping_add(1);
                let mut r = Vec::new();
                r.push(id);
                r
            },
            RoutingStrategy::Random => {
                let start = instant_now();
                let pick = (duration_subsec_nanos(&instant_elapsed(&start)) as usize) % n;
                let mut r = Vec::new();
                r.push(group[pick]);
                assert(group@.contains(group@[pick as int]));
                r
            },
            RoutingStrategy::Broadcast => {
                let mut r: Vec<ActorId> = Vec::new();
                let mut i: usize = 0;
                while i < n
                    invariant
                        n == group@.len(),
                        i <= n,
                        r@ == group@.take(i as int),
                    decreases n - i,
                {
                    r.push(group[i]);
                    assert(group@.take(i as int + 1) =~= group@.take(i as int).push(group@[i as int]));
                    i = i + 1;
                }
                assert(group@.take(n as int) =~= group@);
                r
            },
            RoutingStrategy::ConsistentHash => {
                let hash = topic.len();
                let mut r = Vec::new();
                r.push(group[hash % n]);
                r
            },
        }
    }

    /// The topics, each once, in an order the table's hasher decides.
    pub fn topics(&self) -> (r: Vec<String>)
        ensures
            forall|i: int| 0 <= i < r@.len() ==> self.groups().contains_key((#[trigger] r@[i])@),
            forall|i: int, j: int| 0 <= i < j < r@.len() ==> (#[trigger] r@[i])@ != (#[trigger] r@[j])@,
            forall|k: Seq<char>|
                self.groups().contains_key(k) ==> exists|i: int| 0 <= i < r@.len() && (#[trigger] r@[i])@ == k,
    {
        routes_topics(&self.routes)
    }
}

// ───────────────────────────── Dead letters, statistics, configuration ─────────────────────────────

/// A message that could not be delivered, with the reason.
#[derive(Debug)]
pub struct DeadLetter {
    pub target: ActorId,
    pub message: ActorMessage,
    pub reason: String,
    pub timestamp: Instant,
}

/// Counters of the actor system.
#[derive(Debug, Clone, Copy)]
pub struct ActorSystemStats {
    pub total_actors_created: u64,
    pub total_messages_sent: u64,
    pub total_messages_delivered: u64,
    pub total_dead_letters: u64,
    pub total_restarts: u64,
    pub total_failures: u64,
}

impl Default for ActorSystemStats {
    /// All counters at zero.
    fn default() -> (r: Self)
        ensures
            r.total_actors_created == 0,
            r.total_messages_sent == 0,
            r.total_messages_delivered == 0,
            r.total_dead_letters == 0,
            r.total_restarts == 0,
            r.total_failures == 0,
    {
        ActorSystemStats {
            total_actors_created: 0,
            total_messages_sent: 0,
            total_messages_delivered: 0,
            total_dead_letters: 0,
            total_restarts: 0,
            total_failures: 0,
        }
    }
}

/// The actor system's limits.
#[derive(Debug, Clone, Copy)]
pub struct ActorSystemConfig {
    pub default_mailbox_capacity: usize,
    pub max_actors: usize,
    pub dead_letter_capacity: usize,
    pub default_overflow_strategy: OverflowStrategy,
}

impl Default for ActorSystemConfig {
    /// Mailboxes of 1000 messages, at most 10000 actors, the last 1000 dead
    /// letters, and dropping the oldest message of a full mailbox.
    fn default() -> (r: Self)
        ensures
            r.default_mailbox_capacity == 1000,
            r.max_actors == 10000,
            r.dead_letter_capacity == 1000,
            r.default_overflow_strategy == OverflowStrategy::DropOldest,
    {
        ActorSystemConfig {
            default_mailbox_capacity: 1000,
            max_actors: 10000,
            dead_letter_capacity: 1000,
            default_overflow_strategy: OverflowStrategy::DropOldest,
        }
    }
}

/// A snapshot of one actor's state and counters.
#[derive(Debug, Clone)]
pub struct ActorCellStats {
    pub id: ActorId,
    pub name: String,
    pub state: ActorLifecycle,
    pub mailbox_size: usize,
    pub message_count: u64,
    pub restart_count: u32,
    pub children_count: usize,
}

// ───────────────────────────── Actor-keyed tables ─────────────────────────────

/// A table keyed by actor, hashed with `rustc_hash`.
pub type ActorTable<V> = HashMap<ActorId, V, FxBuildHasher>;

/// No actor has an entry.
pub open spec fn no_entries<V>() -> Map<ActorId, V> {
    Map::empty()
}

/// `n` is the number of entries of a finite table.
pub open spec fn is_size<V>(n: usize, m: Map<ActorId, V>) -> bool {
    m.dom().finite() && n == m.dom().len()
}

/// `FxHashMap::default`: a table with no entry.
#[verifier::external_body]
fn table_new<V>() -> (r: ActorTable<V>)
    ensures
        r@ == no_entries::<V>(),
{
    HashMap::default()
}

/// `HashMap::get`: the entry of the actor, if it has one.
#[verifier::external_body]
fn table_get<'a, V>(m: &'a ActorTable<V>, k: &ActorId) -> (r: Option<&'a V>)
    ensures
        match r {
            Some(v) => m@.contains_key(*k) && m@[*k] == *v,
            None => !m@.contains_key(*k),
        },
{
    m.get(k)
}

/// `HashMap::insert`: the actor now has the entry; other actors keep theirs.
#[verifier::external_body]
fn table_insert<V>(m: &mut ActorTable<V>, k: ActorId, v: V)
    ensures
        final(m)@ == old(m)@.insert(k, v),
{
    m.insert(k, v);
}

/// `HashMap::remove`: the actor no longer has an entry; the one it had is
/// returned.
#[verifier::external_body]
fn table_remove<V>(m: &mut ActorTable<V>, k: &ActorId) -> (r: Option<V>)
    ensures
        final(m)@ == old(m)@.remove(*k),
        match r {
            Some(v) => old(m)@.contains_key(*k) && v == old(m)@[*k],
            None => !old(m)@.contains_key(*k),
        },
{
    m.remove(k)
}

/// `HashMap::len`: the number of entries.
#[verifier::external_body]
fn table_len<V>(m: &ActorTable<V>) -> (r: usize)
    ensures
        is_size(r, m@),
{
    m.len()
}

// ───────────────────────────── The actor system ─────────────────────────────

/// The actor system: its actors, their supervisors' strategies, the dead
/// letters, its limits and counters.  Actors get their ids from the system,
/// in increasing order from 1.
#[derive(Debug)]
pub struct ActorSystem {
    actors: ActorTable<ActorCell>,
    supervisors: ActorTable<SupervisorStrategy>,
    dead_letters: Vec<DeadLetter>,
    config: ActorSystemConfig,
    stats: ActorSystemStats,
    next_id: u64,
    next_request: u64,
}

/// The actor after a restart: running, with one more restart.
pub open spec fn restarted(c: ActorCell) -> ActorCell {
    ActorCell { state: ActorLifecycle::Running, restart_count: (c.restart_count + 1) as u32, ..c }
}

/// The actors after restarting each of `ids` in turn; ids without an actor
/// are passed over.
pub open spec fn restart_all(cells: Map<ActorId, ActorCell>, ids: Seq<ActorId>) -> Map<ActorId, ActorCell>
    decreases ids.len(),
{
    if ids.len() == 0 {
        cells
    } else {
        let before = restart_all(cells, ids.drop_last());
        let id = ids.last();
        if before.contains_key(id) {
            before.insert(id, restarted(before[id]))
        } else {
            before
        }
    }
}


/// `after` is `before` with its state set to a failure with the text
/// `error`.
pub open spec fn failed_as(before: ActorCell, after: ActorCell, error: Seq<char>) -> bool {
    &&& after.state matches ActorLifecycle::Failed(e) && e@ == error
    &&& after == ActorCell { state: after.state, ..before }
}

/// `after` holds the actors of `before`, the actor `id` (if there is one)
/// marked as failed with the text `error`.
pub open spec fn marked_failed(
    before: Map<ActorId, ActorCell>,
    after: Map<ActorId, ActorCell>,
    id: ActorId,
    error: Seq<char>,
) -> bool {
    &&& after.dom() == before.dom()
    &&& forall|k: ActorId| #[trigger] before.contains_key(k) && k != id ==> after[k] == before[k]
    &&& before.contains_key(id) ==> failed_as(before[id], after[id], error)
}

/// Every counter at zero.
pub open spec fn zero_counters() -> ActorSystemStats {
    ActorSystemStats {
        total_actors_created: 0,
        total_messages_sent: 0,
        total_messages_delivered: 0,
        total_dead_letters: 0,
        total_restarts: 0,
        total_failures: 0,
    }
}

/// How many times the message is passed on before it reaches its actor.
pub open spec fn hops(m: ActorMessage) -> nat
    decreases m,
{
    match m {
        ActorMessage::Forward { message, .. } => 1 + hops(*message),
        _ => 0,
    }
}

/// The actor a message sent to `target` ends up at.
pub open spec fn destination(target: ActorId, m: ActorMessage) -> ActorId
    decreases m,
{
    match m {
        ActorMessage::Forward { target: next, message } => destination(next, *message),
        _ => target,
    }
}

/// What is left of a message once every forward is unwrapped.
pub open spec fn unwrapped(m: ActorMessage) -> ActorMessage
    decreases m,
{
    match m {
        ActorMessage::Forward { message, .. } => unwrapped(*message),
        _ => m,
    }
}

/// The mailbox holds what `before` held with `e` accepted.
pub open spec fn accepted_into(before: Mailbox, after: Mailbox, e: Envelope) -> bool {
    &&& after.wf()
    &&& after.limit() == before.limit()
    &&& after.overflow() == before.overflow()
    &&& after.waiting_system() == before.waiting_system()
    &&& after.waiting() == with_message(
        if before.waiting().len() < before.limit() {
            before.waiting()
        } else {
            without_first_arrived(before.waiting(), before.stamps())
        },
        e,
    )
}

/// `after` is `before` with the message taken into its mailbox and counted.
pub open spec fn delivered(
    before: ActorCell,
    after: ActorCell,
    sender: Option<ActorId>,
    m: ActorMessage,
    priority: MessagePriority,
) -> bool {
    &&& after == ActorCell {
        mailbox: after.mailbox,
        message_count: (before.message_count + 1) as u64,
        last_message_at: after.last_message_at,
        ..before
    }
    &&& after.last_message_at is Some
    &&& exists|e: Envelope|
        e.sender == sender && e.message == m && e.priority == priority && #[trigger] accepted_into(
            before.mailbox,
            after.mailbox,
            e,
        )
}

/// `after` is the dead letters `before` with one more for `target`, the
/// oldest dropped when `capacity` are kept already.
pub open spec fn letter_added(
    before: Seq<DeadLetter>,
    after: Seq<DeadLetter>,
    capacity: usize,
    target: ActorId,
    m: ActorMessage,
    reason: Seq<char>,
) -> bool {
    let kept = if before.len() >= capacity {
        before.drop_first()
    } else {
        before
    };
    &&& after.len() == kept.len() + 1
    &&& after.take(kept.len() as int) == kept
    &&& after.last().target == target
    &&& after.last().message == m
    &&& after.last().reason@ == reason
}

/// The counters with one more of the given kind.
pub open spec fn one_more_dead_letter(s: ActorSystemStats) -> ActorSystemStats {
    ActorSystemStats { total_dead_letters: (s.total_dead_letters + 1) as u64, ..s }
}

/// The state an actor takes on for a system message.
pub open spec fn on_system_message(c: ActorCell, m: SystemMessage) -> ActorCell {
    match m {
        SystemMessage::Stop => ActorCell { state: ActorLifecycle::Stopping, ..c },
        SystemMessage::Suspend => ActorCell { state: ActorLifecycle::Suspended, ..c },
        SystemMessage::Resume => ActorCell { state: ActorLifecycle::Running, ..c },
        SystemMessage::Restart => restarted(c),
        SystemMessage::Terminate => ActorCell { state: ActorLifecycle::Stopped, ..c },
        _ => c,
    }
}

/// The size of the topic's group, none for a topic without one.
pub open spec fn group_size(groups: Map<Seq<char>, Seq<ActorId>>, topic: Seq<char>) -> nat {
    if groups.contains_key(topic) {
        groups[topic].len()
    } else {
        0
    }
}

fn copy_ids(v: &Vec<ActorId>) -> (r: Vec<ActorId>)
    ensures
        r@ == v@,
{
    let mut out: Vec<ActorId> = Vec::new();
    let mut i: usize = 0;
    while i < v.len()
        invariant
            i <= v@.len(),
            out@ == v@.take(i as int),
        decreases v@.len() - i,
    {
        out.push(v[i]);
        assert(v@.take(i as int + 1) =~= v@.take(i as int).push(v@[i as int]));
        i = i + 1;
    }
    assert(v@.take(i as int) =~= v@);
    out
}

fn not_found_text(id: ActorId) -> (r: String)
    ensures
        r@ == "actor actor-"@ + decimal(id.0 as nat) + " not found"@,
{
    let mut e = string_of("actor ");
    let d = id.display_string();
    push_str(&mut e, d.as_str());
    push_str(&mut e, " not found");
    proof {
        reveal_strlit("actor ");
        reveal_strlit("actor-");
        reveal_strlit("actor actor-");
        assert(e@ =~= "actor actor-"@ + decimal(id.0 as nat) + " not found"@);
    }
    e
}

impl ActorSystem {
    /// The actors, by id.
    pub closed spec fn cells(&self) -> Map<ActorId, ActorCell> {
        self.actors@
    }

    /// The supervisors' strategies, by the supervising actor's id.
    pub closed spec fn strategies(&self) -> Map<ActorId, SupervisorStrategy> {
        self.supervisors@
    }

    /// The dead letters kept, oldest first.
    pub closed spec fn letters(&self) -> Seq<DeadLetter> {
        self.dead_letters@
    }

    /// The limits the system was made with.
    pub closed spec fn settings(&self) -> ActorSystemConfig {
        self.config
    }

    /// The counters.
    pub closed spec fn counters(&self) -> ActorSystemStats {
        self.stats
    }

    /// The id the next actor gets.
    pub closed spec fn id_counter(&self) -> u64 {
        self.next_id
    }

    /// The number the next request gets.
    pub closed spec fn request_counter(&self) -> u64 {
        self.next_request
    }

    /// The actor `k` is consistent: it carries its id, was numbered by the
    /// system, its mailbox is ordered, its messages are counted among the
    /// delivered ones, and its children came after it.
    pub closed spec fn cell_wf(&self, k: ActorId) -> bool {
        let c = self.actors@[k];
        &&& c.id == k
        &&& k.0 < self.next_id
        &&& c.mailbox.wf()
        &&& c.message_count <= self.stats.total_messages_delivered
        &&& forall|j: int| 0 <= j < c.children@.len() ==> k.0 < (#[trigger] c.children@[j]).0 < self.next_id
        &&& c.children@.no_duplicates()
    }

    /// The system is consistent.
    pub closed spec fn wf(&self) -> bool {
        &&& self.next_id >= 1
        &&& self.stats.total_actors_created < self.next_id
        &&& self.stats.total_messages_delivered + self.stats.total_dead_letters <= self.stats.total_messages_sent
        &&& forall|k: ActorId| #[trigger] self.actors@.contains_key(k) ==> self.cell_wf(k)
    }

    /// A system with no actor, supervisor or dead letter, the given limits,
    /// every counter at zero, and ids and request numbers from 1.
    pub fn new(config: ActorSystemConfig) -> (r: Self)
        ensures
            r.wf(),
            r.cells() == no_entries::<ActorCell>(),
            r.strategies() == no_entries::<SupervisorStrategy>(),
            r.letters().len() == 0,
            r.settings() == config,
            r.counters() == zero_counters(),
            r.id_counter() == 1,
            r.request_counter() == 1,
    {
        ActorSystem {
            actors: table_new(),
            supervisors: table_new(),
            dead_letters: Vec::new(),
            config,
            stats: ActorSystemStats::default(),
            next_id: 1,
            next_request: 1,
        }
    }

    /// Spawn an actor, running, under the given parent: refused when the
    /// system has `max_actors` actors already.  The new actor takes the next
    /// id, and becomes the last child of its parent when the parent is an
    /// actor of the system.
    pub fn spawn_actor(&mut self, name: &str, parent: Option<ActorId>) -> (r: Result<ActorId, String>)
        requires
            old(self).wf(),
            old(self).id_counter() < u64::MAX,
        ensures
            final(self).wf(),
            final(self).strategies() == old(self).strategies(),
            final(self).letters() == old(self).letters(),
            final(self).settings() == old(self).settings(),
            final(self).request_counter() == old(self).request_counter(),
            old(self).cells().dom().len() >= old(self).settings().max_actors ==> (r matches Err(e) && e@
                == "actor system capacity reached"@) && final(self).cells() == old(self).cells()
                && final(self).counters() == old(self).counters() && final(self).id_counter() == old(
                self,
            ).id_counter(),
            old(self).cells().dom().len() < old(self).settings().max_actors ==> {
                let id = ActorId(old(self).id_counter());
                let new_cell = final(self).cells()[id];
                &&& r == Ok::<ActorId, String>(id)
                &&& !old(self).cells().contains_key(id)
                &&& final(self).id_counter() == old(self).id_counter() + 1
                &&& final(self).counters() == ActorSystemStats {
                    total_actors_created: (old(self).counters().total_actors_created + 1) as u64,
                    ..old(self).counters()
                }
                &&& final(self).cells().dom() == old(self).cells().dom().insert(id)
                &&& forall|k: ActorId|
                    #[trigger] old(self).cells().contains_key(k) && parent != Some(k) ==> final(self).cells()[k]
                        == old(self).cells()[k]
                &&& forall|p: ActorId|
                    parent == Some(p) && #[trigger] old(self).cells().contains_key(p) ==> final(self).cells()[p]
                        == ActorCell { children: final(self).cells()[p].children, ..old(self).cells()[p] }
                        && final(self).cells()[p].children@ == old(self).cells()[p].children@.push(id)
                &&& new_cell.id == id
                &&& new_cell.name@ == name@
                &&& new_cell.state == ActorLifecycle::Running
                &&& new_cell.parent == parent
                &&& new_cell.children@.len() == 0
                &&& new_cell.restart_count == 0
                &&& new_cell.message_count == 0
                &&& new_cell.last_message_at is None
                &&& new_cell.mailbox.wf()
                &&& new_cell.mailbox.waiting().len() == 0
                &&& new_cell.mailbox.waiting_system().len() == 0
                &&& new_cell.mailbox.limit() == old(self).settings().default_mailbox_capacity
                &&& new_cell.mailbox.overflow() == OverflowStrategy::DropOldest
            },
    {
        if table_len(&self.actors) >= self.config.max_actors {
            return Err(string_of("actor system capacity reached"));
        }
        let id = ActorId(self.next_id);
        self.next_id = self.next_id + 1;
        let mut cell = ActorCell::new(id, string_of(name), self.config.default_mailbox_capacity);
        cell.parent = parent;
        cell.state = ActorLifecycle::Running;
        if let Some(pid) = parent {
            if let Some(mut pc) = table_remove(&mut self.actors, &pid) {
                pc.children.push(id);
                table_insert(&mut self.actors, pid, pc);
            }
        }
        table_insert(&mut self.actors, id, cell);
        self.stats.total_actors_created = self.stats.total_actors_created + 1;
        proof {
            assert(!old(self).actors@.contains_key(id)) by {
                if old(self).actors@.contains_key(id) {
                    assert(old(self).cell_wf(id));
                }
            }
            assert forall|k: ActorId| #[trigger] self.actors@.contains_key(k) implies self.cell_wf(k) by {
                if k != id {
                    assert(old(self).actors@.contains_key(k));
                    assert(old(self).cell_wf(k));
                }
            }
            assert(self.actors@.dom() =~= old(self).actors@.dom().insert(id));
        }
        Ok(id)
    }

    /// Stop the actor and, before it, each of its children in turn (with
    /// theirs); the actor leaves its parent's children and the system.
    /// Refused for an id without an actor.  Only actors that came after it
    /// can leave with it.
    pub fn stop_actor(&mut self, id: ActorId) -> (r: Result<(), String>)
        requires
            old(self).wf(),
        ensures
            final(self).wf(),
            final(self).strategies() == old(self).strategies(),
            final(self).letters() == old(self).letters(),
            final(self).settings() == old(self).settings(),
            final(self).counters() == old(self).counters(),
            final(self).id_counter() == old(self).id_counter(),
            final(self).request_counter() == old(self).request_counter(),
            r is Ok <==> old(self).cells().contains_key(id),
            r matches Err(e) ==> e@ == "actor actor-"@ + decimal(id.0 as nat) + " not found"@,
            !final(self).cells().contains_key(id),
            final(self).cells().dom().subset_of(old(self).cells().dom()),
            forall|k: ActorId|
                #[trigger] old(self).cells().contains_key(k) && k.0 < id.0 ==> final(self).cells().contains_key(k),
        decreases old(self).id_counter() - id.0,
    {
        let children: Vec<ActorId> = match table_get(&self.actors, &id) {
            Some(c) => copy_ids(&c.children),
            None => Vec::new(),
        };
        proof {
            if old(self).actors@.contains_key(id) {
                assert(old(self).cell_wf(id));
            }
        }
        let mut i: usize = 0;
        while i < children.len()
            invariant
                i <= children@.len(),
                self.wf(),
                self.supervisors@ == old(self).supervisors@,
                self.dead_letters@ == old(self).dead_letters@,
                self.config == old(self).config,
                self.stats == old(self).stats,
                self.next_id == old(self).next_id,
                self.next_request == old(self).next_request,
                forall|j: int| 0 <= j < children@.len() ==> id.0 < (#[trigger] children@[j]).0 < old(self).next_id,
                self.actors@.dom().subset_of(old(self).actors@.dom()),
                forall|k: ActorId|
                    #[trigger] old(self).actors@.contains_key(k) && k.0 <= id.0 ==> self.actors@.contains_key(k),
            decreases children@.len() - i,
        {
            let child = children[i];
            let _ = self.stop_actor(child);
            i = i + 1;
        }
        match table_remove(&mut self.actors, &id) {
            Some(cell) => {
                if let Some(pid) = cell.parent {
                    if let Some(mut pc) = table_remove(&mut self.actors, &pid) {
                        let mut kept: Vec<ActorId> = Vec::new();
                        let mut j: usize = 0;
                        while j < pc.children.len()
                            invariant
                                j <= pc.children@.len(),
                                forall|m: int| 0 <= m < kept@.len() ==> exists|n: int| 0 <= n < j && (#[trigger] kept@[m]) == pc.children@[n],
                                kept@.no_duplicates(),
                                pc.children@.no_duplicates(),
                            decreases pc.children@.len() - j,
                        {
                            if pc.children[j] != id {
                                kept.push(pc.children[j]);
                            }
                            j = j + 1;
                        }
                        pc.children = kept;
                        table_insert(&mut self.actors, pid, pc);
                        proof {
                            assert(old(self).actors@.contains_key(pid));
                        }
                    }
                }
                proof {
                    assert forall|k: ActorId| #[trigger] self.actors@.contains_key(k) implies self.cell_wf(k) by {
                        assert(old(self).actors@.contains_key(k));
                    }
                }
                Ok(())
            },
            None => Err(not_found_text(id)),
        }
    }

    fn record_dead_letter(&mut self, target: ActorId, message: ActorMessage, reason: String)
        requires
            old(self).config.dead_letter_capacity > 0,
            old(self).stats.total_dead_letters < u64::MAX,
        ensures
            final(self).actors@ == old(self).actors@,
            final(self).supervisors@ == old(self).supervisors@,
            final(self).config == old(self).config,
            final(self).stats == one_more_dead_letter(old(self).stats),
            final(self).next_id == old(self).next_id,
            final(self).next_request == old(self).next_request,
            letter_added(old(self).dead_letters@, final(self).dead_letters@, old(self).config.dead_letter_capacity, target, message, reason@),
    {
        self.stats.total_dead_letters = self.stats.total_dead_letters + 1;
        if self.dead_letters.len() >= self.config.dead_letter_capacity {
            let _ = self.dead_letters.remove(0);
        }
        let ghost kept = self.dead_letters@;
        self.dead_letters.push(DeadLetter { target, message, reason, timestamp: instant_now() });
        proof {
            assert(self.dead_letters@.take(kept.len() as int) =~= kept);
            if old(self).dead_letters@.len() >= old(self).config.dead_letter_capacity {
                assert(kept =~= old(self).dead_letters@.drop_first());
            }
        }
    }

    /// Deliver a message that is not a forward.
    fn deliver(
        &mut self,
        target: ActorId,
        sender: Option<ActorId>,
        message: ActorMessage,
        priority: MessagePriority,
    ) -> (r: Result<(), String>)
        requires
            old(self).wf(),
            old(self).config.dead_letter_capacity > 0,
            old(self).stats.total_messages_delivered + old(self).stats.total_dead_letters < old(self).stats.total_messages_sent,
        ensures
            final(self).wf(),
            final(self).supervisors@ == old(self).supervisors@,
            final(self).config == old(self).config,
            final(self).next_id == old(self).next_id,
            final(self).next_request == old(self).next_request,
            final(self).stats.total_messages_sent == old(self).stats.total_messages_sent,
            delivery_outcome(old(self).cells(), final(self).cells(), old(self).letters(), final(self).letters(),
                old(self).counters(), final(self).counters(), old(self).settings().dead_letter_capacity, target,
                sender, message, priority, r),
    {
        match table_remove(&mut self.actors, &target) {
            None => {
                assert(self.actors@ =~= old(self).actors@);
                self.record_dead_letter(target, message, string_of("actor not found"));
                Err(not_found_text(target))
            },
            Some(mut cell) => {
                proof {
                    assert(old(self).cell_wf(target));
                }
                let running = match cell.state {
                    ActorLifecycle::Running => true,
                    _ => false,
                };
                if !running {
                    table_insert(&mut self.actors, target, cell);
                    assert(self.actors@ =~= old(self).actors@);
                    self.record_dead_letter(target, message, string_of("actor not running"));
                    return Err(string_of("actor not running"));
                }
                let envelope = Envelope { sender, message: message.clone(), priority, timestamp: instant_now() };
                let ghost e = envelope;
                let ghost before = cell;
                if cell.mailbox.enqueue(envelope) {
                    cell.message_count = cell.message_count + 1;
                    cell.last_message_at = Some(instant_now());
                    assert(accepted_into(before.mailbox, cell.mailbox, e));
                    table_insert(&mut self.actors, target, cell);
                    self.stats.total_messages_delivered = self.stats.total_messages_delivered + 1;
                    proof {
                        assert forall|k: ActorId| #[trigger] self.actors@.contains_key(k) implies self.cell_wf(k) by {
                            if k != target {
                                assert(old(self).actors@.contains_key(k));
                                assert(old(self).cell_wf(k));
                            }
                        }
                    }
                    Ok(())
                } else {
                    table_insert(&mut self.actors, target, cell);
                    assert(self.actors@ =~= old(self).actors@);
                    self.record_dead_letter(target, message, string_of("mailbox full"));
                    Err(string_of("mailbox full"))
                }
            },
        }
    }

    /// Send a message: a forward is passed on to its target (each pass
    /// counted as a message sent); the message it holds is then delivered as
    /// `deliver` describes.
    pub fn send_message(
        &mut self,
        target: ActorId,
        sender: Option<ActorId>,
        message: ActorMessage,
        priority: MessagePriority,
    ) -> (r: Result<(), String>)
        requires
            old(self).wf(),
            old(self).settings().dead_letter_capacity > 0,
            old(self).counters().total_messages_sent + hops(message) < u64::MAX,
        ensures
            final(self).wf(),
            final(self).strategies() == old(self).strategies(),
            final(self).settings() == old(self).settings(),
            final(self).id_counter() == old(self).id_counter(),
            final(self).request_counter() == old(self).request_counter(),
            final(self).counters().total_messages_sent == old(self).counters().total_messages_sent + hops(message) + 1,
            delivery_outcome(
                old(self).cells(),
                final(self).cells(),
                old(self).letters(),
                final(self).letters(),
                ActorSystemStats {
                    total_messages_sent: final(self).counters().total_messages_sent,
                    ..old(self).counters()
                },
                final(self).counters(),
                old(self).settings().dead_letter_capacity,
                destination(target, message),
                sender,
                unwrapped(message),
                priority,
                r,
            ),
        decreases message,
    {
        self.stats.total_messages_sent = self.stats.total_messages_sent + 1;
        match message {
            ActorMessage::Forward { target: next, message: inner } => {
                self.send_message(next, sender, *inner, priority)
            },
            other => {
                self.deliver(target, sender, other, priority)
            },
        }
    }

    /// Send a request with a fresh id `req-N` and give that id back, or the
    /// error of sending it.
    pub fn ask(&mut self, target: ActorId, sender: ActorId, payload: serde_json::Value) -> (r: Result<String, String>)
        requires
            old(self).wf(),
            old(self).settings().dead_letter_capacity > 0,
            old(self).counters().total_messages_sent + 1 < u64::MAX,
            old(self).request_counter() < u64::MAX,
        ensures
            final(self).wf(),
            final(self).strategies() == old(self).strategies(),
            final(self).settings() == old(self).settings(),
            final(self).id_counter() == old(self).id_counter(),
            final(self).request_counter() == old(self).request_counter() + 1,
            final(self).counters().total_messages_sent == old(self).counters().total_messages_sent + 1,
            r matches Ok(id) ==> id@ == "req-"@ + decimal(old(self).request_counter() as nat),
            exists|m: ActorMessage|
                #[trigger] is_request(m, old(self).request_counter(), payload) && delivery_outcome(
                    old(self).cells(),
                    final(self).cells(),
                    old(self).letters(),
                    final(self).letters(),
                    ActorSystemStats {
                        total_messages_sent: final(self).counters().total_messages_sent,
                        ..old(self).counters()
                    },
                    final(self).counters(),
                    old(self).settings().dead_letter_capacity,
                    target,
                    Some(sender),
                    m,
                    MessagePriority::Normal,
                    match r {
                        Ok(_) => Ok::<(), String>(()),
                        Err(e) => Err::<(), String>(e),
                    },
                ),
    {
        let mut id = string_of("req-");
        push_decimal(&mut id, self.next_request);
        self.next_request = self.next_request + 1;
        let message = ActorMessage::Request { id: id.clone(), payload };
        let ghost m = message;
        let res = self.send_message(target, Some(sender), message, MessagePriority::Normal);
        assert(is_request(m, old(self).request_counter(), payload));
        proof {
            reveal_strlit("req-");
        }
        match res {
            Ok(()) => Ok(id),
            Err(e) => Err(e),
        }
    }

    /// Give the actor a supervisor strategy, replacing any it had.
    pub fn set_supervisor(&mut self, actor_id: ActorId, strategy: SupervisorStrategy)
        requires
            old(self).wf(),
        ensures
            final(self).wf(),
            final(self).strategies() == old(self).strategies().insert(actor_id, strategy),
            final(self).cells() == old(self).cells(),
            final(self).letters() == old(self).letters(),
            final(self).settings() == old(self).settings(),
            final(self).counters() == old(self).counters(),
            final(self).id_counter() == old(self).id_counter(),
            final(self).request_counter() == old(self).request_counter(),
    {
        table_insert(&mut self.supervisors, actor_id, strategy);
    }

    /// Let the actor handle its oldest system message, if any (stop,
    /// suspend, resume, restart or terminate it), then take its next message.
    /// Nothing for an id without an actor.
    pub fn process_mailbox(&mut self, actor_id: ActorId) -> (r: Option<Envelope>)
        requires
            old(self).wf(),
            old(self).cells().contains_key(actor_id) && old(self).cells()[actor_id].mailbox.waiting_system().len() > 0
                && old(self).cells()[actor_id].mailbox.waiting_system()[0] == SystemMessage::Restart
                ==> old(self).cells()[actor_id].restart_count < u32::MAX,
        ensures
            final(self).wf(),
            final(self).strategies() == old(self).strategies(),
            final(self).letters() == old(self).letters(),
            final(self).settings() == old(self).settings(),
            final(self).counters() == old(self).counters(),
            final(self).id_counter() == old(self).id_counter(),
            final(self).request_counter() == old(self).request_counter(),
            !old(self).cells().contains_key(actor_id) ==> r is None && final(self).cells() == old(self).cells(),
            old(self).cells().contains_key(actor_id) ==> {
                let c = old(self).cells()[actor_id];
                let c2 = final(self).cells()[actor_id];
                let handled = if c.mailbox.waiting_system().len() > 0 {
                    on_system_message(c, c.mailbox.waiting_system()[0])
                } else {
                    c
                };
                &&& final(self).cells().dom() == old(self).cells().dom()
                &&& forall|k: ActorId| #[trigger] old(self).cells().contains_key(k) && k != actor_id ==> final(self).cells()[k]
                    == old(self).cells()[k]
                &&& c2 == ActorCell { mailbox: c2.mailbox, ..handled }
                &&& c2.mailbox.wf()
                &&& c2.mailbox.limit() == c.mailbox.limit()
                &&& c2.mailbox.overflow() == c.mailbox.overflow()
                &&& c2.mailbox.waiting_system() == if c.mailbox.waiting_system().len() > 0 {
                    c.mailbox.waiting_system().drop_first()
                } else {
                    c.mailbox.waiting_system()
                }
                &&& match r {
                    Some(e) => c.mailbox.waiting().len() > 0 && e == c.mailbox.waiting()[0]
                        && c2.mailbox.waiting() == c.mailbox.waiting().drop_first(),
                    None => c.mailbox.waiting().len() == 0 && c2.mailbox.waiting() == c.mailbox.waiting(),
                }
            },
    {
        match table_remove(&mut self.actors, &actor_id) {
            None => {
                assert(self.actors@ =~= old(self).actors@);
                None
            },
            Some(mut cell) => {
                proof {
                    assert(old(self).cell_wf(actor_id));
                }
                if let Some(sys) = cell.mailbox.pop_system() {
                    match sys {
                        SystemMessage::Stop => {
                            cell.state = ActorLifecycle::Stopping;
                        },
                        SystemMessage::Suspend => {
                            cell.state = ActorLifecycle::Suspended;
                        },
                        SystemMessage::Resume => {
                            cell.state = ActorLifecycle::Running;
                        },
                        SystemMessage::Restart => {
                            cell.state = ActorLifecycle::Starting;
                            cell.restart_count = cell.restart_count + 1;
                            cell.state = ActorLifecycle::Running;
                        },
                        SystemMessage::Terminate => {
                            cell.state = ActorLifecycle::Stopped;
                        },
                        _ => {},
                    }
                }
                let r = cell.mailbox.dequeue();
                table_insert(&mut self.actors, actor_id, cell);
                proof {
                    assert forall|k: ActorId| #[trigger] self.actors@.contains_key(k) implies self.cell_wf(k) by {
                        if k != actor_id {
                            assert(old(self).actors@.contains_key(k));
                            assert(old(self).cell_wf(k));
                        }
                    }
                    assert(self.actors@.dom() =~= old(self).actors@.dom());
                }
                r
            },
        }
    }

    /// Queue a system message for the actor; nothing happens for an id
    /// without an actor.  The result says whether there was one.
    pub fn push_system(&mut self, actor_id: ActorId, msg: SystemMessage) -> (r: bool)
        requires
            old(self).wf(),
        ensures
            final(self).wf(),
            final(self).strategies() == old(self).strategies(),
            final(self).letters() == old(self).letters(),
            final(self).settings() == old(self).settings(),
            final(self).counters() == old(self).counters(),
            final(self).id_counter() == old(self).id_counter(),
            final(self).request_counter() == old(self).request_counter(),
            r == old(self).cells().contains_key(actor_id),
            final(self).cells().dom() == old(self).cells().dom(),
            forall|k: ActorId| #[trigger] old(self).cells().contains_key(k) && k != actor_id ==> final(self).cells()[k]
                == old(self).cells()[k],
            r ==> {
                let c = old(self).cells()[actor_id];
                let c2 = final(self).cells()[actor_id];
                &&& c2 == ActorCell { mailbox: c2.mailbox, ..c }
                &&& c2.mailbox.waiting_system() == c.mailbox.waiting_system().push(msg)
                &&& c2.mailbox.waiting() == c.mailbox.waiting()
                &&& c2.mailbox.limit() == c.mailbox.limit()
                &&& c2.mailbox.overflow() == c.mailbox.overflow()
            },
    {
        match table_remove(&mut self.actors, &actor_id) {
            None => {
                assert(self.actors@ =~= old(self).actors@);
                false
            },
            Some(mut cell) => {
                proof {
                    assert(old(self).cell_wf(actor_id));
                }
                cell.mailbox.push_system(msg);
                table_insert(&mut self.actors, actor_id, cell);
                proof {
                    assert forall|k: ActorId| #[trigger] self.actors@.contains_key(k) implies self.cell_wf(k) by {
                        if k != actor_id {
                            assert(old(self).actors@.contains_key(k));
                            assert(old(self).cell_wf(k));
                        }
                    }
                    assert(self.actors@.dom() =~= old(self).actors@.dom());
                }
                true
            },
        }
    }

    /// A snapshot of the actor's state and counters, if there is such an
    /// actor.
    pub fn get_actor_stats(&self, actor_id: ActorId) -> (r: Option<ActorCellStats>)
        ensures
            match r {
                Some(st) => self.cells().contains_key(actor_id) && {
                    let c = self.cells()[actor_id];
                    &&& st.id == c.id
                    &&& st.name == c.name
                    &&& st.state == c.state
                    &&& st.mailbox_size == c.mailbox.waiting().len()
                    &&& st.message_count == c.message_count
                    &&& st.restart_count == c.restart_count
                    &&& st.children_count == c.children@.len()
                },
                None => !self.cells().contains_key(actor_id),
            },
    {
        match table_get(&self.actors, &actor_id) {
            Some(cell) => Some(
                ActorCellStats {
                    id: cell.id,
                    name: cell.name.clone(),
                    state: cell.state.clone(),
                    mailbox_size: cell.mailbox.len(),
                    message_count: cell.message_count,
                    restart_count: cell.restart_count,
                    children_count: cell.children.len(),
                },
            ),
            None => None,
        }
    }

    /// The counters.
    pub fn stats(&self) -> (r: &ActorSystemStats)
        ensures
            *r == self.counters(),
    {
        &self.stats
    }

    /// The number of actors.
    pub fn actor_count(&self) -> (r: usize)
        ensures
            is_size(r, self.cells()),
    {
        table_len(&self.actors)
    }

    /// The dead letters kept, oldest first.
    pub fn dead_letters(&self) -> (r: &[DeadLetter])
        ensures
            r@ == self.letters(),
    {
        self.dead_letters.as_slice()
    }

    /// The failure of `id` needs at most `n` escalations and no counter
    /// overflows on the way: the chain of parents ends within `n` steps, the
    /// failure and restart counters have room for `n + 1` more, and every
    /// actor has room for one more restart.
    pub open spec fn fits_within(&self, id: ActorId, n: nat) -> bool {
        &&& chain_ends(self.cells(), id, n)
        &&& self.counters().total_failures + n + 1 <= u64::MAX
        &&& self.counters().total_restarts + n + 1 <= u64::MAX
        &&& forall|k: ActorId| #[trigger] self.cells().contains_key(k) ==> self.cells()[k].restart_count < u32::MAX
    }

    /// The failure of `id` can be handled without counter overflow or an
    /// endless escalation.
    pub open spec fn failure_fits(&self, id: ActorId) -> bool {
        exists|n: nat| self.fits_within(id, n)
    }

    /// Restart each actor of `ids` in turn.
    fn restart_each(&mut self, ids: &Vec<ActorId>)
        requires
            old(self).wf(),
            ids@.no_duplicates(),
            forall|k: ActorId| #[trigger] old(self).actors@.contains_key(k) ==> old(self).actors@[k].restart_count < u32::MAX,
        ensures
            final(self).wf(),
            final(self).actors@ == restart_all(old(self).actors@, ids@),
            final(self).supervisors@ == old(self).supervisors@,
            final(self).dead_letters@ == old(self).dead_letters@,
            final(self).config == old(self).config,
            final(self).stats == old(self).stats,
            final(self).next_id == old(self).next_id,
            final(self).next_request == old(self).next_request,
    {
        let mut i: usize = 0;
        while i < ids.len()
            invariant
                i <= ids@.len(),
                ids@.no_duplicates(),
                self.wf(),
                self.actors@ == restart_all(old(self).actors@, ids@.take(i as int)),
                self.supervisors@ == old(self).supervisors@,
                self.dead_letters@ == old(self).dead_letters@,
                self.config == old(self).config,
                self.stats == old(self).stats,
                self.next_id == old(self).next_id,
                self.next_request == old(self).next_request,
                forall|k: ActorId| #[trigger] old(self).actors@.contains_key(k) ==> old(self).actors@[k].restart_count < u32::MAX,
            decreases ids@.len() - i,
        {
            let id = ids[i];
            proof {
                assert(!ids@.take(i as int).contains(id)) by {
                    if ids@.take(i as int).contains(id) {
                        let j = choose|j: int| 0 <= j < i && ids@.take(i as int)[j] == id;
                        assert(ids@[j] == ids@[i as int]);
                    }
                }
                lemma_restart_all_untouched(old(self).actors@, ids@.take(i as int), id);
                assert(ids@.take(i as int + 1).drop_last() =~= ids@.take(i as int));
            }
            match table_remove(&mut self.actors, &id) {
                Some(mut cell) => {
                    let ghost before = cell;
                    cell.state = ActorLifecycle::Running;
                    cell.restart_count = cell.restart_count + 1;
                    table_insert(&mut self.actors, id, cell);
                    proof {
                        assert(cell == restarted(before));
                        assert(self.actors@ =~= restart_all(old(self).actors@, ids@.take(i as int + 1)));
                        assert forall|k: ActorId| #[trigger] self.actors@.contains_key(k) implies self.cell_wf(k) by {
                            assert(old(self).actors@.contains_key(k)) by {
                                lemma_restart_all_dom(old(self).actors@, ids@.take(i as int));
                            }
                        }
                    }
                },
                None => {
                    assert(self.actors@ =~= restart_all(old(self).actors@, ids@.take(i as int + 1)));
                },
            }
            i = i + 1;
        }
        assert(ids@.take(i as int) =~= ids@);
    }

    /// The actor's failure, with at most `n` escalations left.
    #[verifier::spinoff_prover]
    #[verifier::rlimit(40)]
    fn fail(&mut self, actor_id: ActorId, error: &str, Ghost(n): Ghost<nat>) -> (r: Result<(), String>)
        requires
            old(self).wf(),
            old(self).fits_within(actor_id, n),
        ensures
            final(self).wf(),
            failure_outcome(*old(self), *final(self), actor_id, error@, r),
        decreases n,
    {
        self.stats.total_failures = self.stats.total_failures + 1;
        let ghost cells0 = self.actors@;
        match table_remove(&mut self.actors, &actor_id) {
            Some(mut cell) => {
                cell.state = ActorLifecycle::Failed(string_of(error));
                table_insert(&mut self.actors, actor_id, cell);
            },
            None => {
                assert(self.actors@ =~= cells0);
            },
        }
        let ghost marked = self.actors@;
        proof {
            assert(marked.dom() =~= cells0.dom());
            assert(marked_failed(cells0, marked, actor_id, error@));
            assert forall|k: ActorId| #[trigger] self.actors@.contains_key(k) implies self.cell_wf(k) by {
                assert(old(self).actors@.contains_key(k));
                assert(old(self).cell_wf(k));
            }
        }
        let parent = match table_get(&self.actors, &actor_id) {
            Some(c) => c.parent,
            None => None,
        };
        let parent_id = match parent {
            Some(pid) => pid,
            None => {
                let r = Err(string_of("no supervisor for actor"));
                assert(failure_outcome_via(*old(self), *self, actor_id, error@, r, Seq::empty()));
                return r;
            },
        };
        let (exceeded, kind) = match table_remove(&mut self.supervisors, &parent_id) {
            None => {
                assert(self.supervisors@ =~= old(self).supervisors@);
                let r = Err(string_of("parent has no supervisor strategy"));
                assert(failure_outcome_via(*old(self), *self, actor_id, error@, r, Seq::empty()));
                return r;
            },
            Some(mut strategy) => {
                let ghost before = strategy;
                let exceeded = strategy.record_restart();
                proof {
                    if room_to_restart(before) {
                        assert(strategy.restart_history@.len() <= strategy.max_restarts);
                        assert(!exceeded);
                    }
                }
                let kind = strategy.strategy;
                table_insert(&mut self.supervisors, parent_id, strategy);
                (exceeded, kind)
            },
        };
        if exceeded {
            let r = Err(string_of("max restarts exceeded"));
            proof {
                assert(!room_to_restart(old(self).supervisors@[parent_id]));
                assert(failure_frame(*old(self), *self));
                assert(failure_outcome_via(*old(self), *self, actor_id, error@, r, Seq::empty()));
            }
            return r;
        }
        self.stats.total_restarts = self.stats.total_restarts + 1;
        let ghost marked_cells = self.actors@;
        match kind {
            SupervisionType::OneForOne => {
                let mut ids: Vec<ActorId> = Vec::new();
                ids.push(actor_id);
                self.restart_each(&ids);
                assert(ids@ =~= seq![actor_id]);
            },
            SupervisionType::OneForAll => {
                let siblings: Vec<ActorId> = match table_get(&self.actors, &parent_id) {
                    Some(c) => copy_ids(&c.children),
                    None => Vec::new(),
                };
                proof {
                    if self.actors@.contains_key(parent_id) {
                        assert(self.cell_wf(parent_id));
                    }
                }
                self.restart_each(&siblings);
            },
            SupervisionType::RestForOne => {
                let siblings: Vec<ActorId> = match table_get(&self.actors, &parent_id) {
                    Some(c) => copy_ids(&c.children),
                    None => Vec::new(),
                };
                proof {
                    if self.actors@.contains_key(parent_id) {
                        assert(self.cell_wf(parent_id));
                    }
                }
                let rest = rest_of(&siblings, actor_id);
                self.restart_each(&rest);
            },
            SupervisionType::Escalate => {
                proof {
                    lemma_chain_ends_same_parents(old(self).actors@, self.actors@, parent_id, (n - 1) as nat);
                }
                let ghost mid = *self;
                assert(escalated(*old(self), mid, actor_id, parent_id, error@));
                let r = self.fail(parent_id, error, Ghost((n - 1) as nat));
                proof {
                    lemma_strategies_kept_trans(old(self).strategies(), mid.strategies(), self.strategies());
                    let c = choose|c: Seq<ActorSystem>| #[trigger] failure_outcome_via(mid, *self, parent_id, error@, r, c);
                    let chain = seq![mid] + c;
                    assert(chain.drop_first() =~= c);
                    assert(chain[0] == mid);
                    assert(failure_frame(mid, *self));
                    assert(failure_frame(*old(self), *self));
                    assert(n > 0);
                    assert(old(self).cells()[actor_id].parent == Some(parent_id));
                    assert(failure_outcome_via(*old(self), *self, actor_id, error@, r, chain));
                }
                return r;
            },
        }
        proof {
            lemma_restart_all_dom(marked_cells, to_restart(kind, marked_cells, parent_id, actor_id));
            assert(marked_failed(old(self).cells(), marked_cells, actor_id, error@));
            assert(failure_outcome_via(*old(self), *self, actor_id, error@, Ok(()), Seq::empty()));
        }
        Ok(())
    }

    /// Fail the actor: mark it failed with `error` and let its parent's
    /// supervisor strategy decide: restart the failed actor, all the
    /// parent's children, or those from the failed one on; or escalate the
    /// failure to the parent.  Refused for an actor without a parent, or
    /// whose parent has no strategy, or when the strategy has restarted more
    /// often than it allows within its window.
    pub fn handle_actor_failure(&mut self, actor_id: ActorId, error: &str) -> (r: Result<(), String>)
        requires
            old(self).wf(),
            old(self).failure_fits(actor_id),
        ensures
            final(self).wf(),
            failure_outcome(*old(self), *final(self), actor_id, error@, r),
    {
        let ghost n = choose|n: nat| self.fits_within(actor_id, n);
        self.fail(actor_id, error, Ghost(n))
    }

    /// Send the message to each of `targets` from place `i` on, in turn,
    /// stopping at the first error.
    fn send_each(
        &mut self,
        targets: &Vec<ActorId>,
        i: usize,
        sender: Option<ActorId>,
        message: &ActorMessage,
        priority: MessagePriority,
    ) -> (r: Result<(), String>)
        requires
            old(self).wf(),
            old(self).settings().dead_letter_capacity > 0,
            i <= targets@.len(),
            old(self).counters().total_messages_sent + (targets@.len() - i) * (hops(*message) + 1) < u64::MAX,
        ensures
            final(self).wf(),
            exists|chain: Seq<(ActorSystem, Result<(), String>)>|
                #[trigger] routed_via(*old(self), *final(self), targets@.skip(i as int), sender, *message, priority, r, chain),
        decreases targets@.len() - i,
    {
        if i >= targets.len() {
            assert(routed_via(*old(self), *self, targets@.skip(i as int), sender, *message, priority, Ok(()), Seq::empty()));
            return Ok(());
        }
        let ghost h = hops(*message) + 1;
        proof {
            assert((targets@.len() - i) * h >= h) by (nonlinear_arith)
                requires
                    targets@.len() - i >= 1,
                    h >= 1,
            ;
            assert((targets@.len() - i) * h == (targets@.len() - (i + 1)) * h + h) by (nonlinear_arith);
        }
        let res = self.send_message(targets[i], sender, message.clone(), priority);
        let ghost mid = *self;
        assert(sent_one(*old(self), mid, targets@[i as int], sender, *message, priority, res));
        let ghost rest = targets@.skip(i as int);
        assert(rest[0] == targets@[i as int]);
        assert(rest.drop_first() =~= targets@.skip(i as int + 1));
        match res {
            Err(e) => {
                let r = Err(e);
                assert(routed_via(*old(self), *self, rest, sender, *message, priority, r, seq![(mid, res)]));
                r
            },
            Ok(()) => {
                let r = self.send_each(targets, i + 1, sender, message, priority);
                proof {
                    let c = choose|c: Seq<(ActorSystem, Result<(), String>)>|
                        #[trigger] routed_via(mid, *self, targets@.skip(i as int + 1), sender, *message, priority, r, c);
                    let chain = seq![(mid, res)] + c;
                    assert(chain.drop_first() =~= c);
                    assert(routed_via(*old(self), *self, rest, sender, *message, priority, r, chain));
                }
                r
            },
        }
    }

    /// Send the message to each actor the router resolves for the topic, in
    /// turn, stopping at the first error; refused when the topic resolves to
    /// no actor.  The result is the number of actors resolved.
    pub fn route_message(
        &mut self,
        router: &mut ActorRouter,
        topic: &str,
        sender: Option<ActorId>,
        message: ActorMessage,
        priority: MessagePriority,
    ) -> (r: Result<usize, String>)
        requires
            old(self).wf(),
            old(self).settings().dead_letter_capacity > 0,
            old(self).counters().total_messages_sent + group_size(old(router).groups(), topic@) * (hops(message) + 1)
                < u64::MAX,
        ensures
            final(self).wf(),
            final(router).groups() == old(router).groups(),
            group_size(old(router).groups(), topic@) == 0 ==> (r matches Err(e) && e@ == "no routes for topic '"@
                + topic@ + "'"@) && *final(self) == *old(self),
            group_size(old(router).groups(), topic@) > 0 ==> exists|targets: Seq<ActorId>, res: Result<(), String>, chain: Seq<(ActorSystem, Result<(), String>)>| {
                &&& #[trigger] routed_via(*old(self), *final(self), targets, sender, message, priority, res, chain)
                &&& resolved_by(*old(router), *final(router), topic, targets)
                &&& match res {
                    Ok(_) => r == Ok::<usize, String>(targets.len() as usize),
                    Err(e) => r == Err::<usize, String>(e),
                }
            },
    {
        let ghost r0 = *router;
        let targets = router.resolve(topic);
        if targets.len() == 0 {
            let mut e = string_of("no routes for topic '");
            push_str(&mut e, topic);
            push_str(&mut e, "'");
            return Err(e);
        }
        let count = targets.len();
        let ghost g = group_size(old(router).groups(), topic@);
        assert(count <= g);
        proof {
            assert(count * (hops(message) + 1) <= g * (hops(message) + 1)) by (nonlinear_arith)
                requires
                    count <= g,
            ;
            assert(targets@.skip(0) =~= targets@);
            assert(resolved_by(r0, *router, topic, targets@));
        }
        let res = self.send_each(&targets, 0, sender, &message, priority);
        match res {
            Ok(()) => Ok(count),
            Err(e) => Err(e),
        }
    }
}

/// `targets` are what `before` resolves for the topic, leaving `after`.
pub open spec fn resolved_by(before: ActorRouter, after: ActorRouter, topic: &str, targets: Seq<ActorId>) -> bool {
    &&& after.groups() == before.groups()
    &&& !(before.groups().contains_key(topic@) && before.groups()[topic@].len() > 0) ==> targets.len() == 0
        && after.picking() == before.picking()
    &&& before.groups().contains_key(topic@) && before.groups()[topic@].len() > 0 ==> {
        let g = before.groups()[topic@];
        match before.picking() {
            RoutingStrategy::RoundRobin { index } => targets == seq![g[(index as int) % (g.len() as int)]]
                && after.picking() == (RoutingStrategy::RoundRobin {
                index: if index == usize::MAX {
                    0
                } else {
                    (index + 1) as usize
                },
            }),
            RoutingStrategy::Random => targets.len() == 1 && g.contains(targets[0]) && after.picking()
                == before.picking(),
            RoutingStrategy::Broadcast => targets == g && after.picking() == before.picking(),
            RoutingStrategy::ConsistentHash => targets == seq![
                g[(topic.spec_bytes().len() as usize as int) % (g.len() as int)],
            ] && after.picking() == before.picking(),
        }
    }
}

/// `t` is `s` after sending `message` from `sender` to `target`: the message
/// counted as sent, once per forward too, and delivered as
/// [`delivery_outcome`] says, with `r` the result.
pub open spec fn sent_one(
    s: ActorSystem,
    t: ActorSystem,
    target: ActorId,
    sender: Option<ActorId>,
    message: ActorMessage,
    priority: MessagePriority,
    r: Result<(), String>,
) -> bool {
    &&& t.strategies() == s.strategies()
    &&& t.settings() == s.settings()
    &&& t.id_counter() == s.id_counter()
    &&& t.request_counter() == s.request_counter()
    &&& t.counters().total_messages_sent == s.counters().total_messages_sent + hops(message) + 1
    &&& delivery_outcome(
        s.cells(),
        t.cells(),
        s.letters(),
        t.letters(),
        ActorSystemStats { total_messages_sent: t.counters().total_messages_sent, ..s.counters() },
        t.counters(),
        s.settings().dead_letter_capacity,
        destination(target, message),
        sender,
        unwrapped(message),
        priority,
        r,
    )
}

/// `t` is `s` after sending `message` to each of `targets` in turn, up to
/// the first error, which is `r`; `chain` holds each send's system and
/// result.
pub open spec fn routed_via(
    s: ActorSystem,
    t: ActorSystem,
    targets: Seq<ActorId>,
    sender: Option<ActorId>,
    message: ActorMessage,
    priority: MessagePriority,
    r: Result<(), String>,
    chain: Seq<(ActorSystem, Result<(), String>)>,
) -> bool
    decreases targets.len(),
{
    if targets.len() == 0 {
        t == s && r is Ok
    } else {
        &&& chain.len() > 0
        &&& sent_one(s, chain[0].0, targets[0], sender, message, priority, chain[0].1)
        &&& match chain[0].1 {
            Err(e) => t == chain[0].0 && r == Err::<(), String>(e),
            Ok(_) => routed_via(chain[0].0, t, targets.drop_first(), sender, message, priority, r, chain.drop_first()),
        }
    }
}

impl Default for ActorSystem {
    /// A system with the default limits.
    fn default() -> (r: Self)
        ensures
            r.wf(),
            r.cells() == no_entries::<ActorCell>(),
            r.strategies() == no_entries::<SupervisorStrategy>(),
            r.letters().len() == 0,
            r.counters() == zero_counters(),
            r.id_counter() == 1,
            r.request_counter() == 1,
            r.settings().default_mailbox_capacity == 1000,
            r.settings().max_actors == 10000,
            r.settings().dead_letter_capacity == 1000,
            r.settings().default_overflow_strategy == OverflowStrategy::DropOldest,
    {
        ActorSystem::new(ActorSystemConfig::default())
    }
}


/// The chain of parents from `id` reaches an actor without a parent (or an
/// id without an actor) within `n` steps.
pub open spec fn chain_ends(cells: Map<ActorId, ActorCell>, id: ActorId, n: nat) -> bool
    decreases n,
{
    if cells.contains_key(id) {
        match cells[id].parent {
            None => true,
            Some(p) => n > 0 && chain_ends(cells, p, (n - 1) as nat),
        }
    } else {
        true
    }
}

proof fn lemma_chain_ends_same_parents(a: Map<ActorId, ActorCell>, b: Map<ActorId, ActorCell>, id: ActorId, n: nat)
    requires
        a.dom() == b.dom(),
        forall|k: ActorId| #[trigger] a.contains_key(k) ==> a[k].parent == b[k].parent,
        chain_ends(a, id, n),
    ensures
        chain_ends(b, id, n),
    decreases n,
{
    if a.contains_key(id) {
        assert(b.contains_key(id));
        match a[id].parent {
            None => {},
            Some(p) => {
                lemma_chain_ends_same_parents(a, b, p, (n - 1) as nat);
            },
        }
    }
}

proof fn lemma_restart_all_dom(cells: Map<ActorId, ActorCell>, ids: Seq<ActorId>)
    ensures
        restart_all(cells, ids).dom() == cells.dom(),
    decreases ids.len(),
{
    if ids.len() > 0 {
        lemma_restart_all_dom(cells, ids.drop_last());
        let before = restart_all(cells, ids.drop_last());
        if before.contains_key(ids.last()) {
            assert(before.insert(ids.last(), restarted(before[ids.last()])).dom() =~= before.dom());
        }
    }
}

proof fn lemma_restart_all_untouched(cells: Map<ActorId, ActorCell>, ids: Seq<ActorId>, k: ActorId)
    requires
        !ids.contains(k),
    ensures
        restart_all(cells, ids).contains_key(k) == cells.contains_key(k),
        cells.contains_key(k) ==> restart_all(cells, ids)[k] == cells[k],
    decreases ids.len(),
{
    if ids.len() > 0 {
        assert(!ids.drop_last().contains(k)) by {
            if ids.drop_last().contains(k) {
                let j = choose|j: int| 0 <= j < ids.drop_last().len() && ids.drop_last()[j] == k;
                assert(ids[j] == k);
            }
        }
        lemma_restart_all_untouched(cells, ids.drop_last(), k);
        assert(ids.last() != k) by {
            assert(ids[ids.len() - 1] == ids.last());
        }
    }
}

/// The first place of `id` among the children.
pub open spec fn first_place(children: Seq<ActorId>, id: ActorId) -> int {
    choose|k: int| 0 <= k < children.len() && children[k] == id && forall|j: int| 0 <= j < k ==> children[j] != id
}

/// The children from the first occurrence of `id` on, or none when it does
/// not occur.
pub open spec fn rest_from(children: Seq<ActorId>, id: ActorId) -> Seq<ActorId> {
    if children.contains(id) {
        children.subrange(first_place(children, id), children.len() as int)
    } else {
        Seq::empty()
    }
}

fn rest_of(children: &Vec<ActorId>, id: ActorId) -> (r: Vec<ActorId>)
    requires
        children@.no_duplicates(),
    ensures
        r@ == rest_from(children@, id),
        r@.no_duplicates(),
{
    let mut i: usize = 0;
    while i < children.len() && children[i] != id
        invariant
            i <= children@.len(),
            forall|j: int| 0 <= j < i ==> children@[j] != id,
        decreases children@.len() - i,
    {
        i = i + 1;
    }
    let mut out: Vec<ActorId> = Vec::new();
    if i == children.len() {
        assert(!children@.contains(id));
        assert(out@ =~= rest_from(children@, id));
        return out;
    }
    let start = i;
    proof {
        assert(children@.contains(id)) by {
            assert(children@[start as int] == id);
        }
        let k = first_place(children@, id);
        assert(k == start) by {
            if k < start {
                assert(children@[k] != id);
            }
            if k > start {
            }
        }
    }
    while i < children.len()
        invariant
            start <= i <= children@.len(),
            out@ == children@.subrange(start as int, i as int),
        decreases children@.len() - i,
    {
        out.push(children[i]);
        assert(children@.subrange(start as int, i as int + 1) =~= children@.subrange(start as int, i as int).push(
            children@[i as int],
        ));
        i = i + 1;
    }
    proof {
        assert forall|a: int, b: int| 0 <= a < b < out@.len() implies out@[a] != out@[b] by {
            assert(out@[a] == children@[start + a] && out@[b] == children@[start + b]);
        }
    }
    out
}

/// The actors a supervisor restarts when `id` fails, by its strategy.
pub open spec fn to_restart(
    kind: SupervisionType,
    cells: Map<ActorId, ActorCell>,
    parent: ActorId,
    id: ActorId,
) -> Seq<ActorId> {
    let siblings = if cells.contains_key(parent) {
        cells[parent].children@
    } else {
        Seq::empty()
    };
    match kind {
        SupervisionType::OneForOne => seq![id],
        SupervisionType::OneForAll => siblings,
        SupervisionType::RestForOne => rest_from(siblings, id),
        SupervisionType::Escalate => Seq::empty(),
    }
}

/// The strategies after one was asked for a restart: the same supervisors
/// with the same kinds and limits.
pub open spec fn strategies_kept(a: Map<ActorId, SupervisorStrategy>, b: Map<ActorId, SupervisorStrategy>) -> bool {
    &&& b.dom() == a.dom()
    &&& forall|k: ActorId|
        #[trigger] a.contains_key(k) ==> b[k].strategy == a[k].strategy && b[k].max_restarts == a[k].max_restarts
            && b[k].within_duration == a[k].within_duration
}

proof fn lemma_strategies_kept_trans(a: Map<ActorId, SupervisorStrategy>, b: Map<ActorId, SupervisorStrategy>, c: Map<ActorId, SupervisorStrategy>)
    requires
        strategies_kept(a, b),
        strategies_kept(b, c),
    ensures
        strategies_kept(a, c),
{
    assert forall|k: ActorId| #[trigger] a.contains_key(k) implies c[k].strategy == a[k].strategy
        && c[k].max_restarts == a[k].max_restarts && c[k].within_duration == a[k].within_duration by {
        assert(b.contains_key(k));
    }
}

/// What stays the same, or only grows, in a failure's handling from `s` to `t`.
pub open spec fn failure_frame(s: ActorSystem, t: ActorSystem) -> bool {
    &&& t.cells().dom() == s.cells().dom()
    &&& t.letters() == s.letters()
    &&& t.settings() == s.settings()
    &&& t.id_counter() == s.id_counter()
    &&& t.request_counter() == s.request_counter()
    &&& t.counters().total_actors_created == s.counters().total_actors_created
    &&& t.counters().total_messages_sent == s.counters().total_messages_sent
    &&& t.counters().total_messages_delivered == s.counters().total_messages_delivered
    &&& t.counters().total_dead_letters == s.counters().total_dead_letters
    &&& t.counters().total_failures > s.counters().total_failures
    &&& strategies_kept(s.strategies(), t.strategies())
}

/// The failure counted once more.
pub open spec fn one_more_failure(c: ActorSystemStats) -> ActorSystemStats {
    ActorSystemStats { total_failures: (c.total_failures + 1) as u64, ..c }
}

/// The failure and the restart counted once more.
pub open spec fn one_more_restart(c: ActorSystemStats) -> ActorSystemStats {
    ActorSystemStats { total_failures: (c.total_failures + 1) as u64, total_restarts: (c.total_restarts + 1) as u64, ..c }
}

/// `m` is `s` with `id` marked failed and a restart of its parent `p`
/// recorded and counted, before the failure goes up to `p`.
pub open spec fn escalated(s: ActorSystem, m: ActorSystem, id: ActorId, p: ActorId, error: Seq<char>) -> bool {
    &&& marked_failed(s.cells(), m.cells(), id, error)
    &&& m.letters() == s.letters()
    &&& m.settings() == s.settings()
    &&& m.id_counter() == s.id_counter()
    &&& m.request_counter() == s.request_counter()
    &&& m.counters() == one_more_restart(s.counters())
    &&& restart_noted(s.strategies(), m.strategies(), p)
    &&& !over_limit(m.strategies()[p])
}

/// The strategies `b` are `a` with a restart recorded in `p`'s (as
/// [`SupervisorStrategy::record_restart`] records one, at some instant,
/// the recorded restarts being of some ages), every other strategy
/// unchanged.
pub open spec fn restart_noted(a: Map<ActorId, SupervisorStrategy>, b: Map<ActorId, SupervisorStrategy>, p: ActorId) -> bool {
    &&& a.contains_key(p)
    &&& b.dom() == a.dom()
    &&& forall|k: ActorId| #[trigger] a.contains_key(k) && k != p ==> b[k] == a[k]
    &&& b[p].strategy == a[p].strategy
    &&& b[p].max_restarts == a[p].max_restarts
    &&& b[p].within_duration == a[p].within_duration
    &&& exists|now: Instant, ages: Seq<Duration>|
        #[trigger] restart_recorded(a[p].restart_history@, b[p].restart_history@, a[p].within_duration, now, ages)
}

/// The strategy holds more restarts within its window than it allows.
pub open spec fn over_limit(st: SupervisorStrategy) -> bool {
    (st.restart_history@.len() as u32) > st.max_restarts
}

/// The supervisor strategy has restarted fewer times within its window than
/// it allows, whatever the clock says of those restarts.
pub open spec fn room_to_restart(st: SupervisorStrategy) -> bool {
    st.restart_history@.len() < st.max_restarts
}

/// The parent `p`'s strategy refused another restart: the restart is
/// recorded in it and leaves it over its limit, `id` is marked failed and
/// the failure counted.  This happens only when the strategy had no room
/// for another restart.
pub open spec fn restart_refused(s: ActorSystem, t: ActorSystem, id: ActorId, p: ActorId, error: Seq<char>, r: Result<(), String>) -> bool {
    &&& !room_to_restart(s.strategies()[p])
    &&& restart_noted(s.strategies(), t.strategies(), p)
    &&& over_limit(t.strategies()[p])
    &&& r matches Err(e) && e@ == "max restarts exceeded"@
    &&& marked_failed(s.cells(), t.cells(), id, error)
    &&& t.counters() == one_more_failure(s.counters())
}

/// What failing `id` with `error` does to the system `s`, giving `t` and
/// `r`, where `chain` holds the system after each escalation in turn.
pub open spec fn failure_outcome_via(s: ActorSystem, t: ActorSystem, id: ActorId, error: Seq<char>, r: Result<(), String>, chain: Seq<ActorSystem>) -> bool
    decreases chain.len(),
{
    let parent = if s.cells().contains_key(id) {
        s.cells()[id].parent
    } else {
        None
    };
    &&& failure_frame(s, t)
    &&& match parent {
        None => {
            &&& r matches Err(e) && e@ == "no supervisor for actor"@
            &&& marked_failed(s.cells(), t.cells(), id, error)
            &&& t.strategies() == s.strategies()
            &&& t.counters() == one_more_failure(s.counters())
        },
        Some(p) => if !s.strategies().contains_key(p) {
            &&& r matches Err(e) && e@ == "parent has no supervisor strategy"@
            &&& marked_failed(s.cells(), t.cells(), id, error)
            &&& t.strategies() == s.strategies()
            &&& t.counters() == one_more_failure(s.counters())
        } else if s.strategies()[p].strategy == SupervisionType::Escalate {
            ||| restart_refused(s, t, id, p, error, r)
            ||| (chain.len() > 0 && escalated(s, chain[0], id, p, error)
                && failure_outcome_via(chain[0], t, p, error, r, chain.drop_first()))
        } else {
            ||| restart_refused(s, t, id, p, error, r)
            ||| {
                &&& r is Ok
                &&& restart_noted(s.strategies(), t.strategies(), p)
                &&& !over_limit(t.strategies()[p])
                &&& exists|marked: Map<ActorId, ActorCell>|
                    #[trigger] marked_failed(s.cells(), marked, id, error) && t.cells() == restart_all(
                        marked,
                        to_restart(s.strategies()[p].strategy, marked, p, id),
                    )
                &&& t.counters() == one_more_restart(s.counters())
            }
        },
    }
}

/// What failing `id` with `error` does to the system `s`, giving `t` and `r`.
pub open spec fn failure_outcome(s: ActorSystem, t: ActorSystem, id: ActorId, error: Seq<char>, r: Result<(), String>) -> bool {
    exists|chain: Seq<ActorSystem>| #[trigger] failure_outcome_via(s, t, id, error, r, chain)
}

/// `m` is the request `ask` sends with request number `n`: its id is
/// `req-N`.
pub open spec fn is_request(m: ActorMessage, n: u64, payload: serde_json::Value) -> bool {
    m matches ActorMessage::Request { id, payload: p } && id@ == "req-"@ + decimal(n as nat) && p == payload
}


/// What delivering `m` to `target` does: without such an actor, or with one
/// that is not running, or whose mailbox refuses the message, a dead letter
/// with the reason and an error; otherwise the message in the actor's
/// mailbox, counted as delivered.
pub open spec fn delivery_outcome(
    cells: Map<ActorId, ActorCell>,
    cells_after: Map<ActorId, ActorCell>,
    letters: Seq<DeadLetter>,
    letters_after: Seq<DeadLetter>,
    counters: ActorSystemStats,
    counters_after: ActorSystemStats,
    capacity: usize,
    target: ActorId,
    sender: Option<ActorId>,
    m: ActorMessage,
    priority: MessagePriority,
    r: Result<(), String>,
) -> bool {
    if !cells.contains_key(target) {
        &&& r matches Err(e) && e@ == "actor actor-"@ + decimal(target.0 as nat) + " not found"@
        &&& cells_after == cells
        &&& counters_after == one_more_dead_letter(counters)
        &&& letter_added(letters, letters_after, capacity, target, m, "actor not found"@)
    } else if cells[target].state != ActorLifecycle::Running {
        &&& r matches Err(e) && e@ == "actor not running"@
        &&& cells_after == cells
        &&& counters_after == one_more_dead_letter(counters)
        &&& letter_added(letters, letters_after, capacity, target, m, "actor not running"@)
    } else if cells[target].mailbox.waiting().len() >= cells[target].mailbox.limit()
        && cells[target].mailbox.overflow() != OverflowStrategy::DropOldest {
        &&& r matches Err(e) && e@ == "mailbox full"@
        &&& cells_after == cells
        &&& counters_after == one_more_dead_letter(counters)
        &&& letter_added(letters, letters_after, capacity, target, m, "mailbox full"@)
    } else {
        &&& r is Ok
        &&& cells_after.dom() == cells.dom()
        &&& forall|k: ActorId| #[trigger] cells.contains_key(k) && k != target ==> cells_after[k] == cells[k]
        &&& delivered(cells[target], cells_after[target], sender, m, priority)
        &&& counters_after == ActorSystemStats {
            total_messages_delivered: (counters.total_messages_delivered + 1) as u64,
            ..counters
        }
        &&& letters_after == letters
    }
}


} // verus!
