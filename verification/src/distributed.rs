//! Distributed computation: a cluster of nodes that runs submitted tasks,
//! simple mailboxes, the runtime that ties them to script values, and the
//! actor system with its supervision, routing and mailboxes.
use vstd::prelude::*;
use std::collections::HashMap;
use std::time::{Duration, Instant};
use rustc_hash::FxBuildHasher;
use vstd::utf8::{decode_utf8, valid_utf8};
use crate::durable::{StrMap, str_entries, str_map_new};
use crate::event_loop::{duration_nanos, duration_as_nanos, duration_from_secs, instant_now, instant_elapsed};
use crate::text::{decimal, push_decimal, push_str, string_of};
use crate::value::JsValue;

pub mod actors;

verus! {

// ───────────────────────────── Identifiers ─────────────────────────────

/// A source of fresh identifiers: 1, 2, 3, …
#[derive(Debug)]
pub struct IdSequence {
    next: u64,
}

impl IdSequence {
    /// The identifier the sequence hands out next.
    pub closed spec fn upcoming(&self) -> u64 {
        self.next
    }

    /// A sequence that starts at 1.
    pub fn new() -> (r: Self)
        ensures
            r.upcoming() == 1,
    {
        IdSequence { next: 1 }
    }

    /// Hand out the next identifier.
    pub fn take(&mut self) -> (r: u64)
        requires
            old(self).upcoming() < u64::MAX,
        ensures
            r == old(self).upcoming(),
            final(self).upcoming() == old(self).upcoming() + 1,
    {
        let r = self.next;
        self.next = self.next + 1;
        r
    }
}

/// Unique node identifier
#[derive(Debug, Clone, Copy, PartialEq, Eq, Hash, Structural)]
pub struct NodeId(pub u64);

impl NodeId {
    /// The next identifier of `ids`.
    pub fn new(ids: &mut IdSequence) -> (r: Self)
        requires
            old(ids).upcoming() < u64::MAX,
        ensures
            r.0 == old(ids).upcoming(),
            final(ids).upcoming() == old(ids).upcoming() + 1,
    {
        NodeId(ids.take())
    }

    /// The identifier of the local node.
    pub fn local() -> (r: Self)
        ensures
            r.0 == 0,
    {
        NodeId(0)
    }

    /// The identifier as its `Debug` text shows it: `NodeId(n)`.
    pub fn debug_text(&self) -> (r: String)
        ensures
            r@ == "NodeId("@ + decimal(self.0 as nat) + ")"@,
    {
        let mut s = string_of("NodeId(");
        push_decimal(&mut s, self.0);
        push_str(&mut s, ")");
        s
    }
}

/// Task identifier
#[derive(Debug, Clone, Copy, PartialEq, Eq, Hash, Structural)]
pub struct TaskId(pub u64);

impl TaskId {
    /// The next identifier of `ids`.
    pub fn new(ids: &mut IdSequence) -> (r: Self)
        requires
            old(ids).upcoming() < u64::MAX,
        ensures
            r.0 == old(ids).upcoming(),
            final(ids).upcoming() == old(ids).upcoming() + 1,
    {
        TaskId(ids.take())
    }

    /// The identifier as its `Debug` text shows it: `TaskId(n)`.
    pub fn debug_text(&self) -> (r: String)
        ensures
            r@ == "TaskId("@ + decimal(self.0 as nat) + ")"@,
    {
        let mut s = string_of("TaskId(");
        push_decimal(&mut s, self.0);
        push_str(&mut s, ")");
        s
    }
}

// ───────────────────────────── Tables by number ─────────────────────────────

/// A map keyed by numbers, hashed with rustc-hash's Fx hasher.
pub type NumTable<V> = HashMap<u64, V, FxBuildHasher>;

/// The table with no entries.
pub open spec fn no_rows<V>() -> Map<u64, V> {
    Map::empty()
}

/// `HashMap::default`: a table with no entries.
#[verifier::external_body]
fn rows_new<V>() -> (r: NumTable<V>)
    ensures
        r@ == no_rows::<V>(),
{
    HashMap::default()
}

/// `HashMap::get`: the entry of the key, if it has one.
#[verifier::external_body]
fn rows_get<'a, V>(m: &'a NumTable<V>, k: u64) -> (r: Option<&'a V>)
    ensures
        match r {
            Some(v) => m@.contains_key(k) && m@[k] == *v,
            None => !m@.contains_key(k),
        },
{
    m.get(&k)
}

/// `HashMap::insert`: the key now has the value; the others keep theirs.
#[verifier::external_body]
fn rows_insert<V>(m: &mut NumTable<V>, k: u64, v: V)
    ensures
        final(m)@ == old(m)@.insert(k, v),
{
    m.insert(k, v);
}

/// `HashMap::remove`: the key no longer has an entry; the one it had is
/// handed back.
#[verifier::external_body]
fn rows_remove<V>(m: &mut NumTable<V>, k: u64) -> (r: Option<V>)
    ensures
        final(m)@ == old(m)@.remove(k),
        match r {
            Some(v) => old(m)@.contains_key(k) && v == old(m)@[k],
            None => !old(m)@.contains_key(k),
        },
{
    m.remove(&k)
}

/// `n` is the number of keys of `m`.
pub open spec fn is_row_count<V>(n: usize, m: Map<u64, V>) -> bool {
    m.dom().finite() && n == m.dom().len()
}

/// `HashMap::len`: the number of keys.
#[verifier::external_body]
fn rows_len<V>(m: &NumTable<V>) -> (r: usize)
    ensures
        is_row_count(r, m@),
{
    m.len()
}

/// `HashMap::keys`, collected: every key once, in the table's own order.
#[verifier::external_body]
fn rows_keys<V>(m: &NumTable<V>) -> (r: Vec<u64>)
    ensures
        forall|i: int| 0 <= i < r@.len() ==> m@.contains_key(#[trigger] r@[i]),
        forall|i: int, j: int| 0 <= i < j < r@.len() ==> #[trigger] r@[i] != #[trigger] r@[j],
        forall|k: u64| m@.contains_key(k) ==> #[trigger] r@.contains(k),
{
    m.keys().cloned().collect()
}

// ───────────────────────────── Nodes ─────────────────────────────

/// Node status
#[derive(Debug, Clone, Copy, PartialEq, Eq, Structural)]
pub enum NodeStatus {
    Starting,
    Ready,
    Busy,
    Draining,
    Offline,
}

/// `HashMap::clone` on a map of strings: the same entries.
#[verifier::external_body]
fn text_map_clone(m: &StrMap<String>) -> (r: StrMap<String>)
    ensures
        str_entries(r) == str_entries(*m),
{
    m.clone()
}

/// A node's heartbeat counts as recent for this long: thirty seconds.
pub open spec fn heartbeat_window_nanos() -> nat {
    30_000_000_000
}

/// Information about a cluster node
#[derive(Debug)]
pub struct NodeInfo {
    pub id: NodeId,
    pub address: String,
    pub status: NodeStatus,
    pub cpu_cores: u32,
    pub memory_mb: u64,
    pub current_tasks: u32,
    pub last_heartbeat: Instant,
    pub metadata: StrMap<String>,
}

impl Clone for NodeInfo {
    fn clone(&self) -> (r: Self)
        ensures
            r.id == self.id,
            r.address == self.address,
            r.status == self.status,
            r.cpu_cores == self.cpu_cores,
            r.memory_mb == self.memory_mb,
            r.current_tasks == self.current_tasks,
            r.last_heartbeat == self.last_heartbeat,
            str_entries(r.metadata) == str_entries(self.metadata),
    {
        NodeInfo {
            id: self.id,
            address: self.address.clone(),
            status: self.status,
            cpu_cores: self.cpu_cores,
            memory_mb: self.memory_mb,
            current_tasks: self.current_tasks,
            last_heartbeat: self.last_heartbeat,
            metadata: text_map_clone(&self.metadata),
        }
    }
}

impl NodeInfo {
    /// A starting node at `address` with `cpu_cores` cores, 1024 MB of
    /// memory, no tasks, no metadata and a heartbeat now.
    pub fn new(id: NodeId, address: &str, cpu_cores: u32) -> (r: Self)
        ensures
            r.id == id,
            r.address@ == address@,
            r.status == NodeStatus::Starting,
            r.cpu_cores == cpu_cores,
            r.memory_mb == 1024,
            r.current_tasks == 0,
            str_entries(r.metadata) == Map::<Seq<char>, String>::empty(),
    {
        NodeInfo {
            id,
            address: address.to_string(),
            status: NodeStatus::Starting,
            cpu_cores,
            memory_mb: 1024,
            current_tasks: 0,
            last_heartbeat: instant_now(),
            metadata: str_map_new(),
        }
    }

    /// Whether the node is ready and its last heartbeat is `age` old at
    /// most, less than thirty seconds.
    pub fn is_available_at(&self, age: Duration) -> (r: bool)
        ensures
            r == (self.status == NodeStatus::Ready && duration_nanos(age) < heartbeat_window_nanos()),
    {
        self.status == NodeStatus::Ready && duration_as_nanos(&age) < 30_000_000_000
    }

    /// Whether the node is ready and has sent a heartbeat in the last thirty
    /// seconds, by the clock.
    pub fn is_available(&self) -> (r: bool)
        ensures
            r ==> self.status == NodeStatus::Ready,
    {
        let age = instant_elapsed(&self.last_heartbeat);
        self.is_available_at(age)
    }
}

// ───────────────────────────── Tasks ─────────────────────────────

/// Task status
#[derive(Debug)]
pub enum TaskStatus {
    Pending,
    Scheduled(NodeId),
    Running(NodeId),
    Completed(Vec<u8>),
    Failed(String),
    Cancelled,
}

/// A task status, by its contents.
pub enum TaskStatusModel {
    Pending,
    Scheduled(NodeId),
    Running(NodeId),
    Completed(Seq<u8>),
    Failed(Seq<char>),
    Cancelled,
}

impl TaskStatus {
    pub open spec fn model(self) -> TaskStatusModel {
        match self {
            TaskStatus::Pending => TaskStatusModel::Pending,
            TaskStatus::Scheduled(n) => TaskStatusModel::Scheduled(n),
            TaskStatus::Running(n) => TaskStatusModel::Running(n),
            TaskStatus::Completed(b) => TaskStatusModel::Completed(b@),
            TaskStatus::Failed(e) => TaskStatusModel::Failed(e@),
            TaskStatus::Cancelled => TaskStatusModel::Cancelled,
        }
    }
}

impl Clone for TaskStatus {
    fn clone(&self) -> (r: Self)
        ensures
            r.model() == self.model(),
    {
        match self {
            TaskStatus::Pending => TaskStatus::Pending,
            TaskStatus::Scheduled(n) => TaskStatus::Scheduled(*n),
            TaskStatus::Running(n) => TaskStatus::Running(*n),
            TaskStatus::Completed(b) => TaskStatus::Completed(b.clone()),
            TaskStatus::Failed(e) => TaskStatus::Failed(e.clone()),
            TaskStatus::Cancelled => TaskStatus::Cancelled,
        }
    }
}

/// A distributed task
#[derive(Debug)]
pub struct Task {
    pub id: TaskId,
    pub code: Vec<u8>,
    pub args: Vec<u8>,
    pub status: TaskStatus,
    pub created_at: Instant,
    pub priority: i32,
    pub timeout: Option<Duration>,
}

impl Task {
    /// A pending task `id` running `code` on `args`, of priority 0 and with
    /// no timeout.
    pub fn new(id: TaskId, code: Vec<u8>, args: Vec<u8>) -> (r: Self)
        ensures
            r.id == id,
            r.code == code,
            r.args == args,
            r.status == TaskStatus::Pending,
            r.priority == 0,
            r.timeout is None,
    {
        Task { id, code, args, status: TaskStatus::Pending, created_at: instant_now(), priority: 0, timeout: None }
    }

    /// The same task with another priority.
    pub fn with_priority(self, priority: i32) -> (r: Self)
        ensures
            r == (Task { priority, ..self }),
    {
        let mut t = self;
        t.priority = priority;
        t
    }

    /// The same task with a timeout.
    pub fn with_timeout(self, timeout: Duration) -> (r: Self)
        ensures
            r == (Task { timeout: Some(timeout), ..self }),
    {
        let mut t = self;
        t.timeout = Some(timeout);
        t
    }
}

/// The node at `i` has no more current tasks than any other, and fewer
/// than every node before it.
pub open spec fn is_least_loaded(nodes: Seq<NodeInfo>, i: int) -> bool {
    &&& 0 <= i < nodes.len()
    &&& forall|j: int| 0 <= j < nodes.len() ==> nodes[i].current_tasks <= #[trigger] nodes[j].current_tasks
    &&& forall|j: int| 0 <= j < i ==> #[trigger] nodes[j].current_tasks > nodes[i].current_tasks
}

/// The node with the fewest current tasks, the first such; none when there
/// are no nodes.
pub fn least_loaded(nodes: &Vec<NodeInfo>) -> (r: Option<NodeId>)
    ensures
        r is None <==> nodes@.len() == 0,
        r matches Some(id) ==> exists|i: int| #[trigger] is_least_loaded(nodes@, i) && nodes@[i].id == id,
{
    let n = nodes.len();
    if n == 0 {
        return None;
    }
    let mut best: usize = 0;
    let mut i: usize = 1;
    while i < n
        invariant
            n == nodes@.len(),
            1 <= i <= n,
            0 <= best < i,
            forall|j: int| 0 <= j < i ==> nodes@[best as int].current_tasks <= #[trigger] nodes@[j].current_tasks,
            forall|j: int| 0 <= j < best ==> #[trigger] nodes@[j].current_tasks > nodes@[best as int].current_tasks,
        decreases n - i,
    {
        if nodes[i].current_tasks < nodes[best].current_tasks {
            best = i;
        }
        i = i + 1;
    }
    assert(is_least_loaded(nodes@, best as int));
    Some(nodes[best].id)
}

// ───────────────────────────── Clusters ─────────────────────────────

/// Cluster configuration
#[derive(Debug)]
pub struct ClusterConfig {
    /// Cluster name
    pub name: String,
    /// Maximum concurrent tasks per node
    pub max_tasks_per_node: u32,
    /// Task timeout
    pub default_timeout: Duration,
    /// Heartbeat interval
    pub heartbeat_interval: Duration,
    /// Node timeout threshold
    pub node_timeout: Duration,
    /// Enable task retry on failure
    pub enable_retry: bool,
    /// Maximum retry attempts
    pub max_retries: u32,
}

impl Clone for ClusterConfig {
    fn clone(&self) -> (r: Self)
        ensures
            r == *self,
    {
        ClusterConfig {
            name: self.name.clone(),
            max_tasks_per_node: self.max_tasks_per_node,
            default_timeout: self.default_timeout,
            heartbeat_interval: self.heartbeat_interval,
            node_timeout: self.node_timeout,
            enable_retry: self.enable_retry,
            max_retries: self.max_retries,
        }
    }
}

impl Default for ClusterConfig {
    fn default() -> (r: Self)
        ensures
            r.name@ == "default"@,
            r.max_tasks_per_node == 10,
            duration_nanos(r.default_timeout) == 300_000_000_000,
            duration_nanos(r.heartbeat_interval) == 5_000_000_000,
            duration_nanos(r.node_timeout) == 30_000_000_000,
            r.enable_retry,
            r.max_retries == 3,
    {
        ClusterConfig {
            name: "default".to_string(),
            max_tasks_per_node: 10,
            default_timeout: duration_from_secs(300),
            heartbeat_interval: duration_from_secs(5),
            node_timeout: duration_from_secs(30),
            enable_retry: true,
            max_retries: 3,
        }
    }
}

/// Cluster errors
#[derive(Debug, Clone)]
pub enum ClusterError {
    ConnectionFailed(String),
    NodeNotFound(NodeId),
    TaskNotFound(TaskId),
    TaskFailed(String),
    Timeout,
    Serialization(String),
}

impl ClusterError {
    /// The error's text.
    pub open spec fn text(self) -> Seq<char> {
        match self {
            ClusterError::ConnectionFailed(m) => "connection failed: "@ + m@,
            ClusterError::NodeNotFound(id) => "node not found: "@ + ("NodeId("@ + decimal(id.0 as nat) + ")"@),
            ClusterError::TaskNotFound(id) => "task not found: "@ + ("TaskId("@ + decimal(id.0 as nat) + ")"@),
            ClusterError::TaskFailed(m) => "task failed: "@ + m@,
            ClusterError::Timeout => "operation timed out"@,
            ClusterError::Serialization(m) => "serialization error: "@ + m@,
        }
    }

    /// The error's text, as it displays.
    pub fn display_string(&self) -> (r: String)
        ensures
            r@ == self.text(),
    {
        match self {
            ClusterError::ConnectionFailed(m) => {
                let mut s = string_of("connection failed: ");
                push_str(&mut s, m.as_str());
                s
            },
            ClusterError::NodeNotFound(id) => {
                let mut s = string_of("node not found: ");
                push_str(&mut s, id.debug_text().as_str());
                s
            },
            ClusterError::TaskNotFound(id) => {
                let mut s = string_of("task not found: ");
                push_str(&mut s, id.debug_text().as_str());
                s
            },
            ClusterError::TaskFailed(m) => {
                let mut s = string_of("task failed: ");
                push_str(&mut s, m.as_str());
                s
            },
            ClusterError::Timeout => string_of("operation timed out"),
            ClusterError::Serialization(m) => {
                let mut s = string_of("serialization error: ");
                push_str(&mut s, m.as_str());
                s
            },
        }
    }
}

/// A cluster of nodes, and the tasks submitted to it.
#[derive(Debug)]
pub struct Cluster {
    config: ClusterConfig,
    nodes: NumTable<NodeInfo>,
    tasks: NumTable<Task>,
    local_node: NodeInfo,
}

impl Cluster {
    /// The registered nodes, by number.
    pub closed spec fn node_rows(&self) -> Map<u64, NodeInfo> {
        self.nodes@
    }

    /// The submitted tasks, by number.
    pub closed spec fn task_rows(&self) -> Map<u64, Task> {
        self.tasks@
    }

    /// The configuration.
    pub closed spec fn settings(&self) -> ClusterConfig {
        self.config
    }

    /// Every node and task is filed under its own number.
    pub closed spec fn wf(&self) -> bool {
        &&& forall|k: u64| #[trigger] self.nodes@.contains_key(k) ==> self.nodes@[k].id.0 == k
        &&& forall|k: u64| #[trigger] self.tasks@.contains_key(k) ==> self.tasks@[k].id.0 == k
        &&& self.local_node.id.0 == 0
    }

    /// A cluster with no nodes and no tasks; the local node has `cpu_cores`
    /// cores.
    pub fn new(config: ClusterConfig, cpu_cores: u32) -> (r: Self)
        ensures
            r.wf(),
            r.node_rows() == no_rows::<NodeInfo>(),
            r.task_rows() == no_rows::<Task>(),
            r.settings() == config,
    {
        let local_node = NodeInfo::new(NodeId::local(), "localhost", cpu_cores);
        Cluster { config, nodes: rows_new(), tasks: rows_new(), local_node }
    }

    /// Connect to an existing cluster: a cluster of the default
    /// configuration.
    pub fn connect(_address: &str, cpu_cores: u32) -> (r: Result<Self, ClusterError>)
        ensures
            r matches Ok(c) && c.wf() && c.node_rows() == no_rows::<NodeInfo>() && c.task_rows() == no_rows::<Task>(),
    {
        Ok(Self::new(ClusterConfig::default(), cpu_cores))
    }

    /// Register a node, replacing the one of the same id.
    pub fn register_node(&mut self, node: NodeInfo)
        requires
            old(self).wf(),
        ensures
            final(self).wf(),
            final(self).node_rows() == old(self).node_rows().insert(node.id.0, node),
            final(self).task_rows() == old(self).task_rows(),
            final(self).settings() == old(self).settings(),
    {
        let k = node.id.0;
        rows_insert(&mut self.nodes, k, node);
    }

    /// Remove a node.
    pub fn remove_node(&mut self, node_id: NodeId)
        requires
            old(self).wf(),
        ensures
            final(self).wf(),
            final(self).node_rows() == old(self).node_rows().remove(node_id.0),
            final(self).task_rows() == old(self).task_rows(),
            final(self).settings() == old(self).settings(),
    {
        rows_remove(&mut self.nodes, node_id.0);
    }

    /// A copy of every node, once each.
    pub fn nodes(&self) -> (r: Vec<NodeInfo>)
        requires
            self.wf(),
        ensures
            r@.len() == self.node_rows().dom().len(),
            forall|i: int| 0 <= i < r@.len() ==> self.node_rows().contains_key((#[trigger] r@[i]).id.0)
                && self.node_rows()[r@[i].id.0].address == r@[i].address
                && self.node_rows()[r@[i].id.0].status == r@[i].status
                && self.node_rows()[r@[i].id.0].current_tasks == r@[i].current_tasks,
            forall|i: int, j: int| 0 <= i < j < r@.len() ==> (#[trigger] r@[i]).id != (#[trigger] r@[j]).id,
    {
        let keys = rows_keys(&self.nodes);
        let n = keys.len();
        proof {
            assert(keys@.no_duplicates()) by {
                assert forall|a: int, b: int| 0 <= a < keys@.len() && 0 <= b < keys@.len() && a != b implies keys@[a] != keys@[b] by {
                    if a < b {
                        assert(keys@[a] != keys@[b]);
                    } else {
                        assert(keys@[b] != keys@[a]);
                    }
                }
            }
            keys@.unique_seq_to_set();
            assert(keys@.to_set() =~= self.nodes@.dom());
        }
        let mut out: Vec<NodeInfo> = Vec::new();
        let mut i: usize = 0;
        while i < n
            invariant
                n == keys@.len(),
                0 <= i <= n,
                self.wf(),
                forall|q: int| 0 <= q < n ==> self.nodes@.contains_key(#[trigger] keys@[q]),
                forall|q: int, p: int| 0 <= q < p < n ==> #[trigger] keys@[q] != #[trigger] keys@[p],
                out@.len() == i,
                forall|q: int| 0 <= q < i ==> (#[trigger] out@[q]).id.0 == keys@[q]
                    && self.nodes@[keys@[q]].address == out@[q].address
                    && self.nodes@[keys@[q]].status == out@[q].status
                    && self.nodes@[keys@[q]].current_tasks == out@[q].current_tasks,
            decreases n - i,
        {
            match rows_get(&self.nodes, keys[i]) {
                Some(node) => {
                    out.push(node.clone());
                },
                None => {
                    proof {
                        assert(self.nodes@.contains_key(keys@[i as int]));
                    }
                },
            }
            i = i + 1;
        }
        proof {
            assert(keys@.to_set().len() == n);
        }
        out
    }

    /// A copy of every node that is available by the clock, once each.
    pub fn available_nodes(&self) -> (r: Vec<NodeInfo>)
        requires
            self.wf(),
        ensures
            forall|i: int| 0 <= i < r@.len() ==> self.node_rows().contains_key((#[trigger] r@[i]).id.0)
                && r@[i].status == NodeStatus::Ready
                && self.node_rows()[r@[i].id.0].status == NodeStatus::Ready
                && self.node_rows()[r@[i].id.0].address == r@[i].address,
            forall|i: int, j: int| 0 <= i < j < r@.len() ==> (#[trigger] r@[i]).id != (#[trigger] r@[j]).id,
    {
        let all = self.nodes();
        let n = all.len();
        let mut out: Vec<NodeInfo> = Vec::new();
        let ghost mut src: Seq<int> = Seq::empty();
        let mut i: usize = 0;
        while i < n
            invariant
                n == all@.len(),
                0 <= i <= n,
                forall|q: int| 0 <= q < n ==> self.node_rows().contains_key((#[trigger] all@[q]).id.0)
                    && self.node_rows()[all@[q].id.0].address == all@[q].address
                    && self.node_rows()[all@[q].id.0].status == all@[q].status,
                forall|q: int, p: int| 0 <= q < p < n ==> (#[trigger] all@[q]).id != (#[trigger] all@[p]).id,
                src.len() == out@.len(),
                forall|j: int| 0 <= j < out@.len() ==> 0 <= #[trigger] src[j] < i && out@[j].id == all@[src[j]].id
                    && out@[j].address == all@[src[j]].address && out@[j].status == NodeStatus::Ready
                    && all@[src[j]].status == NodeStatus::Ready,
                forall|j: int, p: int| 0 <= j < p < out@.len() ==> #[trigger] src[j] < #[trigger] src[p],
            decreases n - i,
        {
            if all[i].is_available() {
                let ghost before = out@;
                let ghost old_src = src;
                out.push(all[i].clone());
                proof {
                    src = src.push(i as int);
                    assert forall|j: int| 0 <= j < out@.len() implies 0 <= #[trigger] src[j] < i + 1 && out@[j].id == all@[src[j]].id
                        && out@[j].address == all@[src[j]].address && out@[j].status == NodeStatus::Ready
                        && all@[src[j]].status == NodeStatus::Ready by {
                        if j < before.len() {
                            assert(out@[j] == before[j]);
                            assert(src[j] == old_src[j]);
                        }
                    }
                }
            }
            i = i + 1;
        }
        proof {
            assert forall|j: int, p: int| 0 <= j < p < out@.len() implies (#[trigger] out@[j]).id != (#[trigger] out@[p]).id by {
                assert(src[j] < src[p]);
            }
            assert forall|j: int| 0 <= j < out@.len() implies self.node_rows().contains_key((#[trigger] out@[j]).id.0)
                && out@[j].status == NodeStatus::Ready
                && self.node_rows()[out@[j].id.0].status == NodeStatus::Ready
                && self.node_rows()[out@[j].id.0].address == out@[j].address by {
                assert(0 <= src[j] < n);
                let q = src[j];
                assert(self.node_rows().contains_key(all@[q].id.0));
            }
        }
        out
    }

    /// Submit a task; its id.
    pub fn submit(&mut self, task: Task) -> (r: TaskId)
        requires
            old(self).wf(),
        ensures
            final(self).wf(),
            r == task.id,
            final(self).task_rows() == old(self).task_rows().insert(task.id.0, task),
            final(self).node_rows() == old(self).node_rows(),
            final(self).settings() == old(self).settings(),
    {
        let id = task.id;
        rows_insert(&mut self.tasks, id.0, task);
        id
    }

    /// The status of the task `id`, if it was submitted.
    pub fn task_status(&self, id: TaskId) -> (r: Option<TaskStatus>)
        ensures
            match r {
                Some(st) => self.task_rows().contains_key(id.0) && st.model() == self.task_rows()[id.0].status.model(),
                None => !self.task_rows().contains_key(id.0),
            },
    {
        match rows_get(&self.tasks, id.0) {
            Some(t) => Some(t.status.clone()),
            None => None,
        }
    }

    /// Cancel the task `id` if it has not started running: whether it was
    /// pending or scheduled, and so is now cancelled.
    pub fn cancel(&mut self, id: TaskId) -> (r: bool)
        requires
            old(self).wf(),
        ensures
            final(self).wf(),
            r == (old(self).task_rows().contains_key(id.0) && (old(self).task_rows()[id.0].status is Pending
                || old(self).task_rows()[id.0].status is Scheduled)),
            r ==> final(self).task_rows() == old(self).task_rows().insert(id.0,
                Task { status: TaskStatus::Cancelled, ..old(self).task_rows()[id.0] }),
            !r ==> final(self).task_rows() == old(self).task_rows(),
            final(self).node_rows() == old(self).node_rows(),
            final(self).settings() == old(self).settings(),
    {
        match rows_remove(&mut self.tasks, id.0) {
            Some(mut task) => {
                let cancellable = match &task.status {
                    TaskStatus::Pending => true,
                    TaskStatus::Scheduled(_) => true,
                    _ => false,
                };
                if cancellable {
                    task.status = TaskStatus::Cancelled;
                }
                rows_insert(&mut self.tasks, id.0, task);
                proof {
                    if !cancellable {
                        assert(self.tasks@ =~= old(self).tasks@);
                    }
                }
                cancellable
            },
            None => {
                proof {
                    assert(self.tasks@ =~= old(self).tasks@);
                }
                false
            },
        }
    }

    /// The available node with the fewest current tasks, by the clock: the
    /// least loaded (see [`least_loaded`]) of [`Cluster::available_nodes`].
    pub fn select_node(&self) -> (r: Option<NodeId>)
        requires
            self.wf(),
        ensures
            r matches Some(id) ==> (self.node_rows().contains_key(id.0) && self.node_rows()[id.0].status == NodeStatus::Ready),
    {
        let candidates = self.available_nodes();
        let r = least_loaded(&candidates);
        proof {
            if r is Some {
                let i = choose|i: int| #[trigger] is_least_loaded(candidates@, i) && candidates@[i].id == r.unwrap();
                assert(self.node_rows().contains_key(candidates@[i].id.0));
            }
        }
        r
    }

    /// The configuration.
    pub fn config(&self) -> (r: &ClusterConfig)
        ensures
            *r == self.settings(),
    {
        &self.config
    }

    /// The local node.
    pub fn local_node(&self) -> (r: &NodeInfo)
        requires
            self.wf(),
        ensures
            r.id.0 == 0,
    {
        &self.local_node
    }
}

impl Clone for Task {
    fn clone(&self) -> (r: Self)
        ensures
            r.id == self.id,
            r.code@ == self.code@,
            r.args@ == self.args@,
            r.status.model() == self.status.model(),
            r.created_at == self.created_at,
            r.priority == self.priority,
            r.timeout == self.timeout,
    {
        Task {
            id: self.id,
            code: self.code.clone(),
            args: self.args.clone(),
            status: self.status.clone(),
            created_at: self.created_at,
            priority: self.priority,
            timeout: self.timeout,
        }
    }
}

// ───────────────────────────── Messages ─────────────────────────────

/// Message types for cluster communication
#[derive(Debug)]
pub enum Message {
    /// Heartbeat from node
    Heartbeat { node: NodeInfo },
    /// Submit a task
    SubmitTask { task: Task },
    /// Task result
    TaskResult { task_id: TaskId, result: Vec<u8> },
    /// Task failed
    TaskFailed { task_id: TaskId, error: String },
    /// Request to join cluster
    JoinRequest { node: NodeInfo },
    /// Acknowledge join
    JoinAck { cluster_config: ClusterConfig },
    /// Node leaving cluster
    Leave { node_id: NodeId },
}

impl Clone for Message {
    fn clone(&self) -> (r: Self) {
        match self {
            Message::Heartbeat { node } => Message::Heartbeat { node: node.clone() },
            Message::SubmitTask { task } => Message::SubmitTask { task: task.clone() },
            Message::TaskResult { task_id, result } => Message::TaskResult { task_id: *task_id, result: result.clone() },
            Message::TaskFailed { task_id, error } => Message::TaskFailed { task_id: *task_id, error: error.clone() },
            Message::JoinRequest { node } => Message::JoinRequest { node: node.clone() },
            Message::JoinAck { cluster_config } => Message::JoinAck { cluster_config: cluster_config.clone() },
            Message::Leave { node_id } => Message::Leave { node_id: *node_id },
        }
    }
}

/// Serializable function reference
#[derive(Debug, Clone)]
pub struct RemoteFunction {
    /// Serialized bytecode
    pub bytecode: Vec<u8>,
    /// Captured variables (closure)
    pub captures: Vec<u8>,
    /// Function name (for debugging)
    pub name: Option<String>,
}

impl RemoteFunction {
    /// A function of `bytecode` with no captures and no name.
    pub fn new(bytecode: Vec<u8>) -> (r: Self)
        ensures
            r.bytecode == bytecode,
            r.captures@.len() == 0,
            r.name is None,
    {
        RemoteFunction { bytecode, captures: Vec::new(), name: None }
    }

    /// The same function with these captures.
    pub fn with_captures(self, captures: Vec<u8>) -> (r: Self)
        ensures
            r == (RemoteFunction { captures, ..self }),
    {
        let mut f = self;
        f.captures = captures;
        f
    }

    /// The same function with a name.
    pub fn with_name(self, name: &str) -> (r: Self)
        ensures
            r.bytecode == self.bytecode,
            r.captures == self.captures,
            r.name matches Some(n) && n@ == name@,
    {
        let mut f = self;
        f.name = Some(name.to_string());
        f
    }
}

/// Work distribution strategies
#[derive(Debug, Clone, Copy, PartialEq, Eq, Structural)]
pub enum Distribution {
    /// Round-robin across nodes
    RoundRobin,
    /// Based on node load
    LeastLoaded,
    /// Based on data locality
    DataLocal,
    /// Random selection
    Random,
    /// All nodes (broadcast)
    Broadcast,
}

/// Map-reduce job
#[derive(Debug)]
pub struct MapReduceJob<T> {
    /// Input data chunks
    pub chunks: Vec<T>,
    /// Distribution strategy
    pub distribution: Distribution,
    /// Map phase timeout
    pub map_timeout: Duration,
    /// Reduce phase timeout
    pub reduce_timeout: Duration,
}

impl<T> MapReduceJob<T> {
    /// A job over `chunks`, distributed to the least loaded nodes, with a
    /// minute for the map phase and half a minute for the reduce phase.
    pub fn new(chunks: Vec<T>) -> (r: Self)
        ensures
            r.chunks == chunks,
            r.distribution == Distribution::LeastLoaded,
            duration_nanos(r.map_timeout) == 60_000_000_000,
            duration_nanos(r.reduce_timeout) == 30_000_000_000,
    {
        MapReduceJob {
            chunks,
            distribution: Distribution::LeastLoaded,
            map_timeout: duration_from_secs(60),
            reduce_timeout: duration_from_secs(30),
        }
    }

    /// The same job with another distribution.
    pub fn with_distribution(self, distribution: Distribution) -> (r: Self)
        ensures
            r == (MapReduceJob { distribution, ..self }),
    {
        let mut j = self;
        j.distribution = distribution;
        j
    }
}

/// A mailbox with an identity: messages are sent to it and received from
/// it, the latest first.
#[derive(Debug)]
pub struct Actor {
    id: NodeId,
    mailbox: Vec<Message>,
}

impl Actor {
    /// The identity.
    pub closed spec fn ident(&self) -> NodeId {
        self.id
    }

    /// The messages waiting, oldest first.
    pub closed spec fn waiting(&self) -> Seq<Message> {
        self.mailbox@
    }

    /// An actor with the next identity of `ids` and an empty mailbox.
    pub fn new(ids: &mut IdSequence) -> (r: Self)
        requires
            old(ids).upcoming() < u64::MAX,
        ensures
            r.ident().0 == old(ids).upcoming(),
            final(ids).upcoming() == old(ids).upcoming() + 1,
            r.waiting().len() == 0,
    {
        Actor { id: NodeId::new(ids), mailbox: Vec::new() }
    }

    /// The identity.
    pub fn id(&self) -> (r: NodeId)
        ensures
            r == self.ident(),
    {
        self.id
    }

    /// Put a message in the mailbox.
    pub fn send(&mut self, message: Message)
        ensures
            final(self).waiting() == old(self).waiting().push(message),
            final(self).ident() == old(self).ident(),
    {
        self.mailbox.push(message);
    }

    /// Take the latest message, if any.
    pub fn receive(&mut self) -> (r: Option<Message>)
        ensures
            old(self).waiting().len() == 0 ==> r is None && final(self).waiting() == old(self).waiting(),
            old(self).waiting().len() > 0 ==> r == Some(old(self).waiting().last())
                && final(self).waiting() == old(self).waiting().drop_last(),
            final(self).ident() == old(self).ident(),
    {
        self.mailbox.pop()
    }

    /// Take every message, oldest first.
    pub fn receive_all(&mut self) -> (r: Vec<Message>)
        ensures
            r@ == old(self).waiting(),
            final(self).waiting().len() == 0,
            final(self).ident() == old(self).ident(),
    {
        let mut taken: Vec<Message> = Vec::new();
        std::mem::swap(&mut taken, &mut self.mailbox);
        taken
    }
}

// ───────────────────────────── The runtime ─────────────────────────────

/// Future representing a pending distributed task
#[derive(Debug)]
pub struct TaskFuture {
    pub task_id: TaskId,
    pub submitted_at: Instant,
    pub timeout: Option<Duration>,
}

/// The value a serialized result stands for: the string the bytes encode.
pub open spec fn decoded_value(bytes: Seq<u8>) -> Option<Seq<char>> {
    if valid_utf8(bytes) {
        Some(decode_utf8(bytes))
    } else {
        None
    }
}

/// Read back a serialized value: the string the bytes encode, or a
/// serialization error when they are not UTF-8.
pub fn deserialize_value(bytes: &Vec<u8>) -> (r: Result<JsValue, ClusterError>)
    ensures
        match decoded_value(bytes@) {
            Some(s) => r matches Ok(JsValue::String(t)) && t@ == s,
            None => r matches Err(ClusterError::Serialization(_)),
        },
{
    match crate::debugger::recording::string_from_utf8(bytes.clone()) {
        Ok(s) => Ok(JsValue::String(s)),
        Err(e) => Err(ClusterError::Serialization(e)),
    }
}

/// The task may be cancelled: it has not started running.
pub open spec fn cancellable(t: Task) -> bool {
    t.status is Pending || t.status is Scheduled
}

/// The tasks after cancelling those of `ids` that may be cancelled.
pub open spec fn after_cancelling(tasks: Map<u64, Task>, ids: Set<u64>) -> Map<u64, Task> {
    Map::new(
        |k: u64| tasks.contains_key(k),
        |k: u64| if ids.contains(k) && cancellable(tasks[k]) { Task { status: TaskStatus::Cancelled, ..tasks[k] } } else { tasks[k] },
    )
}

/// The numbers among the first `j` of `v`.
pub open spec fn ids_upto(v: Seq<u64>, j: int) -> Set<u64> {
    Set::new(|k: u64| exists|q: int| 0 <= q < j && v[q] == k)
}

/// From the waiting tasks `pending` of the tasks `tasks`, those of `ids`
/// have expired: they no longer wait and were cancelled.
pub open spec fn expired_by(
    ids: Set<u64>,
    pending: Map<u64, TaskFuture>,
    tasks: Map<u64, Task>,
    pending_after: Map<u64, TaskFuture>,
    tasks_after: Map<u64, Task>,
) -> bool {
    &&& ids.subset_of(pending.dom())
    &&& pending_after == pending.remove_keys(ids)
    &&& tasks_after == after_cancelling(tasks, ids)
}

/// Whether a task has waited past its timeout after `waited`; one without
/// a timeout never has.
pub fn timed_out(fut: &TaskFuture, waited: Duration) -> (r: bool)
    ensures
        r == (fut.timeout matches Some(limit) && duration_nanos(waited) > duration_nanos(limit)),
{
    match fut.timeout {
        Some(limit) => duration_as_nanos(&waited) > duration_as_nanos(&limit),
        None => false,
    }
}

/// The distributed runtime: a cluster, the local actors and the tasks
/// waiting for a result.
#[derive(Debug)]
pub struct DistributedRuntime {
    cluster: Cluster,
    actors: NumTable<Actor>,
    pending_tasks: NumTable<TaskFuture>,
    node_ids: IdSequence,
    task_ids: IdSequence,
}

impl DistributedRuntime {
    /// The cluster's tasks, by number.
    pub closed spec fn tasks(&self) -> Map<u64, Task> {
        self.cluster.task_rows()
    }

    /// The local actors, by number.
    pub closed spec fn actor_rows(&self) -> Map<u64, Actor> {
        self.actors@
    }

    /// The tasks waiting for a result, by number.
    pub closed spec fn pending(&self) -> Map<u64, TaskFuture> {
        self.pending_tasks@
    }

    /// The number the next task or message gets.
    pub closed spec fn next_task_number(&self) -> u64 {
        self.task_ids.upcoming()
    }

    /// The number the next actor gets.
    pub closed spec fn next_actor_number(&self) -> u64 {
        self.node_ids.upcoming()
    }

    /// The sequences of fresh identifiers have room, and the tables are
    /// consistent with the cluster.
    pub closed spec fn wf(&self) -> bool {
        &&& self.cluster.wf()
        &&& self.node_ids.upcoming() < u64::MAX
        &&& self.task_ids.upcoming() < u64::MAX
        &&& forall|k: u64| #[trigger] self.actors@.contains_key(k) ==> self.actors@[k].ident().0 == k && k < self.node_ids.upcoming()
        &&& forall|k: u64| #[trigger] self.cluster.task_rows().contains_key(k) ==> k < self.task_ids.upcoming()
    }

    /// A runtime on a new cluster of the given configuration.
    pub fn with_config(config: ClusterConfig, cpu_cores: u32) -> (r: Self)
        ensures
            r.wf(),
            r.tasks() == no_rows::<Task>(),
            r.actor_rows() == no_rows::<Actor>(),
            r.pending() == no_rows::<TaskFuture>(),
    {
        DistributedRuntime {
            cluster: Cluster::new(config, cpu_cores),
            actors: rows_new(),
            pending_tasks: rows_new(),
            node_ids: IdSequence::new(),
            task_ids: IdSequence::new(),
        }
    }

    /// A runtime on a new cluster of the default configuration.
    pub fn new(cpu_cores: u32) -> (r: Self)
        ensures
            r.wf(),
            r.tasks() == no_rows::<Task>(),
            r.actor_rows() == no_rows::<Actor>(),
            r.pending() == no_rows::<TaskFuture>(),
    {
        Self::with_config(ClusterConfig::default(), cpu_cores)
    }

    /// A runtime connected to the cluster at `address`.
    pub fn connect(address: &str, cpu_cores: u32) -> (r: Result<Self, ClusterError>)
        ensures
            r matches Ok(rt) && rt.wf() && rt.tasks() == no_rows::<Task>() && rt.actor_rows() == no_rows::<Actor>(),
    {
        match Cluster::connect(address, cpu_cores) {
            Ok(cluster) => Ok(DistributedRuntime {
                cluster,
                actors: rows_new(),
                pending_tasks: rows_new(),
                node_ids: IdSequence::new(),
                task_ids: IdSequence::new(),
            }),
            Err(e) => Err(e),
        }
    }

    /// The cluster.
    pub fn cluster(&self) -> (r: &Cluster)
        ensures
            r.task_rows() == self.tasks(),
    {
        &self.cluster
    }

    /// Submit `bytecode` with its serialized arguments as a new task with
    /// the cluster's default timeout, and wait for its result; its id.
    pub fn submit_task(&mut self, bytecode: Vec<u8>, args: Vec<u8>) -> (r: Result<TaskId, ClusterError>)
        requires
            old(self).wf(),
            old(self).next_task_number() + 1 < u64::MAX,
        ensures
            final(self).wf(),
            r matches Ok(id) && !old(self).tasks().contains_key(id.0)
                && final(self).tasks().dom() == old(self).tasks().dom().insert(id.0)
                && final(self).tasks()[id.0].status == TaskStatus::Pending
                && final(self).tasks()[id.0].code == bytecode
                && final(self).tasks()[id.0].args == args
                && final(self).pending().contains_key(id.0),
            forall|k: u64| #[trigger] old(self).tasks().contains_key(k) ==> final(self).tasks()[k] == old(self).tasks()[k],
            final(self).actor_rows() == old(self).actor_rows(),
    {
        let id = TaskId::new(&mut self.task_ids);
        let timeout = self.cluster.config().default_timeout;
        let task = Task::new(id, bytecode, args).with_timeout(timeout);
        self.cluster.submit(task);
        let fut = TaskFuture { task_id: id, submitted_at: instant_now(), timeout: Some(timeout) };
        rows_insert(&mut self.pending_tasks, id.0, fut);
        proof {
            assert(self.cluster.task_rows().dom() =~= old(self).cluster.task_rows().dom().insert(id.0));
        }
        Ok(id)
    }

    /// Whether the task `task_id` completed, failed or was cancelled.
    pub fn is_task_complete(&self, task_id: TaskId) -> (r: bool)
        ensures
            r == (self.tasks().contains_key(task_id.0) && (self.tasks()[task_id.0].status is Completed
                || self.tasks()[task_id.0].status is Failed || self.tasks()[task_id.0].status is Cancelled)),
    {
        match self.cluster.task_status(task_id) {
            Some(TaskStatus::Completed(_)) => true,
            Some(TaskStatus::Failed(_)) => true,
            Some(TaskStatus::Cancelled) => true,
            _ => false,
        }
    }

    /// The result of the task `task_id`: its value when it completed, none
    /// while it has not, and an error when it failed or was cancelled.
    pub fn get_task_result(&self, task_id: TaskId) -> (r: Result<Option<JsValue>, ClusterError>)
        ensures
            !self.tasks().contains_key(task_id.0) ==> r matches Ok(None),
            self.tasks().contains_key(task_id.0) ==> match self.tasks()[task_id.0].status {
                TaskStatus::Completed(b) => match decoded_value(b@) {
                    Some(s) => r matches Ok(Some(JsValue::String(t))) && t@ == s,
                    None => r matches Err(ClusterError::Serialization(_)),
                },
                TaskStatus::Failed(e) => r matches Err(ClusterError::TaskFailed(m)) && m@ == e@,
                TaskStatus::Cancelled => r matches Err(ClusterError::TaskFailed(m)) && m@ == "Task was cancelled"@,
                _ => r matches Ok(None),
            },
    {
        match self.cluster.task_status(task_id) {
            Some(TaskStatus::Completed(bytes)) => match deserialize_value(&bytes) {
                Ok(v) => Ok(Some(v)),
                Err(e) => Err(e),
            },
            Some(TaskStatus::Failed(error)) => Err(ClusterError::TaskFailed(error)),
            Some(TaskStatus::Cancelled) => Err(ClusterError::TaskFailed("Task was cancelled".to_string())),
            _ => Ok(None),
        }
    }

    /// Stop waiting for the task `task_id` and cancel it; whether it could
    /// be cancelled.
    pub fn cancel_task(&mut self, task_id: TaskId) -> (r: bool)
        requires
            old(self).wf(),
        ensures
            final(self).wf(),
            final(self).pending() == old(self).pending().remove(task_id.0),
            r == (old(self).tasks().contains_key(task_id.0) && (old(self).tasks()[task_id.0].status is Pending
                || old(self).tasks()[task_id.0].status is Scheduled)),
            r ==> final(self).tasks() == old(self).tasks().insert(task_id.0,
                Task { status: TaskStatus::Cancelled, ..old(self).tasks()[task_id.0] }),
            !r ==> final(self).tasks() == old(self).tasks(),
            final(self).actor_rows() == old(self).actor_rows(),
    {
        rows_remove(&mut self.pending_tasks, task_id.0);
        self.cluster.cancel(task_id)
    }

    /// Create an actor; its number.
    pub fn spawn_actor(&mut self) -> (r: u64)
        requires
            old(self).wf(),
            old(self).next_actor_number() + 1 < u64::MAX,
        ensures
            final(self).wf(),
            !old(self).actor_rows().contains_key(r),
            final(self).actor_rows().dom() == old(self).actor_rows().dom().insert(r),
            final(self).actor_rows()[r].waiting().len() == 0,
            forall|k: u64| #[trigger] old(self).actor_rows().contains_key(k) ==> final(self).actor_rows()[k] == old(self).actor_rows()[k],
            final(self).tasks() == old(self).tasks(),
            final(self).pending() == old(self).pending(),
    {
        let actor = Actor::new(&mut self.node_ids);
        let id = actor.id().0;
        rows_insert(&mut self.actors, id, actor);
        proof {
            assert(self.actors@.dom() =~= old(self).actors@.dom().insert(id));
        }
        id
    }

    /// Send serialized `payload` to the actor `actor_id` as a task result;
    /// an error when there is no such actor.
    pub fn send_to_actor(&mut self, actor_id: u64, payload: Vec<u8>) -> (r: Result<(), ClusterError>)
        requires
            old(self).wf(),
            old(self).next_task_number() + 1 < u64::MAX,
        ensures
            final(self).wf(),
            !old(self).actor_rows().contains_key(actor_id) ==> (r matches Err(ClusterError::NodeNotFound(n)) && n.0 == actor_id
                && final(self).actor_rows() == old(self).actor_rows()),
            old(self).actor_rows().contains_key(actor_id) ==> (r is Ok
                && final(self).actor_rows().dom() == old(self).actor_rows().dom()
                && final(self).actor_rows()[actor_id].waiting().len() == old(self).actor_rows()[actor_id].waiting().len() + 1
                && (final(self).actor_rows()[actor_id].waiting().last() matches Message::TaskResult { task_id, result }
                && result == payload)),
            final(self).tasks() == old(self).tasks(),
            final(self).pending() == old(self).pending(),
    {
        match rows_remove(&mut self.actors, actor_id) {
            Some(mut actor) => {
                let task_id = TaskId::new(&mut self.task_ids);
                actor.send(Message::TaskResult { task_id, result: payload });
                rows_insert(&mut self.actors, actor_id, actor);
                proof {
                    assert(self.actors@.dom() =~= old(self).actors@.dom());
                }
                Ok(())
            },
            None => {
                proof {
                    assert(self.actors@ =~= old(self).actors@);
                }
                Err(ClusterError::NodeNotFound(NodeId(actor_id)))
            },
        }
    }

    /// Take the latest message of the actor `actor_id`: the value of a task
    /// result, none for any other message or an empty mailbox; an error when
    /// there is no such actor.
    pub fn receive_from_actor(&mut self, actor_id: u64) -> (r: Result<Option<JsValue>, ClusterError>)
        requires
            old(self).wf(),
        ensures
            final(self).wf(),
            !old(self).actor_rows().contains_key(actor_id) ==> (r matches Err(ClusterError::NodeNotFound(n)) && n.0 == actor_id),
            old(self).actor_rows().contains_key(actor_id) && old(self).actor_rows()[actor_id].waiting().len() == 0 ==> r matches Ok(None),
            old(self).actor_rows().contains_key(actor_id) && old(self).actor_rows()[actor_id].waiting().len() > 0 ==> ({
                let m = old(self).actor_rows()[actor_id].waiting().last();
                &&& final(self).actor_rows()[actor_id].waiting() == old(self).actor_rows()[actor_id].waiting().drop_last()
                &&& match m {
                    Message::TaskResult { result, .. } => match decoded_value(result@) {
                        Some(s) => r matches Ok(Some(JsValue::String(t))) && t@ == s,
                        None => r matches Err(ClusterError::Serialization(_)),
                    },
                    _ => r matches Ok(None),
                }
            }),
            final(self).actor_rows().dom() == old(self).actor_rows().dom(),
            final(self).tasks() == old(self).tasks(),
            final(self).pending() == old(self).pending(),
    {
        match rows_remove(&mut self.actors, actor_id) {
            Some(mut actor) => {
                let msg = actor.receive();
                rows_insert(&mut self.actors, actor_id, actor);
                proof {
                    assert(self.actors@.dom() =~= old(self).actors@.dom());
                }
                match msg {
                    Some(Message::TaskResult { result, .. }) => match deserialize_value(&result) {
                        Ok(v) => Ok(Some(v)),
                        Err(e) => Err(e),
                    },
                    Some(_) => Ok(None),
                    None => Ok(None),
                }
            },
            None => {
                proof {
                    assert(self.actors@ =~= old(self).actors@);
                }
                Err(ClusterError::NodeNotFound(NodeId(actor_id)))
            },
        }
    }

    /// Stop waiting for the tasks `expired` and cancel each of them that
    /// has not started running.
    pub fn cancel_expired(&mut self, expired: &Vec<u64>)
        requires
            old(self).wf(),
        ensures
            final(self).wf(),
            final(self).pending() == old(self).pending().remove_keys(expired@.to_set()),
            final(self).tasks() == after_cancelling(old(self).tasks(), expired@.to_set()),
            final(self).actor_rows() == old(self).actor_rows(),
    {
        let m = expired.len();
        let mut j: usize = 0;
        proof {
            assert(old(self).pending_tasks@.remove_keys(ids_upto(expired@, 0)) =~= old(self).pending_tasks@);
            assert(after_cancelling(old(self).cluster.task_rows(), ids_upto(expired@, 0)) =~= old(self).cluster.task_rows());
        }
        while j < m
            invariant
                m == expired@.len(),
                0 <= j <= m,
                self.wf(),
                self.pending_tasks@ == old(self).pending_tasks@.remove_keys(ids_upto(expired@, j as int)),
                self.cluster.task_rows() == after_cancelling(old(self).cluster.task_rows(), ids_upto(expired@, j as int)),
                self.actors@ == old(self).actors@,
            decreases m - j,
        {
            let id = expired[j];
            let ghost before_tasks = self.cluster.task_rows();
            rows_remove(&mut self.pending_tasks, id);
            self.cluster.cancel(TaskId(id));
            proof {
                let s0 = ids_upto(expired@, j as int);
                let s1 = ids_upto(expired@, j as int + 1);
                assert(s1 =~= s0.insert(id));
                assert(self.pending_tasks@ =~= old(self).pending_tasks@.remove_keys(s1));
                assert(self.cluster.task_rows() =~= after_cancelling(old(self).cluster.task_rows(), s1));
            }
            j = j + 1;
        }
        proof {
            assert(ids_upto(expired@, m as int) =~= expired@.to_set());
        }
    }

    /// Stop waiting for the tasks whose timeout has passed, by the clock
    /// (see [`timed_out`]), and cancel them: which ones have passed is the
    /// clock's to say.
    pub fn tick(&mut self)
        requires
            old(self).wf(),
        ensures
            final(self).wf(),
            exists|ids: Set<u64>| #[trigger] expired_by(ids, old(self).pending(), old(self).tasks(), final(self).pending(), final(self).tasks()),
            final(self).actor_rows() == old(self).actor_rows(),
    {
        let now = instant_now();
        let keys = rows_keys(&self.pending_tasks);
        let n = keys.len();
        let mut expired: Vec<u64> = Vec::new();
        let mut i: usize = 0;
        while i < n
            invariant
                n == keys@.len(),
                0 <= i <= n,
                forall|q: int| 0 <= q < n ==> self.pending_tasks@.contains_key(#[trigger] keys@[q]),
                forall|q: int| 0 <= q < expired@.len() ==> self.pending_tasks@.contains_key(#[trigger] expired@[q]),
            decreases n - i,
        {
            match rows_get(&self.pending_tasks, keys[i]) {
                Some(fut) => {
                    let waited = crate::distributed::actors::instant_duration_since(&now, &fut.submitted_at);
                    if timed_out(fut, waited) {
                        expired.push(keys[i]);
                    }
                },
                None => {},
            }
            i = i + 1;
        }
        self.cancel_expired(&expired);
        proof {
            assert(expired@.to_set().subset_of(old(self).pending().dom()));
            assert(expired_by(expired@.to_set(), old(self).pending(), old(self).tasks(), self.pending(), self.tasks()));
        }
    }

    /// The number of tasks waiting for a result.
    pub fn pending_task_count(&self) -> (r: usize)
        ensures
            is_row_count(r, self.pending()),
    {
        rows_len(&self.pending_tasks)
    }

    /// The number of local actors.
    pub fn actor_count(&self) -> (r: usize)
        ensures
            is_row_count(r, self.actor_rows()),
    {
        rows_len(&self.actors)
    }
}

} // verus!
