use quicksilver::distributed::{
    least_loaded, timed_out, Cluster, ClusterConfig, IdSequence, NodeId, NodeInfo, NodeStatus, Task, TaskFuture, TaskId,
    TaskStatus, DistributedRuntime,
};
use std::time::{Duration, Instant};

fn node(id: u64, tasks: u32) -> NodeInfo {
    let mut n = NodeInfo::new(NodeId(id), "host", 4);
    n.status = NodeStatus::Ready;
    n.current_tasks = tasks;
    n
}

#[test]
fn least_loaded_picks_first_minimum() {
    assert_eq!(least_loaded(&vec![]), None);
    let nodes = vec![node(1, 3), node(2, 1), node(3, 1)];
    assert_eq!(least_loaded(&nodes), Some(NodeId(2)));
}

#[test]
fn select_node_prefers_idle_ready_node() {
    let mut cluster = Cluster::new(ClusterConfig::default(), 4);
    cluster.register_node(node(1, 5));
    cluster.register_node(node(2, 0));
    let mut off = node(3, 0);
    off.status = NodeStatus::Offline;
    cluster.register_node(off);
    assert_eq!(cluster.select_node(), Some(NodeId(2)));
}

#[test]
fn timed_out_compares_with_timeout() {
    let with = TaskFuture { task_id: TaskId(1), submitted_at: Instant::now(), timeout: Some(Duration::from_secs(1)) };
    assert!(timed_out(&with, Duration::from_secs(2)));
    assert!(!timed_out(&with, Duration::from_secs(1)));
    let without = TaskFuture { task_id: TaskId(2), submitted_at: Instant::now(), timeout: None };
    assert!(!timed_out(&without, Duration::from_secs(100)));
}

#[test]
fn cancel_expired_cancels_pending_tasks() {
    let mut rt = DistributedRuntime::new(4);
    let a = rt.submit_task(vec![1], vec![]).unwrap();
    let b = rt.submit_task(vec![2], vec![]).unwrap();
    rt.cancel_expired(&vec![a.0]);
    assert_eq!(rt.pending_task_count(), 1);
    assert!(rt.is_task_complete(a));
    assert!(!rt.is_task_complete(b));
    assert!(matches!(rt.cluster().task_status(a), Some(TaskStatus::Cancelled)));
}

#[test]
fn tick_keeps_fresh_tasks() {
    let mut rt = DistributedRuntime::new(4);
    let a = rt.submit_task(vec![1], vec![]).unwrap();
    rt.tick();
    assert_eq!(rt.pending_task_count(), 1);
    assert!(!rt.is_task_complete(a));
    let mut ids = IdSequence::new();
    let t = Task::new(TaskId::new(&mut ids), vec![], vec![]);
    assert_eq!(t.id, TaskId(1));
}
