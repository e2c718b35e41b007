use quicksilver::durable::sqlite_backend::{
    object_id_of_file, text_less, AlarmScheduler, DurableConfig, DurableObjectManager, EvictionPolicy,
    ObjectState, SqliteStorage, Transaction, TransactionState, WalOp,
};
use quicksilver::durable::{DurableObject, MemoryStorage, StorageBackend, StrMap};
use quicksilver::error::Error;
use quicksilver::value::JsValue;
use serde_json::Value;
use std::cell::RefCell;
use std::rc::Rc;
use std::time::{Duration, Instant};

fn num(x: f64) -> JsValue {
    JsValue::Number(x.to_bits())
}

fn is_num(v: Option<&JsValue>, x: f64) -> bool {
    matches!(v, Some(JsValue::Number(b)) if *b == x.to_bits())
}

fn is_str(v: Option<&JsValue>, s: &str) -> bool {
    matches!(v, Some(JsValue::String(t)) if t == s)
}

/// A backend that several objects share, as a test shares one storage.
struct Shared(Rc<RefCell<MemoryStorage>>);

impl StorageBackend for Shared {
    fn load(&self, id: &str) -> Result<Option<StrMap<JsValue>>, Error> {
        self.0.borrow().load(id)
    }
    fn save(&mut self, id: &str, state: &StrMap<JsValue>) -> Result<(), Error> {
        self.0.borrow_mut().save(id, state)
    }
    fn delete(&mut self, id: &str) -> Result<(), Error> {
        self.0.borrow_mut().delete(id)
    }
    fn list_objects(&self) -> Result<Vec<String>, Error> {
        self.0.borrow().list_objects()
    }
}

#[test]
fn test_durable_object_crud() {
    let mut obj = DurableObject::new("test1", MemoryStorage::new()).unwrap();
    obj.set("name", JsValue::String("Alice".to_string())).unwrap();
    obj.set("age", num(30.0)).unwrap();
    assert!(is_str(obj.get("name"), "Alice"));
    assert!(is_num(obj.get("age"), 30.0));
    assert_eq!(obj.len(), 2);
    obj.delete("age").unwrap();
    assert!(obj.get("age").is_none());
    assert_eq!(obj.len(), 1);
}

#[test]
fn test_durable_object_persist_and_hydrate() {
    let storage = Rc::new(RefCell::new(MemoryStorage::new()));
    {
        let mut obj = DurableObject::new("test2", Shared(storage.clone())).unwrap();
        obj.set("key", JsValue::String("value".to_string())).unwrap();
        obj.persist().unwrap();
    }
    {
        let obj = DurableObject::new("test2", Shared(storage.clone())).unwrap();
        assert!(is_str(obj.get("key"), "value"));
    }
}

#[test]
fn mod_test_transaction_commit() {
    let mut obj = DurableObject::new("test3", MemoryStorage::new()).unwrap();
    let result = obj.transaction(|ctx| {
        ctx.set("a", num(1.0));
        ctx.set("b", num(2.0));
        Ok(())
    });
    assert!(result.is_ok());
    assert!(is_num(obj.get("a"), 1.0));
    assert!(is_num(obj.get("b"), 2.0));
}

#[test]
fn mod_test_transaction_rollback() {
    let mut obj = DurableObject::new("test4", MemoryStorage::new()).unwrap();
    obj.set("x", num(10.0)).unwrap();
    let result: Result<(), Error> = obj.transaction(|ctx| {
        ctx.set("x", num(20.0));
        Err(Error::type_error("abort"))
    });
    assert!(result.is_err());
    assert!(is_num(obj.get("x"), 10.0));
}

#[test]
fn test_clear() {
    let mut obj = DurableObject::new("test5", MemoryStorage::new()).unwrap();
    obj.set("a", num(1.0)).unwrap();
    obj.set("b", num(2.0)).unwrap();
    obj.clear().unwrap();
    assert!(obj.is_empty());
}

#[test]
fn test_to_value() {
    let mut obj = DurableObject::new("test6", MemoryStorage::new()).unwrap();
    obj.set("key", JsValue::String("val".to_string())).unwrap();
    match obj.to_value() {
        JsValue::Object(props) => {
            assert!(props.iter().any(|(k, _)| k == "key"));
        }
        _ => panic!("not an object"),
    }
}

#[test]
fn durable_auto_persist_after_threshold() {
    let storage = Rc::new(RefCell::new(MemoryStorage::new()));
    let mut obj = DurableObject::new("auto", Shared(storage.clone())).unwrap();
    for i in 0..100 {
        obj.set("k", num(i as f64)).unwrap();
    }
    // The hundredth mutation saved the state.
    let loaded = storage.borrow().load("auto").unwrap().unwrap();
    assert!(is_num(loaded.get("k"), 99.0));
}

#[test]
fn durable_delete_missing_key() {
    let mut obj = DurableObject::new("d", MemoryStorage::new()).unwrap();
    assert_eq!(obj.delete("nope").unwrap(), false);
}

#[test]
fn memory_storage_list_and_delete() {
    let mut s = MemoryStorage::new();
    let state: StrMap<JsValue> = StrMap::default();
    s.save("a", &state).unwrap();
    s.save("b", &state).unwrap();
    let mut ids = s.list_objects().unwrap();
    ids.sort();
    assert_eq!(ids, vec!["a".to_string(), "b".to_string()]);
    s.delete("a").unwrap();
    assert!(s.load("a").unwrap().is_none());
}

// -- stored objects ----------------------------------------------------------

#[test]
fn test_sqlite_storage_basic_crud() {
    let mut s = SqliteStorage::new("data");
    s.set("name", "Alice".into());
    s.set("age", "30".into());
    assert_eq!(s.get("name"), Some(&"Alice".to_string()));
    assert_eq!(s.len(), 2);
    s.delete_key("age");
    assert!(s.get("age").is_none());
    assert_eq!(s.len(), 1);
}

#[test]
fn test_sqlite_storage_persist_and_reload() {
    let saved: StrMap<String>;
    {
        let mut s = SqliteStorage::new("data");
        s.set("key", "value".into());
        saved = s.sorted_entries().into_iter().collect();
        s.mark_saved();
    }
    {
        let mut s = SqliteStorage::new("data");
        s.load_from(Some(saved), None);
        assert_eq!(s.get("key"), Some(&"value".to_string()));
    }
}

#[test]
fn test_sqlite_storage_wal_recovery() {
    let journal;
    {
        let mut s = SqliteStorage::new("data");
        s.set("a", "1".into());
        journal = s.wal_entries().clone();
    }
    {
        let mut s = SqliteStorage::new("data");
        s.load_from(None, Some(journal));
        assert_eq!(s.get("a"), Some(&"1".to_string()));
        assert!(s.is_dirty());
    }
}

#[test]
fn test_sqlite_storage_clear() {
    let mut s = SqliteStorage::new("data");
    s.set("x", "1".into());
    s.set("y", "2".into());
    s.clear();
    assert!(s.is_empty());
    assert!(matches!(s.wal_entries().last().map(|e| &e.op), Some(WalOp::Clear)));
}

#[test]
fn test_sqlite_storage_list_objects() {
    let files = ["obj1.json", "obj2.json", "obj1.wal.json", "obj2.tmp.json", "notes.txt"];
    let mut ids: Vec<String> = files.iter().filter_map(|f| object_id_of_file(f)).collect();
    ids.sort();
    assert_eq!(ids, vec!["obj1", "obj2"]);
}

#[test]
fn test_sqlite_storage_dirty_flag() {
    let mut s = SqliteStorage::new("data");
    assert!(!s.is_dirty());
    s.set("k", "v".into());
    assert!(s.is_dirty());
    s.mark_saved();
    assert!(!s.is_dirty());
}

#[test]
fn sqlite_storage_replay_after_save() {
    // Data saved, then more mutations logged: replaying the log onto the
    // saved data gives the data as it was.
    let mut s = SqliteStorage::new("data");
    s.set("a", "1".into());
    s.set("b", "2".into());
    let saved: StrMap<String> = s.sorted_entries().into_iter().collect();
    s.mark_saved();
    s.delete_key("a");
    s.set("c", "3".into());
    let mut r = SqliteStorage::new("data");
    r.load_from(Some(saved), Some(s.wal_entries().clone()));
    let mut keys = r.keys();
    keys.sort();
    assert_eq!(keys, vec!["b", "c"]);
    assert_eq!(r.get("c"), Some(&"3".to_string()));
}

#[test]
fn sqlite_storage_sorted_entries() {
    let mut s = SqliteStorage::new("data");
    s.set("b", "2".into());
    s.set("a", "1".into());
    s.set("ab", "3".into());
    let e = s.sorted_entries();
    let keys: Vec<&str> = e.iter().map(|(k, _)| k.as_str()).collect();
    assert_eq!(keys, vec!["a", "ab", "b"]);
}

#[test]
fn text_order() {
    assert!(text_less("a", "b"));
    assert!(text_less("a", "ab"));
    assert!(!text_less("b", "ab"));
    assert!(!text_less("a", "a"));
    assert!(text_less("", "a"));
}

// -- managed objects ---------------------------------------------------------

/// The steps of getting (or creating) an object, with nothing saved on disk.
fn get_or_create(mgr: &mut DurableObjectManager, id: &str) {
    if mgr.lookup(id) {
        return;
    }
    mgr.record_miss();
    if mgr.at_capacity() {
        if let Some(victim) = mgr.eviction_victim() {
            if mgr.is_dirty(&victim) {
                mgr.persist_plan(&victim).unwrap();
                mgr.mark_clean(&victim);
            }
            mgr.remove_evicted(&victim);
        }
    }
    mgr.take_in(id, StrMap::default());
}

fn write(mgr: &mut DurableObjectManager, id: &str, key: &str, value: Value) {
    mgr.check_value_size(&value).unwrap();
    mgr.count_write();
    get_or_create(mgr, id);
    if mgr.put_value(id, key, value) {
        mgr.persist_plan(id).unwrap();
        mgr.mark_clean(id);
    }
}

fn read(mgr: &mut DurableObjectManager, id: &str, key: &str) -> Option<Value> {
    mgr.count_read();
    get_or_create(mgr, id);
    mgr.value_of(id, key)
}

fn config(max_objects: usize, policy: EvictionPolicy) -> DurableConfig {
    DurableConfig { max_objects, eviction_policy: policy, ..Default::default() }
}

#[test]
fn test_manager_create_and_read() {
    let mut mgr = DurableObjectManager::new(DurableConfig::default());
    write(&mut mgr, "obj1", "key", Value::String("hello".to_string()));
    assert_eq!(read(&mut mgr, "obj1", "key"), Some(Value::String("hello".to_string())));
}

#[test]
fn test_manager_persist_and_reload() {
    let saved: StrMap<Value>;
    {
        let mut mgr = DurableObjectManager::new(DurableConfig::default());
        write(&mut mgr, "obj1", "x", Value::from(42));
        let plan = mgr.persist_plan("obj1").unwrap().unwrap();
        mgr.mark_clean("obj1");
        saved = plan.into_iter().collect();
    }
    {
        let mut mgr = DurableObjectManager::new(DurableConfig::default());
        mgr.count_read();
        mgr.record_miss();
        mgr.take_in("obj1", saved);
        assert_eq!(mgr.value_of("obj1", "x"), Some(Value::from(42)));
    }
}

#[test]
fn test_manager_eviction_lru() {
    let mut mgr = DurableObjectManager::new(config(2, EvictionPolicy::LRU));
    write(&mut mgr, "a", "k", Value::from(1));
    write(&mut mgr, "b", "k", Value::from(2));
    read(&mut mgr, "a", "k");
    write(&mut mgr, "c", "k", Value::from(3));
    assert_eq!(mgr.object_count(), 2);
    assert!(mgr.object_state("b").is_none());
    assert_eq!(mgr.stats().evictions, 1);
}

#[test]
fn test_manager_eviction_lfu() {
    let mut mgr = DurableObjectManager::new(config(2, EvictionPolicy::LFU));
    write(&mut mgr, "a", "k", Value::from(1));
    write(&mut mgr, "b", "k", Value::from(2));
    for _ in 0..5 {
        read(&mut mgr, "a", "k");
    }
    write(&mut mgr, "c", "k", Value::from(3));
    assert!(mgr.object_state("b").is_none());
}

#[test]
fn manager_manual_eviction_keeps_all() {
    let mut mgr = DurableObjectManager::new(config(1, EvictionPolicy::Manual));
    write(&mut mgr, "a", "k", Value::from(1));
    assert!(mgr.eviction_victim().is_none());
    write(&mut mgr, "b", "k", Value::from(2));
    assert_eq!(mgr.object_count(), 2);
}

#[test]
fn test_manager_hibernation() {
    let cfg = DurableConfig { hibernation_timeout: Duration::from_millis(0), ..Default::default() };
    let mut mgr = DurableObjectManager::new(cfg);
    write(&mut mgr, "obj1", "k", Value::from(1));
    let t = Instant::now();
    while t.elapsed().as_nanos() < 1_000_000 {}
    let hibernated = mgr.hibernate_idle();
    assert!(hibernated.contains(&"obj1".to_string()));
    assert_eq!(mgr.object_state("obj1"), Some(ObjectState::Hibernating));
    read(&mut mgr, "obj1", "k");
    assert_eq!(mgr.object_state("obj1"), Some(ObjectState::Active));
}

#[test]
fn test_manager_mark_corrupted() {
    let mut mgr = DurableObjectManager::new(DurableConfig::default());
    write(&mut mgr, "obj1", "k", Value::from(1));
    mgr.mark_corrupted("obj1");
    assert_eq!(mgr.object_state("obj1"), Some(ObjectState::Corrupted));
}

#[test]
fn test_manager_stats() {
    let mut mgr = DurableObjectManager::new(DurableConfig::default());
    write(&mut mgr, "obj1", "a", Value::from(1));
    read(&mut mgr, "obj1", "a");
    read(&mut mgr, "obj1", "a");
    assert_eq!(mgr.stats().total_writes, 1);
    assert_eq!(mgr.stats().total_reads, 2);
    assert_eq!(mgr.stats().cache_misses, 1);
    assert!(mgr.stats().cache_hits >= 2);
}

#[test]
fn test_manager_delete_key() {
    let mut mgr = DurableObjectManager::new(DurableConfig::default());
    write(&mut mgr, "obj1", "a", Value::from(1));
    write(&mut mgr, "obj1", "b", Value::from(2));
    mgr.count_write();
    get_or_create(&mut mgr, "obj1");
    assert!(mgr.delete_value("obj1", "a"));
    assert_eq!(read(&mut mgr, "obj1", "a"), None);
    assert_eq!(read(&mut mgr, "obj1", "b"), Some(Value::from(2)));
}

#[test]
fn manager_persist_plan() {
    let mut mgr = DurableObjectManager::new(DurableConfig::default());
    assert!(matches!(mgr.persist_plan("none"), Err(Error::ModuleError(m)) if m == "Object not found: none"));
    write(&mut mgr, "obj1", "b", Value::from(2));
    write(&mut mgr, "obj1", "a", Value::from(1));
    let plan = mgr.persist_plan("obj1").unwrap().unwrap();
    let keys: Vec<&str> = plan.iter().map(|(k, _)| k.as_str()).collect();
    assert_eq!(keys, vec!["a", "b"]);
    assert_eq!(mgr.dirty_ids(), vec!["obj1".to_string()]);
    mgr.mark_clean("obj1");
    assert!(mgr.persist_plan("obj1").unwrap().is_none());
    assert!(mgr.dirty_ids().is_empty());
}

#[test]
fn manager_refuses_large_values() {
    let cfg = DurableConfig { max_object_size: 3, ..Default::default() };
    let mgr = DurableObjectManager::new(cfg);
    assert!(mgr.check_value_size(&Value::from(123)).is_ok());
    assert!(matches!(mgr.check_value_size(&Value::from(1234)), Err(Error::ModuleError(m)) if m == "Value exceeds max_object_size"));
}

// -- transactions ------------------------------------------------------------

fn data_of(pairs: &[(&str, Value)]) -> StrMap<Value> {
    let mut m: StrMap<Value> = StrMap::default();
    for (k, v) in pairs {
        m.insert(k.to_string(), v.clone());
    }
    m
}

#[test]
fn sqlite_backend_test_transaction_commit() {
    let mut data = data_of(&[("x", Value::from(1))]);
    let mut txn = Transaction::begin("obj1", &data);
    txn.put("y", Value::from(2));
    let val = txn.get("x");
    assert_eq!(val, Some(Value::from(1)));
    let results = txn.commit(&mut data).unwrap();
    assert_eq!(data.get("y"), Some(&Value::from(2)));
    assert_eq!(results.len(), 2);
}

#[test]
fn sqlite_backend_test_transaction_rollback() {
    let data = data_of(&[("x", Value::from(1))]);
    let mut txn = Transaction::begin("obj1", &data);
    txn.put("x", Value::from(999));
    txn.delete("x");
    let state = txn.rollback();
    assert_eq!(state, TransactionState::RolledBack);
    assert_eq!(data.get("x"), Some(&Value::from(1)));
}

#[test]
fn test_transaction_list_with_prefix() {
    let data = data_of(&[
        ("user:1", Value::String("Alice".to_string())),
        ("user:2", Value::String("Bob".to_string())),
        ("post:1", Value::String("Hello".to_string())),
    ]);
    let mut txn = Transaction::begin("obj1", &data);
    let keys = txn.list(Some("user:"), None);
    assert_eq!(keys.len(), 2);
    assert!(keys.contains(&"user:1".to_string()));
    assert!(keys.contains(&"user:2".to_string()));
    let limited = txn.list(Some("user:"), Some(1));
    assert_eq!(limited.len(), 1);
}

#[test]
fn transaction_list_sorted_and_recorded() {
    let data = data_of(&[("b", Value::from(1)), ("a", Value::from(2)), ("c", Value::from(3))]);
    let mut txn = Transaction::begin("obj9", &data);
    assert!(txn.id.starts_with("txn-obj9-"));
    assert_eq!(txn.list(None, Some(2)), vec!["a", "b"]);
    assert_eq!(txn.list(None, None), vec!["a", "b", "c"]);
    assert_eq!(txn.op_count(), 2);
    assert_eq!(txn.transaction_state(), TransactionState::Active);
}

// -- alarms ------------------------------------------------------------------

#[test]
fn test_alarm_schedule_and_cancel() {
    let mut scheduler = AlarmScheduler::new();
    scheduler.set_alarm("obj1", Duration::from_secs(60), "onAlarm", None);
    assert_eq!(scheduler.pending_count(), 1);
    assert!(scheduler.get_alarm("obj1").is_some());
    scheduler.cancel_alarm("obj1");
    assert_eq!(scheduler.pending_count(), 0);
}

#[test]
fn test_alarm_collect_due() {
    let mut scheduler = AlarmScheduler::new();
    scheduler.set_alarm("obj1", Duration::from_millis(10), "tick", None);
    scheduler.set_alarm("obj2", Duration::from_secs(3600), "later", None);
    let due = scheduler.collect_due(Duration::from_millis(50));
    assert_eq!(due.len(), 1);
    assert_eq!(due[0].object_id, "obj1");
    assert_eq!(scheduler.pending_count(), 1);
}

#[test]
fn test_alarm_with_data() {
    let mut scheduler = AlarmScheduler::new();
    let mut payload = serde_json::Map::new();
    payload.insert("batch".to_string(), Value::from(42));
    scheduler.set_alarm("obj1", Duration::from_secs(1), "process", Some(Value::Object(payload.clone())));
    let alarm = scheduler.get_alarm("obj1").unwrap();
    assert_eq!(alarm.callback_name, "process");
    assert_eq!(alarm.data, Some(Value::Object(payload)));
}

#[test]
fn alarm_due_at_exact_time() {
    let mut scheduler = AlarmScheduler::new();
    scheduler.set_alarm("o", Duration::from_millis(50), "t", None);
    assert_eq!(scheduler.collect_due(Duration::from_millis(50)).len(), 1);
    assert_eq!(scheduler.pending_count(), 0);
}

#[test]
fn manager_idle_threshold() {
    let cfg = DurableConfig { hibernation_timeout: Duration::from_secs(10), ..Default::default() };
    let mgr = DurableObjectManager::new(cfg);
    assert!(mgr.is_idle_after(Duration::from_secs(11)));
    assert!(!mgr.is_idle_after(Duration::from_secs(10)));
}

#[test]
fn transaction_of_infallible_closure_succeeds() {
    let mut obj = DurableObject::new("t", MemoryStorage::new()).unwrap();
    let r = obj.transaction(|ctx| {
        ctx.set("k", JsValue::Null);
        Ok(7)
    });
    assert_eq!(r.unwrap(), 7);
    assert!(matches!(obj.get("k"), Some(JsValue::Null)));
}
