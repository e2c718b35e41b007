//! Durable objects: key-value state that survives restarts through a
//! pluggable storage backend, with a write-ahead log of every mutation and
//! transactions that either apply as a whole or leave the state as it was.
use vstd::prelude::*;
use std::collections::HashMap;
use rustc_hash::FxBuildHasher;
use crate::error::Error;
use crate::value::{JsValue, ValueModel};
use crate::json::{JsonValue, json_parse_outcome, parse_json, pretty_json_outcome, pretty_json};
use crate::text::{string_of, push_str};

pub mod sqlite_backend;

verus! {

// ───────────────────────────── String-keyed maps ─────────────────────────────

/// A map keyed by strings, hashed with rustc-hash's Fx hasher.
pub type StrMap<V> = HashMap<String, V, FxBuildHasher>;

/// The entries of a string-keyed map, each key taken by its characters.
pub closed spec fn str_entries<V>(m: StrMap<V>) -> Map<Seq<char>, V> {
    Map::new(
        |k: Seq<char>| exists|s: String| s@ == k && m@.contains_key(s),
        |k: Seq<char>| m@[choose|s: String| s@ == k && m@.contains_key(s)],
    )
}

/// The map with no entries.
pub open spec fn empty_entries<V>() -> Map<Seq<char>, V> {
    Map::empty()
}

/// `n` is the number of keys of `m`.
pub open spec fn is_entry_count<V>(n: usize, m: Map<Seq<char>, V>) -> bool {
    m.dom().finite() && n == m.dom().len()
}

/// `v` lists the keys of `m`, each once.
pub open spec fn lists_keys<V>(v: Seq<String>, m: Map<Seq<char>, V>) -> bool {
    &&& forall|i: int| 0 <= i < v.len() ==> m.contains_key((#[trigger] v[i])@)
    &&& forall|i: int, j: int| 0 <= i < j < v.len() ==> (#[trigger] v[i])@ != (#[trigger] v[j])@
    &&& forall|k: Seq<char>| m.contains_key(k) ==> exists|i: int| 0 <= i < v.len() && (#[trigger] v[i])@ == k
}

/// A listing of the keys has as many places as there are keys.
pub proof fn lemma_listed_count<V>(v: Seq<String>, m: Map<Seq<char>, V>)
    requires
        lists_keys(v, m),
    ensures
        v.len() == m.dom().len(),
        m.dom().finite(),
{
    let w = v.map_values(|s: String| s@);
    assert(w.no_duplicates()) by {
        assert forall|i: int, j: int| 0 <= i < w.len() && 0 <= j < w.len() && i != j implies w[i] != w[j] by {
            if i < j {
                assert(v[i]@ != v[j]@);
            } else {
                assert(v[j]@ != v[i]@);
            }
        }
    }
    w.unique_seq_to_set();
    assert(w.to_set() =~= m.dom()) by {
        assert forall|k: Seq<char>| #[trigger] m.dom().contains(k) implies w.to_set().contains(k) by {
            let i = choose|i: int| 0 <= i < v.len() && (#[trigger] v[i])@ == k;
            assert(w[i] == k);
        }
        assert forall|k: Seq<char>| #[trigger] w.to_set().contains(k) implies m.dom().contains(k) by {
            let i = choose|i: int| 0 <= i < w.len() && w[i] == k;
            assert(m.contains_key(v[i]@));
        }
    }
}

/// `HashMap::default`: a map with no entries.
#[verifier::external_body]
pub(crate) fn str_map_new<V>() -> (r: StrMap<V>)
    ensures
        str_entries(r) == empty_entries::<V>(),
{
    HashMap::default()
}

/// `HashMap::get`: the value of the key, if it has one.
#[verifier::external_body]
pub(crate) fn str_map_get<'a, V>(m: &'a StrMap<V>, key: &str) -> (r: Option<&'a V>)
    ensures
        match r {
            Some(v) => str_entries(*m).contains_key(key@) && str_entries(*m)[key@] == *v,
            None => !str_entries(*m).contains_key(key@),
        },
{
    m.get(key)
}

/// `HashMap::insert`: the key now maps to the value; other keys keep theirs.
#[verifier::external_body]
pub(crate) fn str_map_insert<V>(m: &mut StrMap<V>, key: String, value: V)
    ensures
        str_entries(*final(m)) == str_entries(*old(m)).insert(key@, value),
{
    m.insert(key, value);
}

/// `HashMap::remove`: the key no longer has a value; the value it had is
/// handed back.
#[verifier::external_body]
pub(crate) fn str_map_remove<V>(m: &mut StrMap<V>, key: &str) -> (r: Option<V>)
    ensures
        str_entries(*final(m)) == str_entries(*old(m)).remove(key@),
        match r {
            Some(v) => str_entries(*old(m)).contains_key(key@) && str_entries(*old(m))[key@] == v,
            None => !str_entries(*old(m)).contains_key(key@),
        },
{
    m.remove(key)
}

/// `HashMap::len`: the number of keys.
#[verifier::external_body]
pub(crate) fn str_map_len<V>(m: &StrMap<V>) -> (r: usize)
    ensures
        is_entry_count(r, str_entries(*m)),
{
    m.len()
}

/// `HashMap::clear`: no key has a value any more.
#[verifier::external_body]
pub(crate) fn str_map_clear<V>(m: &mut StrMap<V>)
    ensures
        str_entries(*final(m)) == empty_entries::<V>(),
{
    m.clear()
}

/// `HashMap::keys`, collected: every key once, in the map's own order.
#[verifier::external_body]
pub(crate) fn str_map_keys<V>(m: &StrMap<V>) -> (r: Vec<String>)
    ensures
        lists_keys(r@, str_entries(*m)),
{
    m.keys().cloned().collect()
}

/// `HashMap::clone` on a map of JSON values: the same entries.
#[verifier::external_body]
pub(crate) fn json_map_clone(m: &StrMap<serde_json::Value>) -> (r: StrMap<serde_json::Value>)
    ensures
        str_entries(r) == str_entries(*m),
{
    m.clone()
}

/// The models of a map of runtime values.
pub open spec fn value_models(m: Map<Seq<char>, JsValue>) -> Map<Seq<char>, ValueModel> {
    m.map_values(|v: JsValue| v@)
}

/// A copy of a map of runtime values, entry by entry.
pub fn copy_values(m: &StrMap<JsValue>) -> (r: StrMap<JsValue>)
    ensures
        value_models(str_entries(r)) == value_models(str_entries(*m)),
{
    let keys = str_map_keys(m);
    let n = keys.len();
    let mut r: StrMap<JsValue> = str_map_new();
    let mut i: usize = 0;
    while i < n
        invariant
            n == keys@.len(),
            0 <= i <= n,
            lists_keys(keys@, str_entries(*m)),
            forall|k: Seq<char>| #[trigger] str_entries(r).contains_key(k) <==> exists|j: int| 0 <= j < i && keys@[j]@ == k,
            forall|k: Seq<char>| #[trigger] str_entries(r).contains_key(k) ==> str_entries(r)[k]@ == str_entries(*m)[k]@,
        decreases n - i,
    {
        let key = &keys[i];
        match str_map_get(m, key.as_str()) {
            Some(v) => {
                let c = v.duplicate();
                str_map_insert(&mut r, key.clone(), c);
            },
            None => {},
        }
        i = i + 1;
        proof {
            assert forall|k: Seq<char>| #[trigger] str_entries(r).contains_key(k) <==> exists|j: int| 0 <= j < i && keys@[j]@ == k by {
                if exists|j: int| 0 <= j < i && keys@[j]@ == k {
                    let j = choose|j: int| 0 <= j < i && keys@[j]@ == k;
                    if j == i - 1 {
                    } else {
                    }
                }
            }
        }
    }
    proof {
        assert(value_models(str_entries(r)) =~= value_models(str_entries(*m))) by {
            assert forall|k: Seq<char>| str_entries(r).contains_key(k) <==> #[trigger] str_entries(*m).contains_key(k) by {
                if str_entries(*m).contains_key(k) {
                    let j = choose|j: int| 0 <= j < keys@.len() && (#[trigger] keys@[j])@ == k;
                    assert(0 <= j < n);
                }
                if str_entries(r).contains_key(k) {
                    let j = choose|j: int| 0 <= j < i && keys@[j]@ == k;
                    assert(str_entries(*m).contains_key(keys@[j]@));
                }
            }
        }
    }
    r
}


// ───────────────────────────── Timestamps ─────────────────────────────

#[verifier::external_type_specification]
#[verifier::external_body]
pub struct ExSystemTime(std::time::SystemTime);

/// `SystemTime::now`: the wall-clock time; nothing is promised of it.
#[verifier::external_body]
fn system_time_now() -> std::time::SystemTime {
    std::time::SystemTime::now()
}

/// `SystemTime::duration_since(UNIX_EPOCH)`: the time since the epoch, or
/// none when the clock stands before it; nothing is promised of its value.
#[verifier::external_body]
fn since_unix_epoch(t: &std::time::SystemTime) -> Option<std::time::Duration> {
    t.duration_since(std::time::UNIX_EPOCH).ok()
}

/// Milliseconds since the Unix epoch, or 0 when the clock stands before it.
pub(crate) fn current_timestamp() -> u64 {
    let now = system_time_now();
    match since_unix_epoch(&now) {
        Some(d) => {
            let ms = crate::event_loop::duration_as_millis(&d);
            if ms <= u64::MAX as u128 {
                ms as u64
            } else {
                u64::MAX
            }
        },
        None => 0,
    }
}

// ───────────────────────────── Write-ahead log ─────────────────────────────

/// What one logged mutation did, by its model.
pub enum LogOp {
    Put(Seq<char>, ValueModel),
    Delete(Seq<char>),
    Clear,
}

/// One mutation of an object's state.
#[derive(Debug)]
enum WalOperation {
    Put(String, JsValue),
    Delete(String),
    Clear,
}

/// A logged mutation with the time it was made.
#[derive(Debug)]
struct WalEntry {
    timestamp: u64,
    operation: WalOperation,
}

impl WalEntry {
    spec fn model(self) -> LogOp {
        match self.operation {
            WalOperation::Put(k, v) => LogOp::Put(k@, v@),
            WalOperation::Delete(k) => LogOp::Delete(k@),
            WalOperation::Clear => LogOp::Clear,
        }
    }
}

/// The models of logged entries, in order.
spec fn log_models(s: Seq<WalEntry>) -> Seq<LogOp> {
    s.map_values(|e: WalEntry| e.model())
}

/// The state after one logged mutation.
pub open spec fn apply_log_op(s: Map<Seq<char>, ValueModel>, op: LogOp) -> Map<Seq<char>, ValueModel> {
    match op {
        LogOp::Put(k, v) => s.insert(k, v),
        LogOp::Delete(k) => s.remove(k),
        LogOp::Clear => Map::empty(),
    }
}

/// The state after a run of logged mutations, applied in order.
pub open spec fn replay_log(s: Map<Seq<char>, ValueModel>, ops: Seq<LogOp>) -> Map<Seq<char>, ValueModel>
    decreases ops.len(),
{
    if ops.len() == 0 {
        s
    } else {
        apply_log_op(replay_log(s, ops.drop_last()), ops.last())
    }
}

/// The log of mutations since the state was last saved.
struct WriteAheadLog {
    object_id: String,
    entries: Vec<WalEntry>,
}

impl WriteAheadLog {
    fn new(object_id: &str) -> (r: Self)
        ensures
            r.object_id@ == object_id@,
            r.entries@.len() == 0,
    {
        WriteAheadLog { object_id: object_id.to_string(), entries: Vec::new() }
    }

    fn append(&mut self, entry: WalEntry)
        ensures
            final(self).entries@ == old(self).entries@.push(entry),
    {
        self.entries.push(entry);
    }

    fn truncate(&mut self)
        ensures
            final(self).entries@.len() == 0,
    {
        self.entries.clear();
    }
}

/// Apply the logged mutations to `state`, in order.
fn replay_into(entries: &Vec<WalEntry>, state: &mut StrMap<JsValue>)
    ensures
        value_models(str_entries(*final(state))) == replay_log(value_models(str_entries(*old(state))), log_models(entries@)),
{
    let n = entries.len();
    let mut i: usize = 0;
    while i < n
        invariant
            n == entries@.len(),
            0 <= i <= n,
            value_models(str_entries(*state)) == replay_log(value_models(str_entries(*old(state))), log_models(entries@.subrange(0, i as int))),
        decreases n - i,
    {
        let ghost before = value_models(str_entries(*state));
        match &entries[i].operation {
            WalOperation::Put(k, v) => {
                let c = v.duplicate();
                str_map_insert(state, k.clone(), c);
            },
            WalOperation::Delete(k) => {
                str_map_remove(state, k.as_str());
            },
            WalOperation::Clear => {
                str_map_clear(state);
            },
        }
        proof {
            let pre = entries@.subrange(0, i as int);
            let post = entries@.subrange(0, i as int + 1);
            assert(log_models(post).drop_last() =~= log_models(pre));
            assert(log_models(post).last() == entries@[i as int].model());
            assert(value_models(str_entries(*state)) =~= apply_log_op(before, entries@[i as int].model()));
        }
        i = i + 1;
    }
    proof {
        assert(entries@.subrange(0, n as int) =~= entries@);
    }
}

// ───────────────────────────── Storage backends ─────────────────────────────

/// Where a durable object keeps its state between runs.
pub trait StorageBackend {
    /// The saved state of the object `id`, if one was saved.
    fn load(&self, id: &str) -> Result<Option<StrMap<JsValue>>, Error>;

    /// Save `state` as the state of the object `id`.
    fn save(&mut self, id: &str, state: &StrMap<JsValue>) -> Result<(), Error>;

    /// Forget the saved state of the object `id`.
    fn delete(&mut self, id: &str) -> Result<(), Error>;

    /// The ids of the objects that have a saved state.
    fn list_objects(&self) -> Result<Vec<String>, Error>;
}

/// The members of a saved state's text: those of the JSON object it is,
/// none when it is another JSON value, and an error naming the fault when it
/// is no JSON.
pub fn stored_members(text: &str) -> (r: Result<Vec<(String, JsonValue)>, Error>)
    ensures
        match json_parse_outcome(text@) {
            Err(e) => r matches Err(Error::ModuleError(m)) && m@ == "Invalid JSON: "@ + e,
            Ok(JsonValue::Object(ms)) => r matches Ok(v) && v@ == ms@,
            Ok(_) => r matches Ok(v) && v@.len() == 0,
        },
{
    match parse_json(text) {
        Ok(JsonValue::Object(ms)) => Ok(ms),
        Ok(_) => Ok(Vec::new()),
        Err(e) => {
            let mut m = string_of("Invalid JSON: ");
            push_str(&mut m, e.as_str());
            Err(Error::ModuleError(m))
        },
    }
}

/// The text a state is saved as: the indented JSON text of the object with
/// these members, or an error naming the fault.
pub fn stored_text(members: Vec<(String, JsonValue)>) -> (r: Result<String, Error>)
    ensures
        match pretty_json_outcome(JsonValue::Object(members)@) {
            Ok(t) => r matches Ok(s) && s@ == t,
            Err(e) => r matches Err(Error::ModuleError(m)) && m@ == "Serialization failed: "@ + e,
        },
{
    let doc = JsonValue::Object(members);
    match pretty_json(&doc) {
        Ok(t) => Ok(t),
        Err(e) => {
            let mut m = string_of("Serialization failed: ");
            push_str(&mut m, e.as_str());
            Err(Error::ModuleError(m))
        },
    }
}

/// A storage backend that keeps the saved states in memory.
pub struct MemoryStorage {
    data: StrMap<StrMap<JsValue>>,
}

/// No object has a saved state.
pub open spec fn nothing_saved() -> Map<Seq<char>, Map<Seq<char>, ValueModel>> {
    Map::empty()
}

impl MemoryStorage {
    /// The saved states, by object id.
    pub closed spec fn saved(&self) -> Map<Seq<char>, Map<Seq<char>, ValueModel>> {
        str_entries(self.data).map_values(|m: StrMap<JsValue>| value_models(str_entries(m)))
    }

    /// A storage with nothing saved.
    pub fn new() -> (r: Self)
        ensures
            r.saved() == nothing_saved(),
    {
        let r = MemoryStorage { data: str_map_new() };
        assert(r.saved() =~= nothing_saved());
        r
    }
}

impl Default for MemoryStorage {
    fn default() -> (r: Self)
        ensures
            r.saved() == nothing_saved(),
    {
        MemoryStorage::new()
    }
}

impl StorageBackend for MemoryStorage {
    fn load(&self, id: &str) -> (r: Result<Option<StrMap<JsValue>>, Error>)
        ensures
            r is Ok,
            match r {
                Ok(Some(m)) => self.saved().contains_key(id@) && value_models(str_entries(m)) == self.saved()[id@],
                Ok(None) => !self.saved().contains_key(id@),
                Err(_) => false,
            },
    {
        match str_map_get(&self.data, id) {
            Some(m) => Ok(Some(copy_values(m))),
            None => Ok(None),
        }
    }

    fn save(&mut self, id: &str, state: &StrMap<JsValue>) -> (r: Result<(), Error>)
        ensures
            r is Ok,
            final(self).saved() == old(self).saved().insert(id@, value_models(str_entries(*state))),
    {
        let copy = copy_values(state);
        str_map_insert(&mut self.data, id.to_string(), copy);
        assert(self.saved() =~= old(self).saved().insert(id@, value_models(str_entries(*state))));
        Ok(())
    }

    fn delete(&mut self, id: &str) -> (r: Result<(), Error>)
        ensures
            r is Ok,
            final(self).saved() == old(self).saved().remove(id@),
    {
        str_map_remove(&mut self.data, id);
        assert(self.saved() =~= old(self).saved().remove(id@));
        Ok(())
    }

    fn list_objects(&self) -> (r: Result<Vec<String>, Error>)
        ensures
            match r {
                Ok(v) => lists_keys(v@, self.saved()),
                Err(_) => false,
            },
    {
        Ok(str_map_keys(&self.data))
    }
}


// ───────────────────────────── Durable objects ─────────────────────────────

/// After this many mutations since the last save, the state is saved.
pub const PERSIST_THRESHOLD: u32 = 100;

/// A durable object: a key-value state that a storage backend keeps
/// across process restarts.
pub struct DurableObject<S: StorageBackend> {
    /// Unique identifier
    pub id: String,
    state: StrMap<JsValue>,
    dirty_keys: Vec<String>,
    storage: S,
    wal: WriteAheadLog,
    ops_since_persist: u32,
}

impl<S: StorageBackend> DurableObject<S> {
    /// The state, by the models of its values.
    pub closed spec fn entries(&self) -> Map<Seq<char>, ValueModel> {
        value_models(str_entries(self.state))
    }

    /// The mutations logged since the state was last saved.
    pub closed spec fn log(&self) -> Seq<LogOp> {
        log_models(self.wal.entries@)
    }

    /// The object's identifier.
    pub closed spec fn name(&self) -> Seq<char> {
        self.id@
    }

    /// The number of mutations since the state was last saved.
    pub closed spec fn ops_count(&self) -> nat {
        self.ops_since_persist as nat
    }

    /// The keys written since the state was last saved, in order.
    pub closed spec fn dirty(&self) -> Seq<Seq<char>> {
        self.dirty_keys@.map_values(|k: String| k@)
    }

    /// An object whose state is what the backend handed back for it (none
    /// meaning an empty state), with nothing logged.
    pub fn from_loaded(id: &str, storage: S, loaded: Option<StrMap<JsValue>>) -> (r: Self)
        ensures
            r.name() == id@,
            r.entries() == match loaded {
                Some(m) => value_models(str_entries(m)),
                None => Map::empty(),
            },
            r.log().len() == 0,
            r.ops_count() == 0,
            r.dirty().len() == 0,
    {
        let wal = WriteAheadLog::new(id);
        let mut state: StrMap<JsValue> = match loaded {
            Some(m) => m,
            None => str_map_new(),
        };
        proof {
            assert(value_models(str_entries(state)) =~= match loaded {
                Some(m) => value_models(str_entries(m)),
                None => Map::empty(),
            });
        }
        replay_into(&wal.entries, &mut state);
        proof {
            assert(log_models(wal.entries@) =~= Seq::<LogOp>::empty());
        }
        let r = DurableObject {
            id: id.to_string(),
            state,
            dirty_keys: Vec::new(),
            storage,
            wal,
            ops_since_persist: 0,
        };
        proof {
            assert(r.log() =~= Seq::<LogOp>::empty());
            assert(r.dirty() =~= Seq::<Seq<char>>::empty());
        }
        r
    }

    /// Create a durable object on `storage`, starting from the state the
    /// backend holds for `id`; the backend's error if it cannot load it.
    pub fn new(id: &str, storage: S) -> (r: Result<Self, Error>)
        ensures
            r matches Ok(o) ==> (o.name() == id@ && o.log().len() == 0 && o.ops_count() == 0 && o.dirty().len() == 0),
    {
        let loaded = storage.load(id);
        match loaded {
            Ok(l) => Ok(Self::from_loaded(id, storage, l)),
            Err(e) => Err(e),
        }
    }

    /// The value of `key`, if it has one.
    pub fn get(&self, key: &str) -> (r: Option<&JsValue>)
        ensures
            match r {
                Some(v) => self.entries().contains_key(key@) && self.entries()[key@] == v@,
                None => !self.entries().contains_key(key@),
            },
    {
        str_map_get(&self.state, key)
    }

    /// Save the state through the backend, then empty the log; the backend's
    /// error, with nothing else changed, if it cannot save.
    pub fn persist(&mut self) -> (r: Result<(), Error>)
        ensures
            final(self).name() == old(self).name(),
            final(self).entries() == old(self).entries(),
            r is Ok ==> (final(self).log().len() == 0 && final(self).ops_count() == 0 && final(self).dirty().len() == 0),
            r is Err ==> (final(self).log() == old(self).log() && final(self).ops_count() == old(self).ops_count()
                && final(self).dirty() == old(self).dirty()),
    {
        let saved = self.storage.save(&self.id, &self.state);
        match saved {
            Ok(()) => {
                self.wal.truncate();
                self.dirty_keys.clear();
                self.ops_since_persist = 0;
                proof {
                    assert(self.log() =~= Seq::<LogOp>::empty());
                    assert(self.dirty() =~= Seq::<Seq<char>>::empty());
                }
                Ok(())
            },
            Err(e) => Err(e),
        }
    }

    /// Save when enough mutations have gathered since the last save.
    fn maybe_auto_persist(&mut self) -> (r: Result<(), Error>)
        ensures
            final(self).name() == old(self).name(),
            final(self).entries() == old(self).entries(),
            old(self).ops_count() < PERSIST_THRESHOLD ==> (r is Ok && final(self).log() == old(self).log()
                && final(self).ops_count() == old(self).ops_count() && final(self).dirty() == old(self).dirty()),
            old(self).ops_count() >= PERSIST_THRESHOLD && r is Ok ==> (final(self).log().len() == 0
                && final(self).ops_count() == 0 && final(self).dirty().len() == 0),
            r is Err ==> (old(self).ops_count() >= PERSIST_THRESHOLD && final(self).log() == old(self).log()
                && final(self).ops_count() == old(self).ops_count() && final(self).dirty() == old(self).dirty()),
    {
        if self.ops_since_persist >= PERSIST_THRESHOLD {
            self.persist()
        } else {
            Ok(())
        }
    }

    /// Set `key` to `value`, logging the mutation first; the state is saved
    /// when enough mutations have gathered, and that save's error is handed
    /// back.
    pub fn set(&mut self, key: &str, value: JsValue) -> (r: Result<(), Error>)
        requires
            old(self).ops_count() < u32::MAX,
        ensures
            final(self).name() == old(self).name(),
            final(self).entries() == old(self).entries().insert(key@, value@),
            old(self).ops_count() + 1 < PERSIST_THRESHOLD ==> (r is Ok
                && final(self).log() == old(self).log().push(LogOp::Put(key@, value@))
                && final(self).ops_count() == old(self).ops_count() + 1
                && final(self).dirty() == old(self).dirty().push(key@)),
            old(self).ops_count() + 1 >= PERSIST_THRESHOLD && r is Ok ==> (final(self).log().len() == 0
                && final(self).ops_count() == 0 && final(self).dirty().len() == 0),
            r is Err ==> (old(self).ops_count() + 1 >= PERSIST_THRESHOLD
                && final(self).log() == old(self).log().push(LogOp::Put(key@, value@))
                && final(self).ops_count() == old(self).ops_count() + 1),
    {
        let logged = value.duplicate();
        let entry = WalEntry { timestamp: current_timestamp(), operation: WalOperation::Put(key.to_string(), logged) };
        self.wal.append(entry);
        str_map_insert(&mut self.state, key.to_string(), value);
        self.dirty_keys.push(key.to_string());
        self.ops_since_persist = self.ops_since_persist + 1;
        proof {
            assert(self.entries() =~= old(self).entries().insert(key@, value@));
            assert(self.log() =~= old(self).log().push(LogOp::Put(key@, value@)));
            assert(self.dirty() =~= old(self).dirty().push(key@));
        }
        self.maybe_auto_persist()
    }

    /// Remove `key`; whether it had a value.  A removal is logged, and may
    /// save the state as [`DurableObject::set`] does.
    pub fn delete(&mut self, key: &str) -> (r: Result<bool, Error>)
        requires
            old(self).ops_count() < u32::MAX,
        ensures
            final(self).name() == old(self).name(),
            final(self).entries() == old(self).entries().remove(key@),
            r matches Ok(b) ==> b == old(self).entries().contains_key(key@),
            !old(self).entries().contains_key(key@) ==> (r is Ok && final(self).log() == old(self).log()
                && final(self).ops_count() == old(self).ops_count() && final(self).dirty() == old(self).dirty()),
            old(self).entries().contains_key(key@) && old(self).ops_count() + 1 < PERSIST_THRESHOLD ==> (r is Ok
                && final(self).log() == old(self).log().push(LogOp::Delete(key@))
                && final(self).ops_count() == old(self).ops_count() + 1),
            r is Err ==> (old(self).entries().contains_key(key@) && old(self).ops_count() + 1 >= PERSIST_THRESHOLD),
    {
        let removed = str_map_remove(&mut self.state, key);
        proof {
            assert(self.entries() =~= old(self).entries().remove(key@));
        }
        match removed {
            Some(_) => {
                let entry = WalEntry { timestamp: current_timestamp(), operation: WalOperation::Delete(key.to_string()) };
                self.wal.append(entry);
                self.ops_since_persist = self.ops_since_persist + 1;
                proof {
                    assert(self.log() =~= old(self).log().push(LogOp::Delete(key@)));
                }
                match self.maybe_auto_persist() {
                    Ok(()) => Ok(true),
                    Err(e) => Err(e),
                }
            },
            None => Ok(false),
        }
    }

    /// Remove every key, logging the mutation; may save the state as
    /// [`DurableObject::set`] does.
    pub fn clear(&mut self) -> (r: Result<(), Error>)
        requires
            old(self).ops_count() < u32::MAX,
        ensures
            final(self).name() == old(self).name(),
            final(self).entries() == Map::<Seq<char>, ValueModel>::empty(),
            old(self).ops_count() + 1 < PERSIST_THRESHOLD ==> (r is Ok
                && final(self).log() == old(self).log().push(LogOp::Clear)
                && final(self).ops_count() == old(self).ops_count() + 1 && final(self).dirty().len() == 0),
            r is Err ==> old(self).ops_count() + 1 >= PERSIST_THRESHOLD,
    {
        let entry = WalEntry { timestamp: current_timestamp(), operation: WalOperation::Clear };
        self.wal.append(entry);
        str_map_clear(&mut self.state);
        self.dirty_keys.clear();
        self.ops_since_persist = self.ops_since_persist + 1;
        proof {
            assert(self.entries() =~= Map::<Seq<char>, ValueModel>::empty());
            assert(self.log() =~= old(self).log().push(LogOp::Clear));
            assert(self.dirty() =~= Seq::<Seq<char>>::empty());
        }
        self.maybe_auto_persist()
    }

    /// Every key, once each.
    pub fn keys(&self) -> (r: Vec<String>)
        ensures
            lists_keys(r@, self.entries()),
    {
        let r = str_map_keys(&self.state);
        assert(self.entries().dom() =~= str_entries(self.state).dom());
        r
    }

    /// The number of keys.
    pub fn len(&self) -> (r: usize)
        ensures
            is_entry_count(r, self.entries()),
    {
        assert(self.entries().dom() =~= str_entries(self.state).dom());
        str_map_len(&self.state)
    }

    /// Whether no key has a value.
    pub fn is_empty(&self) -> (r: bool)
        ensures
            r == (self.entries().dom().len() == 0),
    {
        self.len() == 0
    }
}


impl<S: StorageBackend> DurableObject<S> {
    /// Run `f` on the state as one transaction.  When `f` succeeds its
    /// changes stay, the transaction counts as one mutation and may save the
    /// state as [`DurableObject::set`] does; when `f` fails the state is
    /// what it was before and `f`'s error is handed back.
    pub fn transaction<F, R>(&mut self, f: F) -> (r: Result<R, Error>)
        where F: FnOnce(&mut TransactionContext) -> Result<R, Error>,
        requires
            old(self).ops_count() < u32::MAX,
            forall|c: &mut TransactionContext| #[trigger] f.requires((c,)),
        ensures
            final(self).name() == old(self).name(),
            r is Err && old(self).ops_count() + 1 < PERSIST_THRESHOLD ==> (final(self).entries() == old(self).entries()
                && final(self).ops_count() == old(self).ops_count() && final(self).log() == old(self).log()),
            r is Ok ==> (final(self).ops_count() == old(self).ops_count() + 1 || final(self).ops_count() == 0),
            r is Ok && old(self).ops_count() + 1 < PERSIST_THRESHOLD ==> final(self).log() == old(self).log(),
            (forall|c: &mut TransactionContext, res: Result<R, Error>| #[trigger] f.ensures((c,), res) ==> res is Ok)
                && old(self).ops_count() + 1 < PERSIST_THRESHOLD ==> r is Ok,
            exists|c: &mut TransactionContext, res: Result<R, Error>| {
                &&& #[trigger] f.ensures((c,), res)
                &&& (*c).entries() == old(self).entries()
                &&& match res {
                    Ok(v) => final(self).entries() == (*final(c)).entries()
                        && (r is Ok ==> r == Ok::<R, Error>(v))
                        && (r is Err ==> old(self).ops_count() + 1 >= PERSIST_THRESHOLD),
                    Err(e) => r == Err::<R, Error>(e) && final(self).entries() == old(self).entries()
                        && final(self).ops_count() == old(self).ops_count() && final(self).log() == old(self).log(),
                }
            },
    {
        let snapshot = copy_values(&self.state);
        let mut state: StrMap<JsValue> = str_map_new();
        std::mem::swap(&mut state, &mut self.state);
        let mut dirty: Vec<String> = Vec::new();
        std::mem::swap(&mut dirty, &mut self.dirty_keys);
        let mut ctx = TransactionContext { state, dirty_keys: dirty };
        let ghost before_ctx = ctx;
        let outcome = f(&mut ctx);
        proof {
            assert(exists|c: &mut TransactionContext| #[trigger] f.ensures((c,), outcome) && *c == before_ctx && *final(c) == ctx);
        }
        let TransactionContext { state: after, dirty_keys: after_dirty } = ctx;
        self.dirty_keys = after_dirty;
        match outcome {
            Ok(result) => {
                self.state = after;
                self.ops_since_persist = self.ops_since_persist + 1;
                match self.maybe_auto_persist() {
                    Ok(()) => Ok(result),
                    Err(e) => Err(e),
                }
            },
            Err(e) => {
                self.state = snapshot;
                Err(e)
            },
        }
    }

    /// The state as an object value with one property per key.
    pub fn to_value(&self) -> (r: JsValue)
        ensures
            r matches JsValue::Object(props) && lists_keys(props@.map_values(|p: (String, JsValue)| p.0), self.entries())
                && forall|i: int| 0 <= i < props@.len() ==> self.entries()[(#[trigger] props@[i]).0@] == props@[i].1@,
    {
        let keys = str_map_keys(&self.state);
        let n = keys.len();
        let mut props: Vec<(String, JsValue)> = Vec::new();
        let mut i: usize = 0;
        while i < n
            invariant
                n == keys@.len(),
                0 <= i <= n,
                lists_keys(keys@, str_entries(self.state)),
                props@.len() == i,
                forall|j: int| 0 <= j < i ==> (#[trigger] props@[j]).0 == keys@[j],
                forall|j: int| 0 <= j < i ==> str_entries(self.state)[(#[trigger] props@[j]).0@]@ == props@[j].1@,
            decreases n - i,
        {
            let key = &keys[i];
            match str_map_get(&self.state, key.as_str()) {
                Some(v) => {
                    props.push((key.clone(), v.duplicate()));
                },
                None => {
                    proof {
                        assert(str_entries(self.state).contains_key(keys@[i as int]@));
                    }
                },
            }
            i = i + 1;
        }
        proof {
            assert(props@.map_values(|p: (String, JsValue)| p.0) =~= keys@);
            assert(self.entries().dom() =~= str_entries(self.state).dom());
        }
        JsValue::new_object_with_properties(props)
    }
}

/// The state a transaction works on.
pub struct TransactionContext {
    state: StrMap<JsValue>,
    dirty_keys: Vec<String>,
}

impl TransactionContext {
    /// The state, by the models of its values.
    pub closed spec fn entries(&self) -> Map<Seq<char>, ValueModel> {
        value_models(str_entries(self.state))
    }

    /// The keys written, in order.
    pub closed spec fn dirty(&self) -> Seq<Seq<char>> {
        self.dirty_keys@.map_values(|k: String| k@)
    }

    /// The value of `key`, if it has one.
    pub fn get(&self, key: &str) -> (r: Option<&JsValue>)
        ensures
            match r {
                Some(v) => self.entries().contains_key(key@) && self.entries()[key@] == v@,
                None => !self.entries().contains_key(key@),
            },
    {
        str_map_get(&self.state, key)
    }

    /// Set `key` to `value`.
    pub fn set(&mut self, key: &str, value: JsValue)
        ensures
            final(self).entries() == old(self).entries().insert(key@, value@),
            final(self).dirty() == old(self).dirty().push(key@),
    {
        str_map_insert(&mut self.state, key.to_string(), value);
        self.dirty_keys.push(key.to_string());
        proof {
            assert(self.entries() =~= old(self).entries().insert(key@, value@));
            assert(self.dirty() =~= old(self).dirty().push(key@));
        }
    }

    /// Remove `key`; whether it had a value.
    pub fn delete(&mut self, key: &str) -> (r: bool)
        ensures
            final(self).entries() == old(self).entries().remove(key@),
            r == old(self).entries().contains_key(key@),
            final(self).dirty() == if r { old(self).dirty().push(key@) } else { old(self).dirty() },
    {
        let removed = str_map_remove(&mut self.state, key);
        proof {
            assert(self.entries() =~= old(self).entries().remove(key@));
        }
        match removed {
            Some(_) => {
                self.dirty_keys.push(key.to_string());
                proof {
                    assert(self.dirty() =~= old(self).dirty().push(key@));
                }
                true
            },
            None => false,
        }
    }
}

} // verus!
