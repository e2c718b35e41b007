//! File-backed storage with a write-ahead log, a manager of many durable
//! objects, transactions over an object's data, and alarms.
//!
//! The files themselves are read and written by the caller; this module
//! holds what is decided about them: which mutations the log records, what
//! replaying it gives back, which file names name objects, which object is
//! evicted, and what a transaction or an alarm does.
use vstd::prelude::*;
use crate::durable::{
    StrMap, str_entries, str_map_new, str_map_get, str_map_insert, str_map_remove, str_map_len,
    str_map_clear, str_map_keys, lists_keys, is_entry_count, current_timestamp, lemma_listed_count,
};
use crate::text::{chars_of, push_str, push_decimal, decimal};
use crate::error::Error;
use crate::distributed::actors::json_value_clone;
use crate::event_loop::{duration_nanos, duration_as_nanos, duration_from_secs, instant_now, instant_elapsed};
use crate::durable::json_map_clone;
use std::time::{Duration, Instant};

verus! {

// ───────────────────────────── Text helpers ─────────────────────────────

/// `t` occurs in `s` starting at `i`.
pub open spec fn occurs_at(s: Seq<char>, t: Seq<char>, i: int) -> bool {
    0 <= i && i + t.len() <= s.len() && s.subrange(i, i + t.len()) == t
}

/// `s` begins with `t`.
pub open spec fn has_prefix(s: Seq<char>, t: Seq<char>) -> bool {
    occurs_at(s, t, 0)
}

/// `s` ends with `t`.
pub open spec fn has_suffix(s: Seq<char>, t: Seq<char>) -> bool {
    t.len() <= s.len() && occurs_at(s, t, s.len() - t.len())
}

/// `t` occurs somewhere in `s`.
pub open spec fn has_infix(s: Seq<char>, t: Seq<char>) -> bool {
    exists|i: int| occurs_at(s, t, i)
}

/// Whether `t` occurs in `s` at `i`.
pub fn chars_at(s: &Vec<char>, t: &Vec<char>, i: usize) -> (r: bool)
    ensures
        r == occurs_at(s@, t@, i as int),
{
    let n = s.len();
    let m = t.len();
    if i > n || m > n - i {
        return false;
    }
    let mut j: usize = 0;
    while j < m
        invariant
            n == s@.len(),
            m == t@.len(),
            i + m <= n,
            0 <= j <= m,
            forall|k: int| 0 <= k < j ==> s@[i + k] == t@[k],
        decreases m - j,
    {
        if s[i + j] != t[j] {
            assert(s@.subrange(i as int, i + m)[j as int] != t@[j as int]);
            return false;
        }
        j = j + 1;
    }
    assert(s@.subrange(i as int, i + m) =~= t@);
    true
}

/// Whether `t` occurs anywhere in `s`.
pub fn chars_contain(s: &Vec<char>, t: &Vec<char>) -> (r: bool)
    ensures
        r == has_infix(s@, t@),
{
    let n = s.len();
    let m = t.len();
    if m == 0 {
        assert(occurs_at(s@, t@, 0)) by {
            assert(s@.subrange(0, 0) =~= t@);
        }
        return true;
    }
    let mut i: usize = 0;
    while m <= n - i
        invariant
            n == s@.len(),
            m == t@.len(),
            m >= 1,
            0 <= i <= n,
            forall|k: int| 0 <= k < i ==> !occurs_at(s@, t@, k),
        decreases n - i,
    {
        if chars_at(s, t, i) {
            return true;
        }
        i = i + 1;
    }
    assert forall|k: int| !occurs_at(s@, t@, k) by {
        if 0 <= k < i {
        }
    }
    false
}

// ───────────────────────────── Write-ahead log ─────────────────────────────

/// One logged mutation of a stored object.
#[derive(Debug, Clone)]
pub enum WalOp {
    Put(String, String),
    Delete(String),
    Clear,
}

/// A logged mutation with the time it was made, in milliseconds since the
/// Unix epoch.
#[derive(Debug, Clone)]
pub struct WalEntry {
    pub timestamp: u64,
    pub op: WalOp,
}

/// A logged mutation, by its characters.
pub enum JournalOp {
    Put(Seq<char>, Seq<char>),
    Delete(Seq<char>),
    Clear,
}

impl WalOp {
    pub open spec fn model(self) -> JournalOp {
        match self {
            WalOp::Put(k, v) => JournalOp::Put(k@, v@),
            WalOp::Delete(k) => JournalOp::Delete(k@),
            WalOp::Clear => JournalOp::Clear,
        }
    }
}

/// The mutations of a log, in order.
pub open spec fn journal_of(s: Seq<WalEntry>) -> Seq<JournalOp> {
    s.map_values(|e: WalEntry| e.op.model())
}

/// The data after one mutation.
pub open spec fn apply_journal_op(d: Map<Seq<char>, Seq<char>>, op: JournalOp) -> Map<Seq<char>, Seq<char>> {
    match op {
        JournalOp::Put(k, v) => d.insert(k, v),
        JournalOp::Delete(k) => d.remove(k),
        JournalOp::Clear => Map::empty(),
    }
}

/// The data after a run of mutations, applied in order.
pub open spec fn replay_journal(d: Map<Seq<char>, Seq<char>>, ops: Seq<JournalOp>) -> Map<Seq<char>, Seq<char>>
    decreases ops.len(),
{
    if ops.len() == 0 {
        d
    } else {
        apply_journal_op(replay_journal(d, ops.drop_last()), ops.last())
    }
}

/// Replaying one more mutation applies it to what the rest gave.
pub proof fn lemma_replay_push(d: Map<Seq<char>, Seq<char>>, ops: Seq<JournalOp>, op: JournalOp)
    ensures
        replay_journal(d, ops.push(op)) == apply_journal_op(replay_journal(d, ops), op),
{
    assert(ops.push(op).drop_last() =~= ops);
}

/// The characters of each value of a string map.
pub open spec fn text_entries(m: Map<Seq<char>, String>) -> Map<Seq<char>, Seq<char>> {
    m.map_values(|v: String| v@)
}

/// Apply one mutation to a string map.
fn apply_op(data: &mut StrMap<String>, op: &WalOp)
    ensures
        text_entries(str_entries(*final(data))) == apply_journal_op(text_entries(str_entries(*old(data))), op.model()),
{
    match op {
        WalOp::Put(k, v) => {
            str_map_insert(data, k.clone(), v.clone());
        },
        WalOp::Delete(k) => {
            str_map_remove(data, k.as_str());
        },
        WalOp::Clear => {
            str_map_clear(data);
        },
    }
    assert(text_entries(str_entries(*data)) =~= apply_journal_op(text_entries(str_entries(*old(data))), op.model()));
}

// ───────────────────────────── Stored objects ─────────────────────────────

/// The in-memory side of a file-backed object store: its data, and the log
/// of mutations since the data was last saved.
///
/// Data is kept in memory and saved to a file per object; every mutation is
/// first recorded in the log, from which a crashed process recovers.
pub struct SqliteStorage {
    path: String,
    data: StrMap<String>,
    wal: Vec<WalEntry>,
    dirty: bool,
}

impl SqliteStorage {
    /// The data, by characters.
    pub closed spec fn entries(&self) -> Map<Seq<char>, Seq<char>> {
        text_entries(str_entries(self.data))
    }

    /// The mutations logged since the data was last saved.
    pub closed spec fn journal(&self) -> Seq<JournalOp> {
        journal_of(self.wal@)
    }

    /// Whether there are mutations that were not saved.
    pub closed spec fn dirty_spec(&self) -> bool {
        self.dirty
    }

    /// The directory the object files live in.
    pub closed spec fn root(&self) -> Seq<char> {
        self.path@
    }

    /// Replaying the log onto `base` gives the data as it is now.
    pub open spec fn recovers_from(&self, base: Map<Seq<char>, Seq<char>>) -> bool {
        replay_journal(base, self.journal()) == self.entries()
    }

    /// A store rooted at `path`, with no data and an empty log.
    pub fn new(path: &str) -> (r: Self)
        ensures
            r.root() == path@,
            r.entries() == Map::<Seq<char>, Seq<char>>::empty(),
            r.journal().len() == 0,
            !r.dirty_spec(),
    {
        let r = SqliteStorage { path: path.to_string(), data: str_map_new(), wal: Vec::new(), dirty: false };
        assert(r.entries() =~= Map::<Seq<char>, Seq<char>>::empty());
        assert(r.journal() =~= Seq::<JournalOp>::empty());
        r
    }

    /// Take in what was read back for an object: the saved data, if there
    /// was a data file, replaces the data; then the log, if there was one,
    /// is replayed onto it, kept as the log, and marks the store dirty.
    pub fn load_from(&mut self, saved: Option<StrMap<String>>, journal: Option<Vec<WalEntry>>)
        ensures
            final(self).root() == old(self).root(),
            ({
                let base = match saved {
                    Some(m) => text_entries(str_entries(m)),
                    None => old(self).entries(),
                };
                match journal {
                    Some(w) => final(self).entries() == replay_journal(base, journal_of(w@))
                        && final(self).journal() == journal_of(w@) && final(self).dirty_spec(),
                    None => final(self).entries() == base && final(self).journal() == old(self).journal()
                        && final(self).dirty_spec() == old(self).dirty_spec(),
                }
            }),
    {
        match saved {
            Some(m) => {
                self.data = m;
            },
            None => {},
        }
        let ghost base = self.entries();
        match journal {
            Some(w) => {
                let n = w.len();
                let mut i: usize = 0;
                while i < n
                    invariant
                        n == w@.len(),
                        0 <= i <= n,
                        self.entries() == replay_journal(base, journal_of(w@.subrange(0, i as int))),
                        self.path == old(self).path,
                    decreases n - i,
                {
                    apply_op(&mut self.data, &w[i].op);
                    proof {
                        assert(journal_of(w@.subrange(0, i as int + 1)) =~= journal_of(w@.subrange(0, i as int)).push(w@[i as int].op.model()));
                        lemma_replay_push(base, journal_of(w@.subrange(0, i as int)), w@[i as int].op.model());
                    }
                    i = i + 1;
                }
                proof {
                    assert(w@.subrange(0, n as int) =~= w@);
                }
                self.wal = w;
                self.dirty = true;
            },
            None => {},
        }
    }

    /// Record a mutation in the log and mark the store dirty.
    fn append_wal(&mut self, op: WalOp)
        ensures
            final(self).data == old(self).data,
            final(self).path == old(self).path,
            final(self).journal() == old(self).journal().push(op.model()),
            final(self).dirty,
    {
        let entry = WalEntry { timestamp: current_timestamp(), op };
        self.wal.push(entry);
        self.dirty = true;
        assert(self.journal() =~= old(self).journal().push(op.model()));
    }

    /// The log, for writing to its file.
    pub fn wal_entries(&self) -> (r: &Vec<WalEntry>)
        ensures
            journal_of(r@) == self.journal(),
    {
        &self.wal
    }

    /// The data has been saved: the log is emptied and the store is clean.
    pub fn mark_saved(&mut self)
        ensures
            final(self).root() == old(self).root(),
            final(self).entries() == old(self).entries(),
            final(self).journal().len() == 0,
            !final(self).dirty_spec(),
            final(self).recovers_from(final(self).entries()),
    {
        self.wal.clear();
        self.dirty = false;
        assert(self.journal() =~= Seq::<JournalOp>::empty());
    }

    /// The value of `key`, if it has one.
    pub fn get(&self, key: &str) -> (r: Option<&String>)
        ensures
            match r {
                Some(v) => self.entries().contains_key(key@) && self.entries()[key@] == v@,
                None => !self.entries().contains_key(key@),
            },
    {
        str_map_get(&self.data, key)
    }

    /// Log, then set, `key` to `value`.
    pub fn set(&mut self, key: &str, value: String)
        ensures
            final(self).root() == old(self).root(),
            final(self).entries() == old(self).entries().insert(key@, value@),
            final(self).journal() == old(self).journal().push(JournalOp::Put(key@, value@)),
            final(self).dirty_spec(),
            forall|base| old(self).recovers_from(base) ==> #[trigger] final(self).recovers_from(base),
    {
        let op = WalOp::Put(key.to_string(), value.clone());
        self.append_wal(op);
        str_map_insert(&mut self.data, key.to_string(), value);
        assert(self.entries() =~= old(self).entries().insert(key@, value@));
        assert forall|base| old(self).recovers_from(base) implies #[trigger] self.recovers_from(base) by {
            lemma_replay_push(base, old(self).journal(), JournalOp::Put(key@, value@));
        }
    }

    /// Remove `key`, logging the removal if it had a value; whether it had one.
    pub fn delete_key(&mut self, key: &str) -> (r: bool)
        ensures
            final(self).root() == old(self).root(),
            r == old(self).entries().contains_key(key@),
            final(self).entries() == old(self).entries().remove(key@),
            final(self).journal() == if r { old(self).journal().push(JournalOp::Delete(key@)) } else { old(self).journal() },
            final(self).dirty_spec() == (r || old(self).dirty_spec()),
            forall|base| old(self).recovers_from(base) ==> #[trigger] final(self).recovers_from(base),
    {
        let removed = str_map_remove(&mut self.data, key);
        assert(self.entries() =~= old(self).entries().remove(key@));
        match removed {
            Some(_) => {
                self.append_wal(WalOp::Delete(key.to_string()));
                assert forall|base| old(self).recovers_from(base) implies #[trigger] self.recovers_from(base) by {
                    lemma_replay_push(base, old(self).journal(), JournalOp::Delete(key@));
                }
                true
            },
            None => {
                assert forall|base| old(self).recovers_from(base) implies #[trigger] self.recovers_from(base) by {
                    assert(old(self).entries().remove(key@) =~= old(self).entries());
                }
                false
            },
        }
    }

    /// Remove every key and log it.
    pub fn clear(&mut self)
        ensures
            final(self).root() == old(self).root(),
            final(self).entries() == Map::<Seq<char>, Seq<char>>::empty(),
            final(self).journal() == old(self).journal().push(JournalOp::Clear),
            final(self).dirty_spec(),
            forall|base| old(self).recovers_from(base) ==> #[trigger] final(self).recovers_from(base),
    {
        str_map_clear(&mut self.data);
        self.append_wal(WalOp::Clear);
        assert(self.entries() =~= Map::<Seq<char>, Seq<char>>::empty());
        assert forall|base| old(self).recovers_from(base) implies #[trigger] self.recovers_from(base) by {
            lemma_replay_push(base, old(self).journal(), JournalOp::Clear);
        }
    }

    /// Every key, once each.
    pub fn keys(&self) -> (r: Vec<String>)
        ensures
            lists_keys(r@, self.entries()),
    {
        let r = str_map_keys(&self.data);
        assert(self.entries().dom() =~= str_entries(self.data).dom());
        r
    }

    /// The number of keys.
    pub fn len(&self) -> (r: usize)
        ensures
            is_entry_count(r, self.entries()),
    {
        assert(self.entries().dom() =~= str_entries(self.data).dom());
        str_map_len(&self.data)
    }

    /// Whether no key has a value.
    pub fn is_empty(&self) -> (r: bool)
        ensures
            r == (self.entries().dom().len() == 0),
    {
        self.len() == 0
    }

    /// Whether there are mutations that were not saved.
    pub fn is_dirty(&self) -> (r: bool)
        ensures
            r == self.dirty_spec(),
    {
        self.dirty
    }

    /// The directory the object files live in.
    pub fn path(&self) -> (r: &str)
        ensures
            r@ == self.root(),
    {
        self.path.as_str()
    }

    /// The data, for saving: every entry once, in ascending order of keys.
    pub fn sorted_entries(&self) -> (r: Vec<(String, String)>)
        ensures
            lists_keys(r@.map_values(|p: (String, String)| p.0), self.entries()),
            forall|i: int| 0 <= i < r@.len() ==> self.entries()[(#[trigger] r@[i]).0@] == r@[i].1@,
            forall|i: int, j: int| 0 <= i < j < r@.len() ==> text_lt((#[trigger] r@[i]).0@, (#[trigger] r@[j]).0@),
    {
        let keys = sort_keys::<String>(str_map_keys(&self.data), Ghost(str_entries(self.data)));
        let n = keys.len();
        let mut out: Vec<(String, String)> = Vec::new();
        let mut i: usize = 0;
        while i < n
            invariant
                n == keys@.len(),
                0 <= i <= n,
                lists_keys(keys@, str_entries(self.data)),
                strictly_sorted(keys@),
                out@.len() == i,
                forall|j: int| 0 <= j < i ==> (#[trigger] out@[j]).0 == keys@[j],
                forall|j: int| 0 <= j < i ==> str_entries(self.data)[(#[trigger] out@[j]).0@]@ == out@[j].1@,
            decreases n - i,
        {
            let key = &keys[i];
            match str_map_get(&self.data, key.as_str()) {
                Some(v) => {
                    out.push((key.clone(), v.clone()));
                },
                None => {
                    proof {
                        assert(str_entries(self.data).contains_key(keys@[i as int]@));
                    }
                },
            }
            i = i + 1;
        }
        proof {
            assert(out@.map_values(|p: (String, String)| p.0) =~= keys@);
            assert(self.entries().dom() =~= str_entries(self.data).dom());
        }
        out
    }
}

/// The file name of an object's saved data.
pub open spec fn data_file_suffix() -> Seq<char> {
    ".json"@
}

/// The object a file in the store's directory holds the data of: a name
/// ending in `.json` that is neither a log (`.wal.`) nor a file being
/// written (`.tmp.`), without that ending.
pub open spec fn object_of_file(name: Seq<char>) -> Option<Seq<char>> {
    if has_suffix(name, ".json"@) && !has_infix(name, ".wal."@) && !has_infix(name, ".tmp."@) {
        Some(name.subrange(0, name.len() - 5))
    } else {
        None
    }
}

/// The object whose saved data the file `name` holds, if any.
pub fn object_id_of_file(name: &str) -> (r: Option<String>)
    ensures
        match r {
            Some(s) => object_of_file(name@) == Some(s@),
            None => object_of_file(name@) is None,
        },
{
    proof {
        reveal_strlit(".json");
        reveal_strlit(".wal.");
        reveal_strlit(".tmp.");
    }
    let v = chars_of(name);
    let json = chars_of(".json");
    let wal = chars_of(".wal.");
    let tmp = chars_of(".tmp.");
    let n = v.len();
    if n < 5 {
        return None;
    }
    if !chars_at(&v, &json, n - 5) {
        return None;
    }
    if chars_contain(&v, &wal) || chars_contain(&v, &tmp) {
        return None;
    }
    let stem = crate::text::sub_chars(&v, 0, n - 5);
    let s = crate::text::string_from_chars(&stem);
    Some(s)
}

// ───────────────────────────── Ordering keys ─────────────────────────────

/// `a` comes before `b` in the order of strings: at the first place where
/// they differ the character of `a` is the smaller, or `a` is a proper
/// prefix of `b`.
pub open spec fn text_lt(a: Seq<char>, b: Seq<char>) -> bool
    decreases a.len(),
{
    if b.len() == 0 {
        false
    } else if a.len() == 0 {
        true
    } else if a[0] != b[0] {
        (a[0] as u32) < (b[0] as u32)
    } else {
        text_lt(a.drop_first(), b.drop_first())
    }
}

/// No string comes before itself.
pub proof fn lemma_text_lt_irreflexive(a: Seq<char>)
    ensures
        !text_lt(a, a),
    decreases a.len(),
{
    if a.len() > 0 {
        lemma_text_lt_irreflexive(a.drop_first());
    }
}

/// Of two different strings, one comes before the other, and not both.
pub proof fn lemma_text_lt_total(a: Seq<char>, b: Seq<char>)
    ensures
        a != b ==> (text_lt(a, b) || text_lt(b, a)),
        !(text_lt(a, b) && text_lt(b, a)),
    decreases a.len(),
{
    if a.len() > 0 && b.len() > 0 {
        if a[0] == b[0] {
            lemma_text_lt_total(a.drop_first(), b.drop_first());
            if a.drop_first() == b.drop_first() {
                assert(a =~= b) by {
                    assert forall|i: int| 0 <= i < a.len() implies a[i] == b[i] by {
                        if i > 0 {
                            assert(a[i] == a.drop_first()[i - 1]);
                            assert(b[i] == b.drop_first()[i - 1]);
                        }
                    }
                }
            }
        } else {
            vstd::utf8::char_u32_cast(a[0], a[0] as u32);
            vstd::utf8::char_u32_cast(b[0], b[0] as u32);
        }
    } else if a.len() == 0 && b.len() == 0 {
        assert(a =~= b);
    }
}

/// The order of strings is transitive.
pub proof fn lemma_text_lt_trans(a: Seq<char>, b: Seq<char>, c: Seq<char>)
    requires
        text_lt(a, b),
        text_lt(b, c),
    ensures
        text_lt(a, c),
    decreases a.len(),
{
    if a.len() > 0 && a[0] == b[0] && b[0] == c[0] {
        lemma_text_lt_trans(a.drop_first(), b.drop_first(), c.drop_first());
    }
}

/// Whether `a` comes before `b` in the order of strings.
pub fn text_less(a: &str, b: &str) -> (r: bool)
    ensures
        r == text_lt(a@, b@),
{
    let x = chars_of(a);
    let y = chars_of(b);
    let n = x.len();
    let m = y.len();
    let mut i: usize = 0;
    assert(x@.skip(0) =~= x@);
    assert(y@.skip(0) =~= y@);
    while i < n && i < m && x[i] == y[i]
        invariant
            n == x@.len(),
            m == y@.len(),
            x@ == a@,
            y@ == b@,
            0 <= i <= n,
            i <= m,
            text_lt(a@, b@) == text_lt(x@.skip(i as int), y@.skip(i as int)),
        decreases n - i,
    {
        proof {
            assert(x@.skip(i as int).drop_first() =~= x@.skip(i as int + 1));
            assert(y@.skip(i as int).drop_first() =~= y@.skip(i as int + 1));
        }
        i = i + 1;
    }
    if i == m {
        false
    } else if i == n {
        true
    } else {
        proof {
            assert(x@.skip(i as int)[0] == x@[i as int]);
            assert(y@.skip(i as int)[0] == y@[i as int]);
        }
        (x[i] as u32) < (y[i] as u32)
    }
}

/// Each string comes before every later one.
pub open spec fn strictly_sorted(s: Seq<String>) -> bool {
    forall|p: int, q: int| 0 <= p < q < s.len() ==> text_lt((#[trigger] s[p])@, (#[trigger] s[q])@)
}

/// Putting `key` where everything before is smaller and everything after
/// is larger keeps a sorted run sorted.
proof fn lemma_insert_sorted(before: Seq<String>, pos: int, key: String)
    requires
        0 <= pos <= before.len(),
        strictly_sorted(before),
        forall|p: int| 0 <= p < pos ==> text_lt((#[trigger] before[p])@, key@),
        forall|p: int| pos <= p < before.len() ==> text_lt(key@, (#[trigger] before[p])@),
    ensures
        strictly_sorted(before.insert(pos, key)),
{
    let after = before.insert(pos, key);
    assert forall|p: int, q: int| 0 <= p < q < after.len() implies text_lt((#[trigger] after[p])@, (#[trigger] after[q])@) by {
        if p < pos && q == pos {
        } else if p < pos && q > pos {
            assert(after[q] == before[q - 1]);
            lemma_text_lt_trans(after[p]@, key@, before[q - 1]@);
        } else if p == pos {
            assert(after[q] == before[q - 1]);
        } else if p > pos {
            assert(after[p] == before[p - 1]);
            assert(after[q] == before[q - 1]);
        }
    }
}

/// The keys listed by `v`, put in ascending order.
fn sort_keys<V>(v: Vec<String>, Ghost(m): Ghost<Map<Seq<char>, V>>) -> (r: Vec<String>)
    requires
        lists_keys(v@, m),
    ensures
        lists_keys(r@, m),
        strictly_sorted(r@),
{
    let n = v.len();
    let mut out: Vec<String> = Vec::new();
    // Where each placed string came from, and where each taken one went.
    let ghost mut src: Seq<int> = Seq::empty();
    let ghost mut dst: Seq<int> = Seq::empty();
    let mut i: usize = 0;
    while i < n
        invariant
            n == v@.len(),
            0 <= i <= n,
            lists_keys(v@, m),
            out@.len() == i,
            src.len() == i,
            dst.len() == i,
            forall|p: int| 0 <= p < i ==> 0 <= #[trigger] src[p] < i && out@[p] == v@[src[p]],
            forall|j: int| 0 <= j < i ==> 0 <= #[trigger] dst[j] < i && out@[dst[j]] == v@[j],
            strictly_sorted(out@),
        decreases n - i,
    {
        let key = v[i].clone();
        let k = out.len();
        let mut pos: usize = 0;
        while pos < k && !text_less(key.as_str(), out[pos].as_str())
            invariant
                k == out@.len(),
                0 <= pos <= k,
                forall|p: int| 0 <= p < pos ==> !text_lt(key@, (#[trigger] out@[p])@),
            decreases k - pos,
        {
            pos = pos + 1;
        }
        proof {
            assert forall|p: int| 0 <= p < out@.len() implies (#[trigger] out@[p])@ != key@ by {
                assert(out@[p] == v@[src[p]]);
                assert(v@[src[p]]@ != v@[i as int]@);
            }
            assert forall|p: int| 0 <= p < pos implies text_lt((#[trigger] out@[p])@, key@) by {
                lemma_text_lt_total(out@[p]@, key@);
            }
            assert forall|p: int| pos <= p < out@.len() implies text_lt(key@, (#[trigger] out@[p])@) by {
                if p > pos {
                    lemma_text_lt_trans(key@, out@[pos as int]@, out@[p]@);
                }
            }
            lemma_insert_sorted(out@, pos as int, key);
        }
        let ghost before = out@;
        out.insert(pos, key);
        proof {
            let old_src = src;
            let old_dst = dst;
            src = old_src.insert(pos as int, i as int);
            dst = Seq::new((i + 1) as nat, |j: int| if j == i { pos as int } else if old_dst[j] < pos { old_dst[j] } else { old_dst[j] + 1 });
            assert forall|p: int| 0 <= p < i + 1 implies 0 <= #[trigger] src[p] < i + 1 && out@[p] == v@[src[p]] by {
                if p < pos {
                    assert(src[p] == old_src[p]);
                    assert(out@[p] == before[p]);
                } else if p > pos {
                    assert(src[p] == old_src[p - 1]);
                    assert(out@[p] == before[p - 1]);
                }
            }
            assert forall|j: int| 0 <= j < i + 1 implies 0 <= #[trigger] dst[j] < i + 1 && out@[dst[j]] == v@[j] by {
                if j < i {
                    if old_dst[j] < pos {
                        assert(out@[old_dst[j]] == before[old_dst[j]]);
                    } else {
                        assert(out@[old_dst[j] + 1] == before[old_dst[j]]);
                    }
                }
            }
        }
        i = i + 1;
    }
    proof {
        assert forall|p: int, q: int| 0 <= p < q < out@.len() implies (#[trigger] out@[p])@ != (#[trigger] out@[q])@ by {
            lemma_text_lt_irreflexive(out@[p]@);
        }
        assert forall|p: int| 0 <= p < out@.len() implies m.contains_key((#[trigger] out@[p])@) by {
            assert(out@[p] == v@[src[p]]);
            assert(m.contains_key(v@[src[p]]@));
        }
        assert forall|key: Seq<char>| m.contains_key(key) implies exists|p: int| 0 <= p < out@.len() && (#[trigger] out@[p])@ == key by {
            let j = choose|j: int| 0 <= j < v@.len() && (#[trigger] v@[j])@ == key;
            assert(out@[dst[j]] == v@[j]);
        }
    }
    out
}

// ───────────────────────────── Transactions ─────────────────────────────

/// State of a transaction.
#[derive(Debug, Clone, Copy, PartialEq, Eq, Structural)]
pub enum TransactionState {
    Active,
    Committed,
    RolledBack,
    Failed,
}

/// An individual operation inside a transaction.
#[derive(Debug)]
pub enum TransactionOp {
    Get(String),
    Put(String, serde_json::Value),
    Delete(String),
    List { prefix: Option<String>, limit: Option<usize> },
}

impl Clone for TransactionOp {
    fn clone(&self) -> (r: Self)
        ensures
            r.model() == self.model(),
    {
        match self {
            TransactionOp::Get(k) => TransactionOp::Get(k.clone()),
            TransactionOp::Put(k, v) => TransactionOp::Put(k.clone(), json_value_clone(v)),
            TransactionOp::Delete(k) => TransactionOp::Delete(k.clone()),
            TransactionOp::List { prefix, limit } => TransactionOp::List {
                prefix: match prefix {
                    Some(p) => Some(p.clone()),
                    None => None,
                },
                limit: *limit,
            },
        }
    }
}

/// An operation of a transaction, by its characters.
pub enum TxnOpModel {
    Get(Seq<char>),
    Put(Seq<char>, serde_json::Value),
    Delete(Seq<char>),
    List(Option<Seq<char>>, Option<usize>),
}

impl TransactionOp {
    pub open spec fn model(self) -> TxnOpModel {
        match self {
            TransactionOp::Get(k) => TxnOpModel::Get(k@),
            TransactionOp::Put(k, v) => TxnOpModel::Put(k@, v),
            TransactionOp::Delete(k) => TxnOpModel::Delete(k@),
            TransactionOp::List { prefix, limit } => TxnOpModel::List(
                match prefix {
                    Some(p) => Some(p@),
                    None => None,
                },
                limit,
            ),
        }
    }
}

/// The JSON array of the given strings, in order.
pub uninterp spec fn json_strings(items: Seq<Seq<char>>) -> serde_json::Value;

/// `serde_json::Value::Array` of `serde_json::Value::String`s, one per key.
#[verifier::external_body]
fn json_string_array(keys: &Vec<String>) -> (r: serde_json::Value)
    ensures
        r == json_strings(keys@.map_values(|k: String| k@)),
{
    serde_json::Value::Array(keys.iter().map(|k| serde_json::Value::String(k.clone())).collect())
}

/// The key falls under the prefix (every key falls under no prefix).
pub open spec fn under_prefix(k: Seq<char>, prefix: Option<Seq<char>>) -> bool {
    match prefix {
        Some(p) => has_prefix(k, p),
        None => true,
    }
}

/// `txn-<object>-<time>`: the identifier of a transaction begun at `t`.
pub open spec fn txn_name(object_id: Seq<char>, t: u64) -> Seq<char> {
    "txn-"@ + object_id + "-"@ + decimal(t as nat)
}

/// A transaction against a managed durable object.  It works on a copy of
/// the object's data and records each operation with its result; a commit
/// hands the copy back.
pub struct Transaction {
    pub id: String,
    pub object_id: String,
    pub operations: Vec<TransactionOp>,
    pub state: TransactionState,
    pub started_at: Instant,
    snapshot: StrMap<serde_json::Value>,
    results: Vec<Option<serde_json::Value>>,
}

impl Transaction {
    /// The data as the transaction sees it.
    pub closed spec fn view_data(&self) -> Map<Seq<char>, serde_json::Value> {
        str_entries(self.snapshot)
    }

    /// The operations so far, in order.
    pub closed spec fn ops(&self) -> Seq<TxnOpModel> {
        self.operations@.map_values(|o: TransactionOp| o.model())
    }

    /// The result of each operation, in order.
    pub closed spec fn outcomes(&self) -> Seq<Option<serde_json::Value>> {
        self.results@
    }

    /// The transaction's state.
    pub closed spec fn status(&self) -> TransactionState {
        self.state
    }

    /// The transaction's identifier.
    pub closed spec fn name(&self) -> Seq<char> {
        self.id@
    }

    /// The object the transaction is against.
    pub closed spec fn target(&self) -> Seq<char> {
        self.object_id@
    }

    /// Begin a transaction for `object_id` on a copy of `data`.
    pub fn begin(object_id: &str, data: &StrMap<serde_json::Value>) -> (r: Self)
        ensures
            r.view_data() == str_entries(*data),
            r.ops().len() == 0,
            r.outcomes().len() == 0,
            r.status() == TransactionState::Active,
            r.target() == object_id@,
            exists|t: u64| r.name() == txn_name(object_id@, t),
    {
        let t = current_timestamp();
        let mut id = String::new();
        push_str(&mut id, "txn-");
        push_str(&mut id, object_id);
        push_str(&mut id, "-");
        push_decimal(&mut id, t);
        let r = Transaction {
            id,
            object_id: object_id.to_string(),
            operations: Vec::new(),
            state: TransactionState::Active,
            started_at: instant_now(),
            snapshot: json_map_clone(data),
            results: Vec::new(),
        };
        proof {
            reveal_strlit("txn-");
            reveal_strlit("-");
            assert(r.name() =~= txn_name(object_id@, t));
            assert(r.ops() =~= Seq::<TxnOpModel>::empty());
        }
        r
    }

    /// Record a read of `key` and give its value in the transaction's view.
    pub fn get(&mut self, key: &str) -> (r: Option<serde_json::Value>)
        ensures
            match r {
                Some(v) => old(self).view_data().contains_key(key@) && old(self).view_data()[key@] == v,
                None => !old(self).view_data().contains_key(key@),
            },
            final(self).view_data() == old(self).view_data(),
            final(self).ops() == old(self).ops().push(TxnOpModel::Get(key@)),
            final(self).outcomes() == old(self).outcomes().push(r),
            final(self).status() == old(self).status(),
            final(self).name() == old(self).name(),
            final(self).target() == old(self).target(),
    {
        self.operations.push(TransactionOp::Get(key.to_string()));
        let val = match str_map_get(&self.snapshot, key) {
            Some(v) => Some(json_value_clone(v)),
            None => None,
        };
        let recorded = match &val {
            Some(v) => Some(json_value_clone(v)),
            None => None,
        };
        self.results.push(recorded);
        assert(self.ops() =~= old(self).ops().push(TxnOpModel::Get(key@)));
        val
    }

    /// Record a write of `value` to `key`; the transaction's view has it.
    pub fn put(&mut self, key: &str, value: serde_json::Value)
        ensures
            final(self).view_data() == old(self).view_data().insert(key@, value),
            final(self).ops() == old(self).ops().push(TxnOpModel::Put(key@, value)),
            final(self).outcomes() == old(self).outcomes().push(None),
            final(self).status() == old(self).status(),
            final(self).name() == old(self).name(),
            final(self).target() == old(self).target(),
    {
        self.operations.push(TransactionOp::Put(key.to_string(), json_value_clone(&value)));
        str_map_insert(&mut self.snapshot, key.to_string(), value);
        self.results.push(None);
        assert(self.ops() =~= old(self).ops().push(TxnOpModel::Put(key@, value)));
    }

    /// Record a removal of `key`; whether the transaction's view had it.
    pub fn delete(&mut self, key: &str) -> (r: bool)
        ensures
            r == old(self).view_data().contains_key(key@),
            final(self).view_data() == old(self).view_data().remove(key@),
            final(self).ops() == old(self).ops().push(TxnOpModel::Delete(key@)),
            final(self).outcomes() == old(self).outcomes().push(None),
            final(self).status() == old(self).status(),
            final(self).name() == old(self).name(),
            final(self).target() == old(self).target(),
    {
        self.operations.push(TransactionOp::Delete(key.to_string()));
        let existed = str_map_remove(&mut self.snapshot, key).is_some();
        self.results.push(None);
        assert(self.ops() =~= old(self).ops().push(TxnOpModel::Delete(key@)));
        existed
    }

    /// Record a listing, and give the keys of the transaction's view under
    /// `prefix`, in ascending order, at most `limit` of them: the first ones.
    pub fn list(&mut self, prefix: Option<&str>, limit: Option<usize>) -> (r: Vec<String>)
        ensures
            final(self).view_data() == old(self).view_data(),
            final(self).ops() == old(self).ops().push(TxnOpModel::List(
                match prefix {
                    Some(p) => Some(p@),
                    None => None,
                },
                limit,
            )),
            final(self).outcomes() == old(self).outcomes().push(Some(json_strings(r@.map_values(|k: String| k@)))),
            final(self).status() == old(self).status(),
            final(self).name() == old(self).name(),
            final(self).target() == old(self).target(),
            strictly_sorted(r@),
            forall|i: int| 0 <= i < r@.len() ==> old(self).view_data().contains_key((#[trigger] r@[i])@)
                && under_prefix(r@[i]@, match prefix { Some(p) => Some(p@), None => None }),
            limit matches Some(l) ==> r@.len() <= l,
            forall|k: Seq<char>| old(self).view_data().contains_key(k)
                && under_prefix(k, match prefix { Some(p) => Some(p@), None => None })
                && !(exists|i: int| 0 <= i < r@.len() && (#[trigger] r@[i])@ == k)
                ==> (limit matches Some(l) && r@.len() == l && forall|i: int| 0 <= i < r@.len() ==> text_lt((#[trigger] r@[i])@, k)),
    {
        let ghost pre = match prefix { Some(p) => Some(p@), None => None };
        let recorded_prefix = match prefix {
            Some(p) => Some(p.to_string()),
            None => None,
        };
        self.operations.push(TransactionOp::List { prefix: recorded_prefix, limit });
        // The keys under the prefix.
        let all = str_map_keys(&self.snapshot);
        let n = all.len();
        let pchars: Vec<char> = match prefix {
            Some(p) => chars_of(p),
            None => Vec::new(),
        };
        let ghost wanted = str_entries(self.snapshot).restrict(Set::new(|k: Seq<char>| under_prefix(k, pre)));
        let mut chosen: Vec<String> = Vec::new();
        // Where each chosen key sits among all keys, and where each wanted key went.
        let ghost mut src: Seq<int> = Seq::empty();
        let ghost mut slot: Seq<int> = Seq::empty();
        let mut i: usize = 0;
        while i < n
            invariant
                n == all@.len(),
                0 <= i <= n,
                lists_keys(all@, str_entries(self.snapshot)),
                wanted == str_entries(self.snapshot).restrict(Set::new(|k: Seq<char>| under_prefix(k, pre))),
                pre == match prefix { Some(p) => Some(p@), None => None },
                prefix is Some ==> pchars@ == prefix.unwrap()@,
                src.len() == chosen@.len(),
                slot.len() == i,
                forall|j: int| 0 <= j < chosen@.len() ==> 0 <= #[trigger] src[j] < i && chosen@[j] == all@[src[j]]
                    && wanted.contains_key(chosen@[j]@),
                forall|j: int, q: int| 0 <= j < q < chosen@.len() ==> #[trigger] src[j] < #[trigger] src[q],
                forall|q: int| 0 <= q < i && wanted.contains_key(all@[q]@) ==> 0 <= #[trigger] slot[q] < chosen@.len()
                    && chosen@[slot[q]] == all@[q],
            decreases n - i,
        {
            let key = &all[i];
            let keep = match prefix {
                Some(_) => {
                    let kc = chars_of(key.as_str());
                    chars_at(&kc, &pchars, 0)
                },
                None => true,
            };
            proof {
                assert(str_entries(self.snapshot).contains_key(all@[i as int]@));
                assert(keep == wanted.contains_key(all@[i as int]@));
            }
            if keep {
                let ghost at = chosen@.len() as int;
                let ghost before = chosen@;
                chosen.push(key.clone());
                proof {
                    src = src.push(i as int);
                    slot = slot.push(at);
                    assert forall|j: int| 0 <= j < chosen@.len() implies 0 <= #[trigger] src[j] < i + 1 && chosen@[j] == all@[src[j]]
                        && wanted.contains_key(chosen@[j]@) by {
                        if j < at {
                            assert(chosen@[j] == before[j]);
                        }
                    }
                }
            } else {
                proof {
                    slot = slot.push(-1);
                }
            }
            i = i + 1;
        }
        proof {
            assert forall|j: int, q: int| 0 <= j < q < chosen@.len() implies (#[trigger] chosen@[j])@ != (#[trigger] chosen@[q])@ by {
                assert(src[j] < src[q]);
                assert(chosen@[j] == all@[src[j]]);
                assert(chosen@[q] == all@[src[q]]);
            }
            assert forall|k: Seq<char>| wanted.contains_key(k) implies exists|j: int| 0 <= j < chosen@.len() && (#[trigger] chosen@[j])@ == k by {
                let q = choose|q: int| 0 <= q < all@.len() && (#[trigger] all@[q])@ == k;
                assert(chosen@[slot[q]] == all@[q]);
            }
            assert forall|j: int| 0 <= j < chosen@.len() implies wanted.contains_key((#[trigger] chosen@[j])@) by {
                assert(0 <= src[j]);
            }
            assert(lists_keys(chosen@, wanted));
        }
        let sorted = sort_keys::<serde_json::Value>(chosen, Ghost(wanted));
        let total = sorted.len();
        let take = match limit {
            Some(l) => if l < total { l } else { total },
            None => total,
        };
        let mut keys: Vec<String> = Vec::new();
        let mut j: usize = 0;
        while j < take
            invariant
                take <= total,
                total == sorted@.len(),
                0 <= j <= take,
                keys@ == sorted@.subrange(0, j as int),
            decreases take - j,
        {
            keys.push(sorted[j].clone());
            j = j + 1;
            assert(keys@ =~= sorted@.subrange(0, j as int));
        }
        let listing = json_string_array(&keys);
        self.results.push(Some(listing));
        proof {
            assert(self.ops() =~= old(self).ops().push(TxnOpModel::List(pre, limit)));
            assert forall|k: Seq<char>| old(self).view_data().contains_key(k) && under_prefix(k, pre)
                && !(exists|i: int| 0 <= i < keys@.len() && (#[trigger] keys@[i])@ == k)
                implies (limit matches Some(l) && keys@.len() == l && forall|i: int| 0 <= i < keys@.len() ==> text_lt((#[trigger] keys@[i])@, k)) by {
                assert(wanted.contains_key(k));
                let p = choose|p: int| 0 <= p < sorted@.len() && (#[trigger] sorted@[p])@ == k;
                if p < take {
                    assert(keys@[p] == sorted@[p]);
                }
                assert forall|i: int| 0 <= i < keys@.len() implies text_lt((#[trigger] keys@[i])@, k) by {
                    assert(keys@[i] == sorted@[i]);
                }
            }
        }
        keys
    }

    /// Commit: the target becomes the transaction's view of the data, and
    /// the result of every operation is handed back; a transaction that is
    /// no longer active is refused and the target left as it was.
    pub fn commit(self, target: &mut StrMap<serde_json::Value>) -> (r: Result<Vec<Option<serde_json::Value>>, Error>)
        ensures
            self.status() == TransactionState::Active ==> (r matches Ok(v) && v@ == self.outcomes()
                && str_entries(*final(target)) == self.view_data()),
            self.status() != TransactionState::Active ==> (r matches Err(Error::ModuleError(m))
                && m@ == "Transaction is not active"@ && *final(target) == *old(target)),
    {
        if self.state != TransactionState::Active {
            return Err(Error::ModuleError("Transaction is not active".to_string()));
        }
        let Transaction { snapshot, results, .. } = self;
        *target = snapshot;
        Ok(results)
    }

    /// Roll back: nothing is applied; the state it ends in.
    pub fn rollback(self) -> (r: TransactionState)
        ensures
            r == TransactionState::RolledBack,
    {
        TransactionState::RolledBack
    }

    /// The transaction's state.
    pub fn transaction_state(&self) -> (r: TransactionState)
        ensures
            r == self.status(),
    {
        self.state
    }

    /// The number of operations recorded.
    pub fn op_count(&self) -> (r: usize)
        ensures
            r == self.ops().len(),
    {
        self.operations.len()
    }
}

// ───────────────────────────── Alarms ─────────────────────────────

/// A scheduled alarm for a durable object.
#[derive(Debug)]
pub struct ScheduledAlarm {
    pub object_id: String,
    pub scheduled_at: Duration,
    pub callback_name: String,
    pub data: Option<serde_json::Value>,
}

impl Clone for ScheduledAlarm {
    fn clone(&self) -> (r: Self)
        ensures
            r == *self,
    {
        ScheduledAlarm {
            object_id: self.object_id.clone(),
            scheduled_at: self.scheduled_at,
            callback_name: self.callback_name.clone(),
            data: match &self.data {
                Some(v) => Some(json_value_clone(v)),
                None => None,
            },
        }
    }
}

/// The alarm is due at `now`: its time is not after `now`.
pub open spec fn alarm_due(a: ScheduledAlarm, now: Duration) -> bool {
    duration_nanos(a.scheduled_at) <= duration_nanos(now)
}

/// `r` holds the alarms of `m` that are due at `now`, each once: the alarm
/// of the object `ks[i]` at place `i`.
pub open spec fn lists_due(ks: Seq<Seq<char>>, r: Seq<ScheduledAlarm>, m: Map<Seq<char>, ScheduledAlarm>, now: Duration) -> bool {
    &&& ks.len() == r.len()
    &&& forall|i: int, j: int| 0 <= i < j < ks.len() ==> #[trigger] ks[i] != #[trigger] ks[j]
    &&& forall|i: int| 0 <= i < ks.len() ==> m.contains_key(#[trigger] ks[i]) && r[i] == m[ks[i]] && alarm_due(r[i], now)
    &&& forall|k: Seq<char>| m.contains_key(k) && alarm_due(m[k], now) ==> #[trigger] ks.contains(k)
}

/// Manages alarms across durable objects, one alarm per object.
pub struct AlarmScheduler {
    alarms: StrMap<ScheduledAlarm>,
}

impl AlarmScheduler {
    /// The pending alarms, by object id.
    pub closed spec fn pending(&self) -> Map<Seq<char>, ScheduledAlarm> {
        str_entries(self.alarms)
    }

    /// A scheduler with no alarms.
    pub fn new() -> (r: Self)
        ensures
            r.pending() == Map::<Seq<char>, ScheduledAlarm>::empty(),
    {
        AlarmScheduler { alarms: str_map_new() }
    }

    /// Schedule the alarm of `object_id`, replacing the one it had.
    pub fn set_alarm(&mut self, object_id: &str, delay: Duration, callback_name: &str, data: Option<serde_json::Value>)
        ensures
            final(self).pending().dom() == old(self).pending().dom().insert(object_id@),
            forall|k: Seq<char>| k != object_id@ && old(self).pending().contains_key(k)
                ==> #[trigger] final(self).pending()[k] == old(self).pending()[k],
            final(self).pending()[object_id@].object_id@ == object_id@,
            final(self).pending()[object_id@].scheduled_at == delay,
            final(self).pending()[object_id@].callback_name@ == callback_name@,
            final(self).pending()[object_id@].data == data,
    {
        let alarm = ScheduledAlarm {
            object_id: object_id.to_string(),
            scheduled_at: delay,
            callback_name: callback_name.to_string(),
            data,
        };
        str_map_insert(&mut self.alarms, object_id.to_string(), alarm);
        assert(self.pending().dom() =~= old(self).pending().dom().insert(object_id@));
    }

    /// Cancel the alarm of `object_id`; whether it had one.
    pub fn cancel_alarm(&mut self, object_id: &str) -> (r: bool)
        ensures
            r == old(self).pending().contains_key(object_id@),
            final(self).pending() == old(self).pending().remove(object_id@),
    {
        str_map_remove(&mut self.alarms, object_id).is_some()
    }

    /// The alarm of `object_id`, if it has one.
    pub fn get_alarm(&self, object_id: &str) -> (r: Option<&ScheduledAlarm>)
        ensures
            match r {
                Some(a) => self.pending().contains_key(object_id@) && self.pending()[object_id@] == *a,
                None => !self.pending().contains_key(object_id@),
            },
    {
        str_map_get(&self.alarms, object_id)
    }

    /// Take out the alarms that are due at `now`; the others stay.
    pub fn collect_due(&mut self, now: Duration) -> (r: Vec<ScheduledAlarm>)
        ensures
            forall|k: Seq<char>| #[trigger] final(self).pending().contains_key(k)
                <==> (old(self).pending().contains_key(k) && !alarm_due(old(self).pending()[k], now)),
            forall|k: Seq<char>| final(self).pending().contains_key(k)
                ==> #[trigger] final(self).pending()[k] == old(self).pending()[k],
            exists|ks: Seq<Seq<char>>| #[trigger] lists_due(ks, r@, old(self).pending(), now),
    {
        let now_ns = duration_as_nanos(&now);
        let keys = str_map_keys(&self.alarms);
        let n = keys.len();
        let ghost start = self.pending();
        let mut remaining: StrMap<ScheduledAlarm> = str_map_new();
        let mut due: Vec<ScheduledAlarm> = Vec::new();
        let ghost mut ks: Seq<Seq<char>> = Seq::empty();
        let ghost mut slot: Seq<int> = Seq::empty();
        let mut i: usize = 0;
        while i < n
            invariant
                n == keys@.len(),
                0 <= i <= n,
                now_ns == duration_nanos(now),
                start == old(self).pending(),
                lists_keys(keys@, start),
                forall|k: Seq<char>| #[trigger] self.pending().contains_key(k)
                    <==> (start.contains_key(k) && !(exists|q: int| 0 <= q < i && keys@[q]@ == k)),
                forall|k: Seq<char>| self.pending().contains_key(k) ==> #[trigger] self.pending()[k] == start[k],
                forall|k: Seq<char>| #[trigger] str_entries(remaining).contains_key(k)
                    <==> (start.contains_key(k) && !alarm_due(start[k], now) && exists|q: int| 0 <= q < i && keys@[q]@ == k),
                forall|k: Seq<char>| str_entries(remaining).contains_key(k) ==> #[trigger] str_entries(remaining)[k] == start[k],
                ks.len() == due@.len(),
                slot.len() == i,
                forall|a: int, b: int| 0 <= a < b < ks.len() ==> #[trigger] ks[a] != #[trigger] ks[b],
                forall|a: int| 0 <= a < ks.len() ==> start.contains_key(#[trigger] ks[a]) && due@[a] == start[ks[a]]
                    && alarm_due(due@[a], now) && exists|q: int| 0 <= q < i && keys@[q]@ == ks[a],
                forall|q: int| 0 <= q < i && alarm_due(start[keys@[q]@], now) ==> 0 <= #[trigger] slot[q] < ks.len()
                    && ks[slot[q]] == keys@[q]@,
            decreases n - i,
        {
            let key = &keys[i];
            proof {
                assert(start.contains_key(keys@[i as int]@));
                assert forall|q: int| 0 <= q < i implies keys@[q]@ != keys@[i as int]@ by {}
                assert(!(exists|q: int| 0 <= q < i && keys@[q]@ == keys@[i as int]@));
                assert(self.pending().contains_key(keys@[i as int]@));
                assert(str_entries(self.alarms).contains_key(key@));
            }
            let taken = str_map_remove(&mut self.alarms, key.as_str());
            match taken {
                Some(alarm) => {
                    if duration_as_nanos(&alarm.scheduled_at) <= now_ns {
                        let ghost at = ks.len() as int;
                        proof {
                            assert forall|a: int| 0 <= a < ks.len() implies ks[a] != keys@[i as int]@ by {
                                let q = choose|q: int| 0 <= q < i && keys@[q]@ == ks[a];
                            }
                            ks = ks.push(keys@[i as int]@);
                            slot = slot.push(at);
                        }
                        due.push(alarm);
                    } else {
                        str_map_insert(&mut remaining, key.clone(), alarm);
                        proof {
                            slot = slot.push(-1);
                        }
                    }
                },
                None => {
                    proof {
                        assert(false);
                    }
                },
            }
            proof {
                assert forall|k: Seq<char>| #[trigger] self.pending().contains_key(k)
                    <==> (start.contains_key(k) && !(exists|q: int| 0 <= q < i + 1 && keys@[q]@ == k)) by {
                    if exists|q: int| 0 <= q < i + 1 && keys@[q]@ == k {
                        let q = choose|q: int| 0 <= q < i + 1 && keys@[q]@ == k;
                        if q < i {
                            assert(exists|q: int| 0 <= q < i && keys@[q]@ == k);
                        }
                    } else {
                        assert(!(exists|q: int| 0 <= q < i && keys@[q]@ == k));
                    }
                }
                assert forall|k: Seq<char>| #[trigger] str_entries(remaining).contains_key(k)
                    <==> (start.contains_key(k) && !alarm_due(start[k], now) && exists|q: int| 0 <= q < i + 1 && keys@[q]@ == k) by {
                    if exists|q: int| 0 <= q < i + 1 && keys@[q]@ == k {
                        let q = choose|q: int| 0 <= q < i + 1 && keys@[q]@ == k;
                        if q < i {
                            assert(exists|q: int| 0 <= q < i && keys@[q]@ == k);
                        }
                    } else {
                        assert(!(exists|q: int| 0 <= q < i && keys@[q]@ == k));
                    }
                }
                assert forall|a: int| 0 <= a < ks.len() implies start.contains_key(#[trigger] ks[a]) && due@[a] == start[ks[a]]
                    && alarm_due(due@[a], now) && exists|q: int| 0 <= q < i + 1 && keys@[q]@ == ks[a] by {
                    if a < ks.len() - 1 || !alarm_due(start[keys@[i as int]@], now) {
                        let q = choose|q: int| 0 <= q < i && keys@[q]@ == ks[a];
                        assert(0 <= q < i + 1 && keys@[q]@ == ks[a]);
                    } else {
                        assert(keys@[i as int]@ == ks[a]);
                    }
                }
            }
            i = i + 1;
        }
        self.alarms = remaining;
        proof {
            assert forall|k: Seq<char>| #[trigger] self.pending().contains_key(k)
                <==> (start.contains_key(k) && !alarm_due(start[k], now)) by {
                if start.contains_key(k) {
                    let q = choose|q: int| 0 <= q < keys@.len() && (#[trigger] keys@[q])@ == k;
                    assert(exists|q: int| 0 <= q < n && keys@[q]@ == k);
                }
            }
            assert forall|k: Seq<char>| start.contains_key(k) && alarm_due(start[k], now) implies #[trigger] ks.contains(k) by {
                let q = choose|q: int| 0 <= q < keys@.len() && (#[trigger] keys@[q])@ == k;
                assert(ks[slot[q]] == k);
            }
            assert forall|a: int| 0 <= a < ks.len() implies start.contains_key(#[trigger] ks[a])
                && due@[a] == start[ks[a]] && alarm_due(due@[a], now) by {}
            assert(lists_due(ks, due@, start, now));
        }
        due
    }

    /// The number of pending alarms.
    pub fn pending_count(&self) -> (r: usize)
        ensures
            is_entry_count(r, self.pending()),
    {
        str_map_len(&self.alarms)
    }
}

impl Default for AlarmScheduler {
    fn default() -> (r: Self)
        ensures
            r.pending() == Map::<Seq<char>, ScheduledAlarm>::empty(),
    {
        AlarmScheduler::new()
    }
}

// ───────────────────────────── Managed objects ─────────────────────────────

/// Configuration for the durable object manager.
pub struct DurableConfig {
    pub storage_dir: String,
    pub max_objects: usize,
    pub hibernation_timeout: Duration,
    pub eviction_policy: EvictionPolicy,
    pub wal_enabled: bool,
    pub auto_persist_threshold: usize,
    pub max_object_size: usize,
}

impl Default for DurableConfig {
    fn default() -> (r: Self)
        ensures
            r.storage_dir@ == "durable_data"@,
            r.max_objects == 1024,
            duration_nanos(r.hibernation_timeout) == 300_000_000_000,
            r.eviction_policy == EvictionPolicy::LRU,
            r.wal_enabled,
            r.auto_persist_threshold == 100,
            r.max_object_size == 1_048_576,
    {
        DurableConfig {
            storage_dir: "durable_data".to_string(),
            max_objects: 1024,
            hibernation_timeout: duration_from_secs(300),
            eviction_policy: EvictionPolicy::LRU,
            wal_enabled: true,
            auto_persist_threshold: 100,
            max_object_size: 1024 * 1024,
        }
    }
}

/// Strategy for evicting objects when the manager is at capacity.
#[derive(Debug, Clone, Copy, PartialEq, Eq, Structural)]
pub enum EvictionPolicy {
    /// Least recently used
    LRU,
    /// Least frequently used
    LFU,
    /// Time-to-live based
    TTL,
    /// Manual eviction only
    Manual,
}

/// Lifecycle state of a managed durable object.
#[derive(Debug, Clone, Copy, PartialEq, Eq, Structural)]
pub enum ObjectState {
    Active,
    Hibernating,
    Evicted,
    Corrupted,
}

/// A durable object tracked by the manager.
pub struct ManagedObject {
    pub id: String,
    pub state: ObjectState,
    pub data: StrMap<serde_json::Value>,
    pub last_accessed: Instant,
    pub access_count: u64,
    /// The place of the latest access among all of the manager's accesses.
    pub recency: u64,
    pub dirty: bool,
}

/// Operational statistics for the manager.
#[derive(Debug, Clone, Copy, PartialEq, Eq, Structural)]
pub struct ManagerStats {
    pub total_reads: u64,
    pub total_writes: u64,
    pub cache_hits: u64,
    pub cache_misses: u64,
    pub evictions: u64,
    pub hibernations: u64,
}

impl Default for ManagerStats {
    fn default() -> (r: Self)
        ensures
            r == (ManagerStats { total_reads: 0, total_writes: 0, cache_hits: 0, cache_misses: 0, evictions: 0, hibernations: 0 }),
    {
        ManagerStats { total_reads: 0, total_writes: 0, cache_hits: 0, cache_misses: 0, evictions: 0, hibernations: 0 }
    }
}

/// The number of bytes of a JSON value's text (its UTF-8 length).
pub uninterp spec fn json_text_size(v: serde_json::Value) -> nat;

/// `serde_json::Value::to_string`, measured: the length in bytes of the value's JSON text.
#[verifier::external_body]
fn json_text_len(v: &serde_json::Value) -> (r: usize)
    ensures
        r == json_text_size(*v),
{
    v.to_string().len()
}

/// The object may be evicted under the policy.
pub open spec fn evictable(o: ManagedObject, policy: EvictionPolicy) -> bool {
    match policy {
        EvictionPolicy::LRU => o.state != ObjectState::Corrupted,
        EvictionPolicy::LFU => o.state != ObjectState::Corrupted,
        EvictionPolicy::TTL => o.state == ObjectState::Hibernating,
        EvictionPolicy::Manual => false,
    }
}

/// What the policy evicts the least of first.
pub open spec fn eviction_rank(o: ManagedObject, policy: EvictionPolicy) -> u64 {
    match policy {
        EvictionPolicy::LFU => o.access_count,
        _ => o.recency,
    }
}

/// `v` is the object the policy evicts first among the evictable ones: for
/// LRU and TTL the one used least recently (its last use no later than any
/// other's), for LFU the one used least often.
pub open spec fn least_by_policy(held: Map<Seq<char>, ManagedObject>, policy: EvictionPolicy, v: Seq<char>) -> bool {
    forall|k: Seq<char>|
        #![trigger held[k]]
        held.contains_key(k) && evictable(held[k], policy) ==> match policy {
            EvictionPolicy::LFU => held[v].access_count <= held[k].access_count,
            EvictionPolicy::LRU | EvictionPolicy::TTL => held[v].recency <= held[k].recency,
            EvictionPolicy::Manual => false,
        }
}

/// Under LRU, an object chosen by the policy's ranking is one whose last
/// use is no later than that of every other evictable object, whatever
/// their access counts.
pub proof fn lemma_lru_victim_least_recent(held: Map<Seq<char>, ManagedObject>, v: Seq<char>)
    requires
        held.contains_key(v),
        evictable(held[v], EvictionPolicy::LRU),
        forall|k: Seq<char>| held.contains_key(k) && evictable(#[trigger] held[k], EvictionPolicy::LRU)
            ==> eviction_rank(held[v], EvictionPolicy::LRU) <= eviction_rank(held[k], EvictionPolicy::LRU),
    ensures
        forall|k: Seq<char>| held.contains_key(k) && evictable(#[trigger] held[k], EvictionPolicy::LRU)
            ==> held[v].recency <= held[k].recency,
{
}

/// Manages the lifecycle of multiple durable objects.
///
/// Reading and writing the objects' files is the caller's part; the manager
/// decides what is cached, what is evicted, what is saved and when.
pub struct DurableObjectManager {
    objects: StrMap<ManagedObject>,
    config: DurableConfig,
    storage_dir: String,
    stats: ManagerStats,
    clock: u64,
}

impl DurableObjectManager {
    /// The objects held, by id.
    pub closed spec fn held(&self) -> Map<Seq<char>, ManagedObject> {
        str_entries(self.objects)
    }

    /// The statistics.
    pub closed spec fn counters(&self) -> ManagerStats {
        self.stats
    }

    /// The configuration.
    pub closed spec fn settings(&self) -> DurableConfig {
        self.config
    }

    /// The number of accesses so far.
    pub closed spec fn ticks(&self) -> u64 {
        self.clock
    }

    /// Every object is held under its own id, and was accessed before now.
    pub closed spec fn wf(&self) -> bool {
        forall|k: Seq<char>| #[trigger] self.held().contains_key(k) ==> self.held()[k].id@ == k && self.held()[k].recency < self.clock
    }

    /// A manager holding no objects.
    pub fn new(config: DurableConfig) -> (r: Self)
        ensures
            r.wf(),
            r.held() == Map::<Seq<char>, ManagedObject>::empty(),
            r.counters() == ManagerStats::default_spec(),
            r.settings() == config,
    {
        let storage_dir = config.storage_dir.clone();
        DurableObjectManager { objects: str_map_new(), config, storage_dir, stats: ManagerStats::default(), clock: 0 }
    }

    /// The directory the object files live in.
    pub fn storage_dir(&self) -> (r: &str)
        ensures
            r@ == self.settings().storage_dir@,
    {
        self.config.storage_dir.as_str()
    }

    /// Whether the object is held.
    pub fn contains(&self, id: &str) -> (r: bool)
        ensures
            r == self.held().contains_key(id@),
    {
        str_map_get(&self.objects, id).is_some()
    }
}

impl ManagerStats {
    /// All counters at zero.
    pub open spec fn default_spec() -> ManagerStats {
        ManagerStats { total_reads: 0, total_writes: 0, cache_hits: 0, cache_misses: 0, evictions: 0, hibernations: 0 }
    }
}

/// `b` is `a` but for the entry of `k`, which both have.
pub open spec fn same_but<V>(a: Map<Seq<char>, V>, b: Map<Seq<char>, V>, k: Seq<char>) -> bool {
    &&& a.dom() == b.dom()
    &&& a.contains_key(k)
    &&& forall|j: Seq<char>| j != k && a.contains_key(j) ==> #[trigger] b[j] == a[j]
}

/// `after` is `before` accessed once more, as access number `tick`: a
/// hibernating object wakes up.
pub open spec fn touched(before: ManagedObject, after: ManagedObject, tick: u64) -> bool {
    &&& after.id == before.id
    &&& after.state == (if before.state == ObjectState::Hibernating { ObjectState::Active } else { before.state })
    &&& after.data == before.data
    &&& after.access_count == before.access_count + 1
    &&& after.recency == tick
    &&& after.dirty == before.dirty
}

impl DurableObjectManager {
    /// A cache hit, if the object is held: it is counted, woken up if it
    /// hibernates, and touched.  Whether it was held; if not nothing changes.
    pub fn lookup(&mut self, id: &str) -> (r: bool)
        requires
            old(self).wf(),
            old(self).counters().cache_hits < u64::MAX,
            old(self).ticks() < u64::MAX,
            old(self).held().contains_key(id@) ==> old(self).held()[id@].access_count < u64::MAX,
        ensures
            final(self).wf(),
            r == old(self).held().contains_key(id@),
            r ==> (same_but(old(self).held(), final(self).held(), id@)
                && touched(old(self).held()[id@], final(self).held()[id@], old(self).ticks())
                && final(self).counters() == (ManagerStats { cache_hits: (old(self).counters().cache_hits + 1) as u64, ..old(self).counters() })
                && final(self).ticks() == old(self).ticks() + 1),
            !r ==> (final(self).held() == old(self).held() && final(self).counters() == old(self).counters()
                && final(self).ticks() == old(self).ticks()),
            final(self).settings() == old(self).settings(),
    {
        match str_map_remove(&mut self.objects, id) {
            Some(mut obj) => {
                self.stats.cache_hits = self.stats.cache_hits + 1;
                if obj.state == ObjectState::Hibernating {
                    obj.state = ObjectState::Active;
                }
                obj.last_accessed = instant_now();
                obj.access_count = obj.access_count + 1;
                obj.recency = self.clock;
                self.clock = self.clock + 1;
                str_map_insert(&mut self.objects, id.to_string(), obj);
                proof {
                    assert(self.held().dom() =~= old(self).held().dom());
                }
                true
            },
            None => {
                proof {
                    assert(self.held() =~= old(self).held());
                }
                false
            },
        }
    }

    /// Count a cache miss.
    pub fn record_miss(&mut self)
        requires
            old(self).counters().cache_misses < u64::MAX,
        ensures
            final(self).counters() == (ManagerStats { cache_misses: (old(self).counters().cache_misses + 1) as u64, ..old(self).counters() }),
            final(self).held() == old(self).held(),
            final(self).ticks() == old(self).ticks(),
            final(self).settings() == old(self).settings(),
            final(self).wf() == old(self).wf(),
    {
        self.stats.cache_misses = self.stats.cache_misses + 1;
    }

    /// Count a read.
    pub fn count_read(&mut self)
        requires
            old(self).counters().total_reads < u64::MAX,
        ensures
            final(self).counters() == (ManagerStats { total_reads: (old(self).counters().total_reads + 1) as u64, ..old(self).counters() }),
            final(self).held() == old(self).held(),
            final(self).ticks() == old(self).ticks(),
            final(self).settings() == old(self).settings(),
            final(self).wf() == old(self).wf(),
    {
        self.stats.total_reads = self.stats.total_reads + 1;
    }

    /// Count a write.
    pub fn count_write(&mut self)
        requires
            old(self).counters().total_writes < u64::MAX,
        ensures
            final(self).counters() == (ManagerStats { total_writes: (old(self).counters().total_writes + 1) as u64, ..old(self).counters() }),
            final(self).held() == old(self).held(),
            final(self).ticks() == old(self).ticks(),
            final(self).settings() == old(self).settings(),
            final(self).wf() == old(self).wf(),
    {
        self.stats.total_writes = self.stats.total_writes + 1;
    }

    /// Whether as many objects are held as the configuration allows.
    pub fn at_capacity(&self) -> (r: bool)
        ensures
            r == (self.held().dom().len() >= self.settings().max_objects),
    {
        let n = str_map_len(&self.objects);
        n >= self.config.max_objects
    }

    /// The object the configured policy evicts next: among those it may
    /// evict, one least recently used (LRU, or TTL among hibernating ones) or
    /// least often used (LFU); none under manual eviction or when no object
    /// may be evicted.
    pub fn eviction_victim(&self) -> (r: Option<String>)
        ensures
            match r {
                Some(v) => self.held().contains_key(v@) && evictable(self.held()[v@], self.settings().eviction_policy)
                    && forall|k: Seq<char>| self.held().contains_key(k) && evictable(#[trigger] self.held()[k], self.settings().eviction_policy)
                        ==> eviction_rank(self.held()[v@], self.settings().eviction_policy) <= eviction_rank(self.held()[k], self.settings().eviction_policy),
                None => forall|k: Seq<char>| self.held().contains_key(k) ==> !evictable(#[trigger] self.held()[k], self.settings().eviction_policy),
            },
            r matches Some(v) ==> least_by_policy(self.held(), self.settings().eviction_policy, v@),
    {
        let policy = self.config.eviction_policy;
        let keys = str_map_keys(&self.objects);
        let n = keys.len();
        let mut best: Option<String> = None;
        let mut best_rank: u64 = 0;
        let mut i: usize = 0;
        while i < n
            invariant
                n == keys@.len(),
                0 <= i <= n,
                policy == self.settings().eviction_policy,
                lists_keys(keys@, self.held()),
                match best {
                    Some(b) => self.held().contains_key(b@) && evictable(self.held()[b@], policy)
                        && best_rank == eviction_rank(self.held()[b@], policy)
                        && forall|q: int| 0 <= q < i && evictable(#[trigger] self.held()[keys@[q]@], policy)
                            ==> best_rank <= eviction_rank(self.held()[keys@[q]@], policy),
                    None => forall|q: int| 0 <= q < i ==> !evictable(#[trigger] self.held()[keys@[q]@], policy),
                },
            decreases n - i,
        {
            let key = &keys[i];
            proof {
                assert(self.held().contains_key(keys@[i as int]@));
            }
            match str_map_get(&self.objects, key.as_str()) {
                Some(obj) => {
                    let candidate = match policy {
                        EvictionPolicy::LRU => obj.state != ObjectState::Corrupted,
                        EvictionPolicy::LFU => obj.state != ObjectState::Corrupted,
                        EvictionPolicy::TTL => obj.state == ObjectState::Hibernating,
                        EvictionPolicy::Manual => false,
                    };
                    if candidate {
                        let rank = match policy {
                            EvictionPolicy::LFU => obj.access_count,
                            _ => obj.recency,
                        };
                        let better = match &best {
                            Some(_) => rank < best_rank,
                            None => true,
                        };
                        if better {
                            best = Some(key.clone());
                            best_rank = rank;
                        }
                    }
                },
                None => {},
            }
            i = i + 1;
        }
        proof {
            match &best {
                Some(b) => {
                    assert forall|k: Seq<char>| self.held().contains_key(k) && evictable(#[trigger] self.held()[k], policy)
                        implies best_rank <= eviction_rank(self.held()[k], policy) by {
                        let q = choose|q: int| 0 <= q < keys@.len() && (#[trigger] keys@[q])@ == k;
                    }
                },
                None => {
                    assert forall|k: Seq<char>| self.held().contains_key(k) implies !evictable(#[trigger] self.held()[k], policy) by {
                        let q = choose|q: int| 0 <= q < keys@.len() && (#[trigger] keys@[q])@ == k;
                    }
                },
            }
        }
        best
    }

    /// Hold a new object `id` with the data read back for it, accessed once.
    pub fn take_in(&mut self, id: &str, data: StrMap<serde_json::Value>)
        requires
            old(self).wf(),
            !old(self).held().contains_key(id@),
            old(self).ticks() < u64::MAX,
        ensures
            final(self).wf(),
            final(self).held().dom() == old(self).held().dom().insert(id@),
            forall|k: Seq<char>| k != id@ && old(self).held().contains_key(k) ==> #[trigger] final(self).held()[k] == old(self).held()[k],
            final(self).held()[id@].id@ == id@,
            final(self).held()[id@].state == ObjectState::Active,
            final(self).held()[id@].data == data,
            final(self).held()[id@].access_count == 1,
            final(self).held()[id@].recency == old(self).ticks(),
            !final(self).held()[id@].dirty,
            final(self).ticks() == old(self).ticks() + 1,
            final(self).counters() == old(self).counters(),
            final(self).settings() == old(self).settings(),
    {
        let obj = ManagedObject {
            id: id.to_string(),
            state: ObjectState::Active,
            data,
            last_accessed: instant_now(),
            access_count: 1,
            recency: self.clock,
            dirty: false,
        };
        self.clock = self.clock + 1;
        str_map_insert(&mut self.objects, id.to_string(), obj);
        assert(self.held().dom() =~= old(self).held().dom().insert(id@));
    }

    /// The value of `key` in the object `object_id`, if both are there.
    pub fn value_of(&self, object_id: &str, key: &str) -> (r: Option<serde_json::Value>)
        ensures
            match r {
                Some(v) => self.held().contains_key(object_id@) && str_entries(self.held()[object_id@].data).contains_key(key@)
                    && str_entries(self.held()[object_id@].data)[key@] == v,
                None => !self.held().contains_key(object_id@) || !str_entries(self.held()[object_id@].data).contains_key(key@),
            },
    {
        match str_map_get(&self.objects, object_id) {
            Some(obj) => match str_map_get(&obj.data, key) {
                Some(v) => Some(json_value_clone(v)),
                None => None,
            },
            None => None,
        }
    }

    /// Refuse a value whose JSON text is longer than the configured
    /// largest object.
    pub fn check_value_size(&self, value: &serde_json::Value) -> (r: Result<(), Error>)
        ensures
            r is Ok <==> json_text_size(*value) <= self.settings().max_object_size,
            r matches Err(Error::ModuleError(m)) ==> m@ == "Value exceeds max_object_size"@,
            r matches Err(e) ==> e is ModuleError,
    {
        if json_text_len(value) > self.config.max_object_size {
            return Err(Error::ModuleError("Value exceeds max_object_size".to_string()));
        }
        Ok(())
    }

    /// Write `value` to `key` of the held object `object_id`, marking it
    /// dirty; whether it now has as many keys as the threshold to save at.
    pub fn put_value(&mut self, object_id: &str, key: &str, value: serde_json::Value) -> (r: bool)
        requires
            old(self).wf(),
            old(self).held().contains_key(object_id@),
        ensures
            final(self).wf(),
            same_but(old(self).held(), final(self).held(), object_id@),
            str_entries(final(self).held()[object_id@].data) == str_entries(old(self).held()[object_id@].data).insert(key@, value),
            final(self).held()[object_id@].dirty,
            final(self).held()[object_id@].id == old(self).held()[object_id@].id,
            final(self).held()[object_id@].state == old(self).held()[object_id@].state,
            final(self).held()[object_id@].access_count == old(self).held()[object_id@].access_count,
            final(self).held()[object_id@].recency == old(self).held()[object_id@].recency,
            r == (str_entries(final(self).held()[object_id@].data).dom().len() >= final(self).settings().auto_persist_threshold),
            final(self).counters() == old(self).counters(),
            final(self).ticks() == old(self).ticks(),
            final(self).settings() == old(self).settings(),
    {
        let mut obj = match str_map_remove(&mut self.objects, object_id) {
            Some(o) => o,
            None => {
                proof {
                    assert(false);
                }
                return false;
            },
        };
        str_map_insert(&mut obj.data, key.to_string(), value);
        obj.dirty = true;
        let size = str_map_len(&obj.data);
        let full = size >= self.config.auto_persist_threshold;
        str_map_insert(&mut self.objects, object_id.to_string(), obj);
        assert(self.held().dom() =~= old(self).held().dom());
        full
    }

    /// Remove `key` from the held object `object_id`; whether it had it.
    /// A removal marks the object dirty.
    pub fn delete_value(&mut self, object_id: &str, key: &str) -> (r: bool)
        requires
            old(self).wf(),
            old(self).held().contains_key(object_id@),
        ensures
            final(self).wf(),
            same_but(old(self).held(), final(self).held(), object_id@),
            r == str_entries(old(self).held()[object_id@].data).contains_key(key@),
            str_entries(final(self).held()[object_id@].data) == str_entries(old(self).held()[object_id@].data).remove(key@),
            final(self).held()[object_id@].dirty == (r || old(self).held()[object_id@].dirty),
            final(self).held()[object_id@].id == old(self).held()[object_id@].id,
            final(self).held()[object_id@].state == old(self).held()[object_id@].state,
            final(self).held()[object_id@].access_count == old(self).held()[object_id@].access_count,
            final(self).held()[object_id@].recency == old(self).held()[object_id@].recency,
            final(self).counters() == old(self).counters(),
            final(self).ticks() == old(self).ticks(),
            final(self).settings() == old(self).settings(),
    {
        let mut obj = match str_map_remove(&mut self.objects, object_id) {
            Some(o) => o,
            None => {
                proof {
                    assert(false);
                }
                return false;
            },
        };
        let existed = str_map_remove(&mut obj.data, key).is_some();
        if existed {
            obj.dirty = true;
        }
        str_map_insert(&mut self.objects, object_id.to_string(), obj);
        assert(self.held().dom() =~= old(self).held().dom());
        existed
    }

    /// What saving the object `id` writes: its entries in ascending order of
    /// keys when it is dirty, nothing when it is clean; an error when no
    /// such object is held.
    pub fn persist_plan(&self, id: &str) -> (r: Result<Option<Vec<(String, serde_json::Value)>>, Error>)
        ensures
            !self.held().contains_key(id@) ==> (r matches Err(Error::ModuleError(m)) && m@ == "Object not found: "@ + id@),
            self.held().contains_key(id@) && !self.held()[id@].dirty ==> r matches Ok(None),
            self.held().contains_key(id@) && self.held()[id@].dirty ==> (r matches Ok(Some(v))
                && lists_keys(v@.map_values(|p: (String, serde_json::Value)| p.0), str_entries(self.held()[id@].data))
                && (forall|i: int| 0 <= i < v@.len() ==> str_entries(self.held()[id@].data)[(#[trigger] v@[i]).0@] == v@[i].1)
                && (forall|i: int, j: int| 0 <= i < j < v@.len() ==> text_lt((#[trigger] v@[i]).0@, (#[trigger] v@[j]).0@))),
    {
        match str_map_get(&self.objects, id) {
            None => {
                let mut m = String::new();
                push_str(&mut m, "Object not found: ");
                push_str(&mut m, id);
                proof {
                    reveal_strlit("Object not found: ");
                }
                Err(Error::ModuleError(m))
            },
            Some(obj) => {
                if !obj.dirty {
                    return Ok(None);
                }
                let keys = sort_keys::<serde_json::Value>(str_map_keys(&obj.data), Ghost(str_entries(obj.data)));
                let n = keys.len();
                let mut out: Vec<(String, serde_json::Value)> = Vec::new();
                let mut i: usize = 0;
                while i < n
                    invariant
                        n == keys@.len(),
                        0 <= i <= n,
                        lists_keys(keys@, str_entries(obj.data)),
                        strictly_sorted(keys@),
                        out@.len() == i,
                        forall|j: int| 0 <= j < i ==> (#[trigger] out@[j]).0 == keys@[j],
                        forall|j: int| 0 <= j < i ==> str_entries(obj.data)[(#[trigger] out@[j]).0@] == out@[j].1,
                    decreases n - i,
                {
                    let key = &keys[i];
                    proof {
                        assert(str_entries(obj.data).contains_key(keys@[i as int]@));
                    }
                    match str_map_get(&obj.data, key.as_str()) {
                        Some(v) => {
                            out.push((key.clone(), json_value_clone(v)));
                        },
                        None => {
                            proof {
                                assert(false);
                            }
                        },
                    }
                    i = i + 1;
                }
                proof {
                    assert(out@.map_values(|p: (String, serde_json::Value)| p.0) =~= keys@);
                }
                Ok(Some(out))
            },
        }
    }

    /// The object `id` has been saved: it is clean.  Nothing changes when no
    /// such object is held.
    pub fn mark_clean(&mut self, id: &str)
        requires
            old(self).wf(),
        ensures
            final(self).wf(),
            old(self).held().contains_key(id@) ==> (same_but(old(self).held(), final(self).held(), id@)
                && final(self).held()[id@] == (ManagedObject { dirty: false, ..old(self).held()[id@] })),
            !old(self).held().contains_key(id@) ==> final(self).held() == old(self).held(),
            final(self).counters() == old(self).counters(),
            final(self).ticks() == old(self).ticks(),
            final(self).settings() == old(self).settings(),
    {
        match str_map_remove(&mut self.objects, id) {
            Some(mut obj) => {
                obj.dirty = false;
                str_map_insert(&mut self.objects, id.to_string(), obj);
                assert(self.held().dom() =~= old(self).held().dom());
            },
            None => {
                assert(self.held() =~= old(self).held());
            },
        }
    }

    /// Mark the object `id` corrupted.  Nothing changes when no such object
    /// is held.
    pub fn mark_corrupted(&mut self, id: &str)
        requires
            old(self).wf(),
        ensures
            final(self).wf(),
            old(self).held().contains_key(id@) ==> (same_but(old(self).held(), final(self).held(), id@)
                && final(self).held()[id@] == (ManagedObject { state: ObjectState::Corrupted, ..old(self).held()[id@] })),
            !old(self).held().contains_key(id@) ==> final(self).held() == old(self).held(),
            final(self).counters() == old(self).counters(),
            final(self).ticks() == old(self).ticks(),
            final(self).settings() == old(self).settings(),
    {
        match str_map_remove(&mut self.objects, id) {
            Some(mut obj) => {
                obj.state = ObjectState::Corrupted;
                str_map_insert(&mut self.objects, id.to_string(), obj);
                assert(self.held().dom() =~= old(self).held().dom());
            },
            None => {
                assert(self.held() =~= old(self).held());
            },
        }
    }

    /// Stop holding the object `id` (after it was saved if it had to be),
    /// and count an eviction.
    pub fn remove_evicted(&mut self, id: &str)
        requires
            old(self).wf(),
            old(self).counters().evictions < u64::MAX,
        ensures
            final(self).wf(),
            final(self).held() == old(self).held().remove(id@),
            final(self).counters() == (ManagerStats { evictions: (old(self).counters().evictions + 1) as u64, ..old(self).counters() }),
            final(self).ticks() == old(self).ticks(),
            final(self).settings() == old(self).settings(),
    {
        str_map_remove(&mut self.objects, id);
        self.stats.evictions = self.stats.evictions + 1;
    }

    /// Whether an object idle for `age` has been idle longer than the
    /// configured hibernation timeout.
    pub fn is_idle_after(&self, age: Duration) -> (r: bool)
        ensures
            r == (duration_nanos(age) > duration_nanos(self.settings().hibernation_timeout)),
    {
        duration_as_nanos(&age) > duration_as_nanos(&self.config.hibernation_timeout)
    }

    /// Put every active object that has been idle longer than the
    /// configured timeout (by the clock, see
    /// [`DurableObjectManager::is_idle_after`]) to sleep, counting each;
    /// their ids, each once.  Which objects have been idle that long is the
    /// clock's to say.
    pub fn hibernate_idle(&mut self) -> (r: Vec<String>)
        requires
            old(self).wf(),
            old(self).counters().hibernations + old(self).held().dom().len() <= u64::MAX,
        ensures
            final(self).wf(),
            final(self).held().dom() == old(self).held().dom(),
            forall|k: Seq<char>| #[trigger] old(self).held().contains_key(k) ==> (final(self).held()[k] == old(self).held()[k]
                || (old(self).held()[k].state == ObjectState::Active
                    && final(self).held()[k] == (ManagedObject { state: ObjectState::Hibernating, ..old(self).held()[k] }))),
            forall|i: int| 0 <= i < r@.len() ==> old(self).held().contains_key((#[trigger] r@[i])@)
                && old(self).held()[r@[i]@].state == ObjectState::Active
                && final(self).held()[r@[i]@].state == ObjectState::Hibernating,
            forall|i: int, j: int| 0 <= i < j < r@.len() ==> (#[trigger] r@[i])@ != (#[trigger] r@[j])@,
            forall|k: Seq<char>| old(self).held().contains_key(k) && old(self).held()[k].state == ObjectState::Active
                && #[trigger] final(self).held()[k].state == ObjectState::Hibernating ==> exists|i: int| 0 <= i < r@.len() && (#[trigger] r@[i])@ == k,
            final(self).counters() == (ManagerStats { hibernations: (old(self).counters().hibernations + r@.len()) as u64, ..old(self).counters() }),
            final(self).ticks() == old(self).ticks(),
            final(self).settings() == old(self).settings(),
    {
        let keys = str_map_keys(&self.objects);
        let n = keys.len();
        proof {
            lemma_listed_count(keys@, self.held());
        }
        let ghost start = self.held();
        let mut out: Vec<String> = Vec::new();
        let ghost mut slot: Seq<int> = Seq::empty();
        let mut i: usize = 0;
        while i < n
            invariant
                n == keys@.len(),
                n == start.dom().len(),
                0 <= i <= n,
                start == old(self).held(),
                lists_keys(keys@, start),
                self.config == old(self).config,
                self.clock == old(self).clock,
                self.stats == (ManagerStats { hibernations: (old(self).stats.hibernations + out@.len()) as u64, ..old(self).stats }),
                old(self).stats.hibernations + n <= u64::MAX,
                out@.len() <= i,
                self.held().dom() == start.dom(),
                forall|k: Seq<char>| #[trigger] start.contains_key(k) ==> self.held()[k].id == start[k].id && self.held()[k].recency == start[k].recency,
                forall|k: Seq<char>| #[trigger] start.contains_key(k) ==> (self.held()[k] == start[k]
                    || (start[k].state == ObjectState::Active
                        && self.held()[k] == (ManagedObject { state: ObjectState::Hibernating, ..start[k] }))),
                forall|q: int| i <= q < n ==> #[trigger] self.held()[keys@[q]@] == start[keys@[q]@],
                forall|j: int| 0 <= j < out@.len() ==> start.contains_key((#[trigger] out@[j])@)
                    && start[out@[j]@].state == ObjectState::Active
                    && self.held()[out@[j]@].state == ObjectState::Hibernating
                    && exists|q: int| 0 <= q < i && keys@[q]@ == out@[j]@,
                forall|j: int, q: int| 0 <= j < q < out@.len() ==> (#[trigger] out@[j])@ != (#[trigger] out@[q])@,
                slot.len() == i,
                forall|q: int| 0 <= q < i && start[keys@[q]@].state == ObjectState::Active
                    && self.held()[keys@[q]@].state == ObjectState::Hibernating
                    ==> 0 <= #[trigger] slot[q] < out@.len() && out@[slot[q]]@ == keys@[q]@,
            decreases n - i,
        {
            let key = &keys[i];
            proof {
                assert(start.contains_key(keys@[i as int]@));
                assert forall|j: int| 0 <= j < out@.len() implies (#[trigger] out@[j])@ != keys@[i as int]@ by {
                    let q = choose|q: int| 0 <= q < i && keys@[q]@ == out@[j]@;
                }
            }
            let ghost pre = self.held();
            let ghost before_out = out@;
            let mut obj = match str_map_remove(&mut self.objects, key.as_str()) {
                Some(o) => o,
                None => {
                    proof {
                        assert(false);
                    }
                    return out;
                },
            };
            let mut slept = false;
            if obj.state == ObjectState::Active {
                let idle = instant_elapsed(&obj.last_accessed);
                if self.is_idle_after(idle) {
                    obj.state = ObjectState::Hibernating;
                    self.stats.hibernations = self.stats.hibernations + 1;
                    slept = true;
                }
            }
            str_map_insert(&mut self.objects, key.clone(), obj);
            if slept {
                out.push(key.clone());
            }
            proof {
                let k0 = keys@[i as int]@;
                assert(self.held() == pre.insert(k0, self.held()[k0]));
                assert(self.held().dom() =~= start.dom());
                if slept {
                    slot = slot.push(before_out.len() as int);
                    assert(out@[before_out.len() as int] == keys@[i as int]);
                    assert forall|j: int| 0 <= j < out@.len() implies start.contains_key((#[trigger] out@[j])@)
                        && start[out@[j]@].state == ObjectState::Active
                        && self.held()[out@[j]@].state == ObjectState::Hibernating
                        && exists|q: int| 0 <= q < i + 1 && keys@[q]@ == out@[j]@ by {
                        if j < before_out.len() {
                            assert(out@[j] == before_out[j]);
                            let q = choose|q: int| 0 <= q < i && keys@[q]@ == out@[j]@;
                            assert(keys@[q]@ == out@[j]@);
                        } else {
                            assert(keys@[i as int]@ == out@[j]@);
                        }
                    }
                } else {
                    slot = slot.push(-1);
                    assert forall|j: int| 0 <= j < out@.len() implies start.contains_key((#[trigger] out@[j])@)
                        && start[out@[j]@].state == ObjectState::Active
                        && self.held()[out@[j]@].state == ObjectState::Hibernating
                        && exists|q: int| 0 <= q < i + 1 && keys@[q]@ == out@[j]@ by {
                        let q = choose|q: int| 0 <= q < i && keys@[q]@ == out@[j]@;
                        assert(keys@[q]@ == out@[j]@);
                    }
                }
                assert forall|q: int| i + 1 <= q < n implies #[trigger] self.held()[keys@[q]@] == start[keys@[q]@] by {
                    assert(keys@[q]@ != k0);
                }
            }
            i = i + 1;
        }
        proof {
            assert forall|k: Seq<char>| old(self).held().contains_key(k) && old(self).held()[k].state == ObjectState::Active
                && #[trigger] self.held()[k].state == ObjectState::Hibernating implies exists|i: int| 0 <= i < out@.len() && (#[trigger] out@[i])@ == k by {
                let q = choose|q: int| 0 <= q < keys@.len() && (#[trigger] keys@[q])@ == k;
                assert(out@[slot[q]]@ == keys@[q]@);
            }
            assert forall|k: Seq<char>| #[trigger] self.held().contains_key(k) implies self.held()[k].id@ == k && self.held()[k].recency < self.clock by {
                assert(start.contains_key(k));
            }
        }
        out
    }

    /// Whether the object `id` is held and dirty.
    pub fn is_dirty(&self, id: &str) -> (r: bool)
        ensures
            r == (self.held().contains_key(id@) && self.held()[id@].dirty),
    {
        match str_map_get(&self.objects, id) {
            Some(o) => o.dirty,
            None => false,
        }
    }

    /// The ids of the dirty objects, each once.
    pub fn dirty_ids(&self) -> (r: Vec<String>)
        ensures
            forall|i: int| 0 <= i < r@.len() ==> self.held().contains_key((#[trigger] r@[i])@) && self.held()[r@[i]@].dirty,
            forall|i: int, j: int| 0 <= i < j < r@.len() ==> (#[trigger] r@[i])@ != (#[trigger] r@[j])@,
            forall|k: Seq<char>| self.held().contains_key(k) && (#[trigger] self.held()[k]).dirty
                ==> exists|i: int| 0 <= i < r@.len() && (#[trigger] r@[i])@ == k,
    {
        let keys = str_map_keys(&self.objects);
        let n = keys.len();
        let mut out: Vec<String> = Vec::new();
        let ghost mut src: Seq<int> = Seq::empty();
        let ghost mut slot: Seq<int> = Seq::empty();
        let mut i: usize = 0;
        while i < n
            invariant
                n == keys@.len(),
                0 <= i <= n,
                lists_keys(keys@, self.held()),
                src.len() == out@.len(),
                slot.len() == i,
                forall|j: int| 0 <= j < out@.len() ==> 0 <= #[trigger] src[j] < i && out@[j] == keys@[src[j]]
                    && self.held()[out@[j]@].dirty,
                forall|j: int, q: int| 0 <= j < q < out@.len() ==> #[trigger] src[j] < #[trigger] src[q],
                forall|q: int| 0 <= q < i && self.held()[keys@[q]@].dirty ==> 0 <= #[trigger] slot[q] < out@.len()
                    && out@[slot[q]] == keys@[q],
            decreases n - i,
        {
            let key = &keys[i];
            proof {
                assert(self.held().contains_key(keys@[i as int]@));
            }
            let d = match str_map_get(&self.objects, key.as_str()) {
                Some(o) => o.dirty,
                None => false,
            };
            assert(d == self.held()[keys@[i as int]@].dirty);
            if d {
                let ghost at = out@.len() as int;
                let ghost before = out@;
                out.push(key.clone());
                proof {
                    let old_src = src;
                    src = src.push(i as int);
                    slot = slot.push(at);
                    assert forall|j: int| 0 <= j < out@.len() implies 0 <= #[trigger] src[j] < i + 1 && out@[j] == keys@[src[j]]
                        && self.held()[out@[j]@].dirty by {
                        if j < at {
                            assert(out@[j] == before[j]);
                            assert(src[j] == old_src[j]);
                        } else {
                            assert(out@[j] == keys@[i as int]);
                            assert(d);
                        }
                    }
                }
            } else {
                proof {
                    slot = slot.push(-1);
                }
            }
            i = i + 1;
        }
        proof {
            assert forall|j: int, q: int| 0 <= j < q < out@.len() implies (#[trigger] out@[j])@ != (#[trigger] out@[q])@ by {
                assert(src[j] < src[q]);
                assert(out@[j] == keys@[src[j]]);
                assert(out@[q] == keys@[src[q]]);
            }
            assert forall|j: int| 0 <= j < out@.len() implies self.held().contains_key((#[trigger] out@[j])@) && self.held()[out@[j]@].dirty by {
                assert(out@[j] == keys@[src[j]]);
            }
            assert forall|k: Seq<char>| self.held().contains_key(k) && (#[trigger] self.held()[k]).dirty
                implies exists|i: int| 0 <= i < out@.len() && (#[trigger] out@[i])@ == k by {
                let q = choose|q: int| 0 <= q < keys@.len() && (#[trigger] keys@[q])@ == k;
                assert(out@[slot[q]] == keys@[q]);
            }
        }
        out
    }

    /// The statistics.
    pub fn stats(&self) -> (r: &ManagerStats)
        ensures
            *r == self.counters(),
    {
        &self.stats
    }

    /// The number of objects held.
    pub fn object_count(&self) -> (r: usize)
        ensures
            is_entry_count(r, self.held()),
    {
        str_map_len(&self.objects)
    }

    /// The ids of the objects held, each once.
    pub fn object_ids(&self) -> (r: Vec<String>)
        ensures
            lists_keys(r@, self.held()),
    {
        str_map_keys(&self.objects)
    }

    /// The state of the object `id`, if it is held.
    pub fn object_state(&self, id: &str) -> (r: Option<ObjectState>)
        ensures
            match r {
                Some(st) => self.held().contains_key(id@) && self.held()[id@].state == st,
                None => !self.held().contains_key(id@),
            },
    {
        match str_map_get(&self.objects, id) {
            Some(o) => Some(o.state),
            None => None,
        }
    }
}

} // verus!
