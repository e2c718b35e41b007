//! Debugging support: the time-travel debugger's history of execution
//! steps with breakpoints, watches and delta records; source maps; the debug
//! adapter protocol's data types; the terminal views; and the recording
//! format.
use vstd::prelude::*;
use std::collections::HashMap;
use rustc_hash::FxBuildHasher;
use crate::value::{JsValue, ValueModel};
use crate::text::{split_lines, string_of, views_of, lines_spec, decimal, decimal_string, pad_left_spec, push_padded, push_str};
use std::collections::hash_map::DefaultHasher;
use std::hash::Hasher;
use vstd::std_specs::hash::DefaultHasherAdditionalSpecFns;
use crate::debugger::console::{CommandOutcome, words, split_words, unsigned_text, parse_unsigned};
use crate::text::{str_eq, chars_of};
use crate::json::{JsonValue, JsonModel, pretty_json, pretty_json_outcome, lemma_json_models_index, lemma_json_member_models_index};
use crate::debugger::recording::{push_u32, push_u64, u32_bytes, u64_bytes, Recording, RecordedStep, RecordedBreakpoint, RecordingModel, Fault, recording_fits, parse_recording, recording_bytes, pair_views};

pub mod console;
pub mod server;
pub mod sourcemap;
pub mod dap;
pub mod ui;
pub mod recording;
pub mod condition;

verus! {

/// The most execution steps the history keeps; the oldest go first.
pub const MAX_HISTORY_SIZE: usize = 10000;

// ───────────────────────────── Tables keyed by line ─────────────────────────────

/// A table keyed by source line, hashed with `rustc_hash`.
pub type LineTable<V> = HashMap<u32, V, FxBuildHasher>;

/// No line has an entry.
pub open spec fn no_lines<V>() -> Map<u32, V> {
    Map::empty()
}

/// `n` is the number of entries of a finite table.
pub open spec fn is_line_count<V>(n: usize, m: Map<u32, V>) -> bool {
    m.dom().finite() && n == m.dom().len()
}

/// `FxHashMap::default`: a table with no entry.
#[verifier::external_body]
fn lines_new<V>() -> (r: LineTable<V>)
    ensures
        r@ == no_lines::<V>(),
{
    HashMap::default()
}

/// `HashMap::get`: the entry of the line, if it has one.
#[verifier::external_body]
fn lines_get<'a, V>(m: &'a LineTable<V>, k: u32) -> (r: Option<&'a V>)
    ensures
        match r {
            Some(v) => m@.contains_key(k) && m@[k] == *v,
            None => !m@.contains_key(k),
        },
{
    m.get(&k)
}

/// `HashMap::insert`: the line now has the entry; other lines keep theirs.
#[verifier::external_body]
fn lines_insert<V>(m: &mut LineTable<V>, k: u32, v: V)
    ensures
        final(m)@ == old(m)@.insert(k, v),
{
    m.insert(k, v);
}

/// `HashMap::remove`: the line no longer has an entry; the one it had is
/// returned.
#[verifier::external_body]
fn lines_remove<V>(m: &mut LineTable<V>, k: u32) -> (r: Option<V>)
    ensures
        final(m)@ == old(m)@.remove(k),
        match r {
            Some(v) => old(m)@.contains_key(k) && v == old(m)@[k],
            None => !old(m)@.contains_key(k),
        },
{
    m.remove(&k)
}

/// `HashMap::len`: the number of entries.
#[verifier::external_body]
fn lines_len<V>(m: &LineTable<V>) -> (r: usize)
    ensures
        is_line_count(r, m@),
{
    m.len()
}

/// `HashMap::keys`, copied out: every line once, in an order the hasher
/// decides.
#[verifier::external_body]
fn lines_keys<V>(m: &LineTable<V>) -> (r: Vec<u32>)
    ensures
        forall|i: int| 0 <= i < r@.len() ==> m@.contains_key(#[trigger] r@[i]),
        r@.no_duplicates(),
        forall|k: u32| m@.contains_key(k) ==> r@.contains(k),
{
    m.keys().copied().collect()
}

// ───────────────────────────── Variable tables ─────────────────────────────

/// The variables of a string-keyed table, by name.
pub uninterp spec fn variable_entries(m: HashMap<String, String>) -> Map<Seq<char>, Seq<char>>;

/// No variable has a value.
pub open spec fn no_variables() -> Map<Seq<char>, Seq<char>> {
    Map::empty()
}

/// `HashMap::new`: a table with no variable.
#[verifier::external_body]
fn variables_new() -> (r: HashMap<String, String>)
    ensures
        variable_entries(r) == no_variables(),
{
    HashMap::new()
}

/// `HashMap::get`: the value of the variable, if it has one.
#[verifier::external_body]
fn variables_get<'a>(m: &'a HashMap<String, String>, name: &str) -> (r: Option<&'a String>)
    ensures
        match r {
            Some(v) => variable_entries(*m).contains_key(name@) && variable_entries(*m)[name@] == v@,
            None => !variable_entries(*m).contains_key(name@),
        },
{
    m.get(name)
}

/// `HashMap::insert`: the variable now has the value; others keep theirs.
#[verifier::external_body]
fn variables_insert(m: &mut HashMap<String, String>, name: String, value: String)
    ensures
        variable_entries(*final(m)) == variable_entries(*old(m)).insert(name@, value@),
{
    m.insert(name, value);
}

// ───────────────────────────── Records, breakpoints, watches ─────────────────────────────

/// A snapshot of the machine after one execution step.  Values are the
/// runtime's; the opcode is its byte, when there was one.
#[derive(Debug)]
pub struct ExecutionRecord {
    pub step: u64,
    pub opcode: Option<u8>,
    pub ip: usize,
    pub line: u32,
    /// The top of the stack, at most ten values, the top first.
    pub stack_top: Vec<JsValue>,
    pub stack_size: usize,
    pub locals: Vec<(String, JsValue)>,
    pub globals_changed: Vec<(String, JsValue)>,
    pub description: String,
}

/// A breakpoint on a line.
#[derive(Debug)]
pub struct Breakpoint {
    pub line: u32,
    pub condition: Option<String>,
    pub enabled: bool,
    pub hit_count: u64,
}

impl Clone for Breakpoint {
    fn clone(&self) -> (r: Self)
        ensures
            r == *self,
    {
        Breakpoint {
            line: self.line,
            condition: match &self.condition {
                Some(c) => Some(c.clone()),
                None => None,
            },
            enabled: self.enabled,
            hit_count: self.hit_count,
        }
    }
}

/// When a conditional breakpoint's hit count makes it break.
#[derive(Debug, Clone, Copy, PartialEq, Eq, Structural)]
pub enum HitCondition {
    /// When the hit count is exactly N.
    Equal(u64),
    /// When the hit count is a multiple of N (never for N = 0).
    Multiple(u64),
    /// When the hit count is at least N.
    GreaterEqual(u64),
}

/// Whether a hit count satisfies the hit condition.
pub open spec fn hit_condition_holds(hc: HitCondition, count: u64) -> bool {
    match hc {
        HitCondition::Equal(n) => count == n,
        HitCondition::Multiple(n) => n != 0 && count % n == 0,
        HitCondition::GreaterEqual(n) => count >= n,
    }
}

/// Whether a hit count satisfies the hit condition.
pub fn hit_condition_met(hc: HitCondition, count: u64) -> (r: bool)
    ensures
        r == hit_condition_holds(hc, count),
{
    match hc {
        HitCondition::Equal(n) => count == n,
        HitCondition::Multiple(n) => n != 0 && count % n == 0,
        HitCondition::GreaterEqual(n) => count >= n,
    }
}

/// A breakpoint with an optional condition, hit condition and log message.
#[derive(Debug, Clone)]
pub struct ConditionalBreakpoint {
    pub line: usize,
    pub condition: Option<String>,
    pub hit_condition: Option<HitCondition>,
    pub log_message: Option<String>,
    pub enabled: bool,
    pub hit_count: u64,
}

/// An expression watched over time, with its values step by step.
#[derive(Debug, Clone)]
pub struct WatchExpression {
    pub id: usize,
    pub expression: String,
    pub current_value: Option<String>,
    pub history: Vec<WatchHistoryEntry>,
}

/// A watched value at a step, and whether it changed there.
#[derive(Debug, Clone)]
pub struct WatchHistoryEntry {
    pub step: usize,
    pub value: String,
    pub changed: bool,
}

/// What describes a recording: its format version, file, number of steps,
/// first and last step numbers, breakpoints, watches and checksum.
#[derive(Debug, Clone)]
pub struct RecordingMetadata {
    pub format_version: u32,
    pub source_file: Option<String>,
    pub total_steps: usize,
    pub start_time: u64,
    pub end_time: u64,
    pub breakpoint_count: usize,
    pub watch_count: usize,
    pub checksum: u64,
}

/// A step recorded as what changed since the one before.
#[derive(Debug, Clone)]
pub struct DeltaRecord {
    pub step: usize,
    pub opcode: String,
    pub ip: usize,
    pub line: Option<usize>,
    pub changed_locals: Vec<(String, String)>,
    pub changed_globals: Vec<(String, String)>,
    pub stack_delta: StackDelta,
}

/// How the stack changed in a step.
#[derive(Debug, Clone)]
pub enum StackDelta {
    Push(Vec<String>),
    Pop(usize),
    Replace(Vec<String>),
    NoChange,
}

/// The state at a step rebuilt from the delta records.
#[derive(Debug, Clone)]
pub struct ReconstructedState {
    pub step: usize,
    pub locals: HashMap<String, String>,
    pub globals: HashMap<String, String>,
    pub stack: Vec<String>,
}

pub use recording::RecordingError;

/// What describes the loaded session.
#[derive(Debug, Clone)]
pub struct RecordingInfo {
    pub filename: String,
    pub total_steps: u64,
    pub history_size: usize,
    pub source_lines: usize,
    pub breakpoint_count: usize,
    pub current_position: usize,
}

/// Counters of the debugger.
#[derive(Debug, Clone, Copy)]
pub struct DebuggerStats {
    pub total_steps: u64,
    pub history_size: usize,
    pub breakpoint_count: usize,
    pub watch_count: usize,
}

/// A panel of the terminal dashboard.
#[derive(Debug, Clone)]
pub struct TuiPanel {
    pub title: String,
    pub lines: Vec<String>,
    pub focused: bool,
}

// ───────────────────────────── The debugger ─────────────────────────────

/// The time-travel debugger: the recorded history of execution steps with a
/// position in it, breakpoints by line, conditional breakpoints, watch
/// expressions, delta records, and the debugged source.
#[derive(Debug)]
pub struct TimeTravelDebugger {
    history: Vec<ExecutionRecord>,
    current_position: usize,
    recording: bool,
    breakpoints: LineTable<Breakpoint>,
    next_bp_id: u32,
    watches: Vec<String>,
    step_counter: u64,
    paused: bool,
    source_lines: Vec<String>,
    current_file: String,
    conditional_breakpoints: Vec<ConditionalBreakpoint>,
    next_cond_bp_id: usize,
    watch_expressions: Vec<WatchExpression>,
    next_watch_id: usize,
    delta_history: Vec<DeltaRecord>,
}

/// The snapshot `r` holds what `record_step` was given.
pub open spec fn snapshot_of(
    r: ExecutionRecord,
    step: u64,
    opcode: Option<u8>,
    ip: usize,
    line: u32,
    stack: Seq<JsValue>,
    locals: Seq<(String, JsValue)>,
    description: Seq<char>,
) -> bool {
    &&& r.step == step
    &&& r.opcode == opcode
    &&& r.ip == ip
    &&& r.line == line
    &&& r.stack_size == stack.len()
    &&& r.stack_top@.len() == if stack.len() < 10 {
        stack.len()
    } else {
        10
    }
    &&& forall|i: int| 0 <= i < r.stack_top@.len() ==> (#[trigger] r.stack_top@[i])@ == stack[stack.len() - 1 - i]@
    &&& crate::value::prop_models_of(r.locals@) == crate::value::prop_models_of(locals)
    &&& r.globals_changed@.len() == 0
    &&& r.description@ == description
}

impl TimeTravelDebugger {
    /// The recorded steps, oldest first.
    pub closed spec fn steps(&self) -> Seq<ExecutionRecord> {
        self.history@
    }

    /// The position in the history.
    pub closed spec fn position(&self) -> usize {
        self.current_position
    }

    /// Whether steps are being recorded.
    pub closed spec fn is_recording(&self) -> bool {
        self.recording
    }

    /// The breakpoints, by line.
    pub closed spec fn line_breakpoints(&self) -> Map<u32, Breakpoint> {
        self.breakpoints@
    }

    /// The id the next breakpoint gets.
    pub closed spec fn breakpoint_counter(&self) -> u32 {
        self.next_bp_id
    }

    /// The plain watch expressions.
    pub closed spec fn watch_list(&self) -> Seq<String> {
        self.watches@
    }

    /// The number of steps recorded so far.
    pub closed spec fn counter(&self) -> u64 {
        self.step_counter
    }

    /// Whether the debugger is paused.
    pub closed spec fn is_paused_spec(&self) -> bool {
        self.paused
    }

    /// The debugged source, line by line.
    pub closed spec fn source(&self) -> Seq<Seq<char>> {
        views_of(self.source_lines@)
    }

    /// The name of the debugged file.
    pub closed spec fn file(&self) -> Seq<char> {
        self.current_file@
    }

    /// The conditional breakpoints, in the order they were added.
    pub closed spec fn conditionals(&self) -> Seq<ConditionalBreakpoint> {
        self.conditional_breakpoints@
    }

    /// The id the next conditional breakpoint gets.
    pub closed spec fn conditional_counter(&self) -> usize {
        self.next_cond_bp_id
    }

    /// The watch expressions with their histories.
    pub closed spec fn watch_expressions_spec(&self) -> Seq<WatchExpression> {
        self.watch_expressions@
    }

    /// The id the next watch expression gets.
    pub closed spec fn watch_counter(&self) -> usize {
        self.next_watch_id
    }

    /// The delta records, in the order they were recorded.
    pub closed spec fn deltas(&self) -> Seq<DeltaRecord> {
        self.delta_history@
    }

    /// The position lies in the history (or is 0 for an empty one).
    pub closed spec fn wf(&self) -> bool {
        &&& forall|k: u32| #[trigger] self.breakpoints@.contains_key(k) ==> self.breakpoints@[k].line == k
        &&& (self.history@.len() == 0 ==> self.current_position == 0)
        &&& (self.history@.len() > 0 ==> self.current_position < self.history@.len())
    }

    /// A debugger with no history, recording, not paused, with breakpoint,
    /// conditional breakpoint and watch ids from 1.
    pub fn new() -> (r: Self)
        ensures
            r.wf(),
            r.steps().len() == 0,
            r.position() == 0,
            r.is_recording(),
            r.line_breakpoints() == no_lines::<Breakpoint>(),
            r.breakpoint_counter() == 1,
            r.watch_list().len() == 0,
            r.counter() == 0,
            !r.is_paused_spec(),
            r.source().len() == 0,
            r.file().len() == 0,
            r.conditionals().len() == 0,
            r.conditional_counter() == 1,
            r.watch_expressions_spec().len() == 0,
            r.watch_counter() == 1,
            r.deltas().len() == 0,
    {
        let r = TimeTravelDebugger {
            history: Vec::new(),
            current_position: 0,
            recording: true,
            breakpoints: lines_new(),
            next_bp_id: 1,
            watches: Vec::new(),
            step_counter: 0,
            paused: false,
            source_lines: Vec::new(),
            current_file: String::new(),
            conditional_breakpoints: Vec::new(),
            next_cond_bp_id: 1,
            watch_expressions: Vec::new(),
            next_watch_id: 1,
            delta_history: Vec::new(),
        };
        assert(views_of(r.source_lines@) =~= Seq::<Seq<char>>::empty());
        r
    }

    /// Load the source shown beside the steps: the file's name and its
    /// lines, as `str::lines` splits them.
    pub fn load_source(&mut self, filename: &str, source: &str)
        ensures
            final(self).file() == filename@,
            final(self).source() == lines_spec(source@),
            final(self).steps() == old(self).steps(),
            final(self).position() == old(self).position(),
            old(self).wf() ==> final(self).wf(),
    {
        self.current_file = string_of(filename);
        self.source_lines = split_lines(source);
    }

    /// Record a step, when recording: the step counter advances, the
    /// snapshot (the top ten stack values, the top first) joins the history,
    /// dropping the oldest when the history is full, and the position moves
    /// to it. Breakpoints, watches, the source, the pause and recording flags
    /// and the delta records are left as they are.
    pub fn record_step(
        &mut self,
        opcode: Option<u8>,
        ip: usize,
        line: u32,
        stack: &Vec<JsValue>,
        locals: &Vec<(String, JsValue)>,
        description: &str,
    )
        requires
            old(self).wf(),
            old(self).is_recording() ==> old(self).counter() < u64::MAX,
        ensures
            final(self).wf(),
            !old(self).is_recording() ==> *final(self) == *old(self),
            old(self).is_recording() ==> {
                let kept = if old(self).steps().len() >= MAX_HISTORY_SIZE {
                    old(self).steps().drop_first()
                } else {
                    old(self).steps()
                };
                &&& final(self).counter() == old(self).counter() + 1
                &&& final(self).steps().len() == kept.len() + 1
                &&& final(self).steps().drop_last() == kept
                &&& snapshot_of(
                    final(self).steps().last(),
                    final(self).counter(),
                    opcode,
                    ip,
                    line,
                    stack@,
                    locals@,
                    description@,
                )
                &&& final(self).position() == final(self).steps().len() - 1
            },
            final(self).is_recording() == old(self).is_recording(),
            final(self).is_paused_spec() == old(self).is_paused_spec(),
            final(self).line_breakpoints() == old(self).line_breakpoints(),
            final(self).breakpoint_counter() == old(self).breakpoint_counter(),
            final(self).watch_list() == old(self).watch_list(),
            final(self).source() == old(self).source(),
            final(self).file() == old(self).file(),
            final(self).conditionals() == old(self).conditionals(),
            final(self).conditional_counter() == old(self).conditional_counter(),
            final(self).watch_expressions_spec() == old(self).watch_expressions_spec(),
            final(self).watch_counter() == old(self).watch_counter(),
            final(self).deltas() == old(self).deltas(),
    {
        if !self.recording {
            return;
        }
        self.step_counter = self.step_counter + 1;
        let mut top: Vec<JsValue> = Vec::new();
        let n = stack.len();
        let mut i: usize = 0;
        while i < 10 && i < n
            invariant
                n == stack@.len(),
                i <= 10,
                i <= n,
                top@.len() == i,
                forall|j: int| 0 <= j < i ==> (#[trigger] top@[j])@ == stack@[n - 1 - j]@,
            decreases n - i,
        {
            top.push(stack[n - 1 - i].duplicate());
            i = i + 1;
        }
        let mut copied: Vec<(String, JsValue)> = Vec::new();
        let mut k: usize = 0;
        while k < locals.len()
            invariant
                k <= locals@.len(),
                crate::value::prop_models_of(copied@) == crate::value::prop_models_of(locals@.subrange(0, k as int)),
            decreases locals@.len() - k,
        {
            let (name, value) = &locals[k];
            let ghost before = copied@;
            copied.push((name.clone(), value.duplicate()));
            proof {
                assert(copied@.subrange(0, copied@.len() - 1) =~= before);
                assert(locals@.subrange(0, k + 1).subrange(0, k as int) =~= locals@.subrange(0, k as int));
            }
            k = k + 1;
        }
        assert(locals@.subrange(0, k as int) =~= locals@);
        let record = ExecutionRecord {
            step: self.step_counter,
            opcode,
            ip,
            line,
            stack_top: top,
            stack_size: n,
            locals: copied,
            globals_changed: Vec::new(),
            description: string_of(description),
        };
        if self.history.len() >= MAX_HISTORY_SIZE {
            let _ = self.history.remove(0);
            assert(self.history@ =~= old(self).history@.drop_first());
        }
        self.history.push(record);
        self.current_position = self.history.len() - 1;
        assert(self.history@.drop_last() =~= if old(self).history@.len() >= MAX_HISTORY_SIZE {
            old(self).history@.drop_first()
        } else {
            old(self).history@
        });
    }

    /// Whether to stop at the line: an enabled breakpoint there counts the
    /// hit and stops.
    pub fn should_break(&mut self, line: u32) -> (r: bool)
        requires
            old(self).line_breakpoints().contains_key(line) ==> old(self).line_breakpoints()[line].hit_count < u64::MAX,
        ensures
            r == (old(self).line_breakpoints().contains_key(line) && old(self).line_breakpoints()[line].enabled),
            r ==> final(self).line_breakpoints() == old(self).line_breakpoints().insert(
                line,
                Breakpoint { hit_count: (old(self).line_breakpoints()[line].hit_count + 1) as u64, ..old(self).line_breakpoints()[line] },
            ),
            !r ==> final(self).line_breakpoints() == old(self).line_breakpoints(),
            final(self).steps() == old(self).steps(),
            final(self).position() == old(self).position(),
            old(self).wf() ==> final(self).wf(),
    {
        match lines_remove(&mut self.breakpoints, line) {
            Some(mut bp) => {
                if bp.enabled {
                    bp.hit_count = bp.hit_count + 1;
                    lines_insert(&mut self.breakpoints, line, bp);
                    true
                } else {
                    lines_insert(&mut self.breakpoints, line, bp);
                    assert(self.breakpoints@ =~= old(self).breakpoints@);
                    false
                }
            },
            None => {
                assert(self.breakpoints@ =~= old(self).breakpoints@);
                false
            },
        }
    }

    /// Move one step back in the history and give that step; nothing at the
    /// first step.
    pub fn step_back(&mut self) -> (r: Option<&ExecutionRecord>)
        requires
            old(self).wf(),
        ensures
            final(self).wf(),
            final(self).steps() == old(self).steps(),
            old(self).position() > 0 ==> final(self).position() == old(self).position() - 1 && r == Some(
                &final(self).steps()[final(self).position() as int],
            ),
            old(self).position() == 0 ==> final(self).position() == 0 && r is None,
    {
        if self.current_position > 0 {
            self.current_position = self.current_position - 1;
            Some(&self.history[self.current_position])
        } else {
            None
        }
    }

    /// Move one step forward in the history and give that step; nothing at
    /// the last step.
    pub fn step_forward(&mut self) -> (r: Option<&ExecutionRecord>)
        requires
            old(self).wf(),
            old(self).steps().len() > 0,
        ensures
            final(self).wf(),
            final(self).steps() == old(self).steps(),
            old(self).position() + 1 < old(self).steps().len() ==> final(self).position() == old(self).position() + 1
                && r == Some(&final(self).steps()[final(self).position() as int]),
            old(self).position() + 1 >= old(self).steps().len() ==> final(self).position() == old(self).position()
                && r is None,
    {
        if self.current_position < self.history.len() - 1 {
            self.current_position = self.current_position + 1;
            Some(&self.history[self.current_position])
        } else {
            None
        }
    }

    /// The step at the position, if the history has one.
    pub fn current(&self) -> (r: Option<&ExecutionRecord>)
        ensures
            self.position() < self.steps().len() ==> r == Some(&self.steps()[self.position() as int]),
            self.position() >= self.steps().len() ==> r is None,
    {
        if self.current_position < self.history.len() {
            Some(&self.history[self.current_position])
        } else {
            None
        }
    }

    /// Move to the first recorded step with the given number and give it;
    /// nothing (and no move) when no step has it.
    pub fn jump_to(&mut self, step: u64) -> (r: Option<&ExecutionRecord>)
        requires
            old(self).wf(),
        ensures
            final(self).wf(),
            final(self).steps() == old(self).steps(),
            match r {
                Some(rec) => {
                    let i = final(self).position() as int;
                    &&& 0 <= i < old(self).steps().len()
                    &&& old(self).steps()[i].step == step
                    &&& forall|j: int| 0 <= j < i ==> old(self).steps()[j].step != step
                    &&& rec == &old(self).steps()[i]
                },
                None => final(self).position() == old(self).position() && forall|j: int|
                    0 <= j < old(self).steps().len() ==> old(self).steps()[j].step != step,
            },
    {
        let mut i: usize = 0;
        while i < self.history.len()
            invariant
                i <= self.history@.len(),
                self.history@ == old(self).history@,
                self.current_position == old(self).current_position,
                self.breakpoints@ == old(self).breakpoints@,
                old(self).wf(),
                forall|j: int| 0 <= j < i ==> self.history@[j].step != step,
            decreases self.history@.len() - i,
        {
            if self.history[i].step == step {
                self.current_position = i;
                return Some(&self.history[i]);
            }
            i = i + 1;
        }
        None
    }

    /// Set a breakpoint on the line (replacing one there) and give it the
    /// next breakpoint id.
    pub fn add_breakpoint(&mut self, line: u32, condition: Option<String>) -> (id: u32)
        requires
            old(self).breakpoint_counter() < u32::MAX,
        ensures
            id == old(self).breakpoint_counter(),
            final(self).breakpoint_counter() == old(self).breakpoint_counter() + 1,
            final(self).line_breakpoints() == old(self).line_breakpoints().insert(
                line,
                Breakpoint { line, condition, enabled: true, hit_count: 0 },
            ),
            final(self).steps() == old(self).steps(),
            final(self).position() == old(self).position(),
            old(self).wf() ==> final(self).wf(),
    {
        let id = self.next_bp_id;
        self.next_bp_id = self.next_bp_id + 1;
        lines_insert(&mut self.breakpoints, line, Breakpoint { line, condition, enabled: true, hit_count: 0 });
        id
    }

    /// Take away the breakpoint on the line; whether there was one.
    pub fn remove_breakpoint(&mut self, line: u32) -> (r: bool)
        ensures
            r == old(self).line_breakpoints().contains_key(line),
            final(self).line_breakpoints() == old(self).line_breakpoints().remove(line),
            final(self).steps() == old(self).steps(),
            final(self).position() == old(self).position(),
            old(self).wf() ==> final(self).wf(),
    {
        match lines_remove(&mut self.breakpoints, line) {
            Some(_) => true,
            None => false,
        }
    }

    /// Add a plain watch expression.
    pub fn add_watch(&mut self, expr: String)
        ensures
            final(self).watch_list() == old(self).watch_list().push(expr),
            final(self).steps() == old(self).steps(),
            final(self).position() == old(self).position(),
            old(self).wf() ==> final(self).wf(),
    {
        self.watches.push(expr);
    }

    /// The step counter and the sizes of the history, breakpoints and
    /// plain watches.
    pub fn stats(&self) -> (r: DebuggerStats)
        ensures
            r.total_steps == self.counter(),
            r.history_size == self.steps().len(),
            is_line_count(r.breakpoint_count, self.line_breakpoints()),
            r.watch_count == self.watch_list().len(),
    {
        DebuggerStats {
            total_steps: self.step_counter,
            history_size: self.history.len(),
            breakpoint_count: lines_len(&self.breakpoints),
            watch_count: self.watches.len(),
        }
    }

    /// The number of recorded steps.
    pub fn history_len(&self) -> (r: usize)
        ensures
            r == self.steps().len(),
    {
        self.history.len()
    }

    /// The id the next breakpoint gets.
    pub fn next_breakpoint_id(&self) -> (r: u32)
        ensures
            r == self.breakpoint_counter(),
    {
        self.next_bp_id
    }

    /// Pause.
    pub fn pause(&mut self)
        ensures
            final(self).is_paused_spec(),
            final(self).steps() == old(self).steps(),
            final(self).position() == old(self).position(),
            old(self).wf() ==> final(self).wf(),
    {
        self.paused = true;
    }

    /// Whether paused.
    pub fn is_paused(&self) -> (r: bool)
        ensures
            r == self.is_paused_spec(),
    {
        self.paused
    }

    /// Move one step forward in a replay; as `step_forward`.
    pub fn replay_step_forward(&mut self) -> (r: Option<&ExecutionRecord>)
        requires
            old(self).wf(),
            old(self).steps().len() > 0,
        ensures
            final(self).wf(),
            final(self).steps() == old(self).steps(),
            old(self).position() + 1 < old(self).steps().len() ==> final(self).position() == old(self).position() + 1
                && r == Some(&final(self).steps()[final(self).position() as int]),
            old(self).position() + 1 >= old(self).steps().len() ==> final(self).position() == old(self).position()
                && r is None,
    {
        self.step_forward()
    }

    /// Move one step back in a replay; as `step_back`.
    pub fn replay_step_back(&mut self) -> (r: Option<&ExecutionRecord>)
        requires
            old(self).wf(),
        ensures
            final(self).wf(),
            final(self).steps() == old(self).steps(),
            old(self).position() > 0 ==> final(self).position() == old(self).position() - 1 && r == Some(
                &final(self).steps()[final(self).position() as int],
            ),
            old(self).position() == 0 ==> final(self).position() == 0 && r is None,
    {
        self.step_back()
    }

    /// Go back to the first step.
    pub fn replay_reset(&mut self)
        requires
            old(self).wf(),
        ensures
            final(self).wf(),
            final(self).steps() == old(self).steps(),
            final(self).position() == 0,
    {
        self.current_position = 0;
    }

    /// Go to the last step, if any.
    pub fn replay_end(&mut self)
        requires
            old(self).wf(),
        ensures
            final(self).wf(),
            final(self).steps() == old(self).steps(),
            old(self).steps().len() > 0 ==> final(self).position() == old(self).steps().len() - 1,
            old(self).steps().len() == 0 ==> final(self).position() == old(self).position(),
    {
        if self.history.len() > 0 {
            self.current_position = self.history.len() - 1;
        }
    }

    /// The file's name, the step counter, and the sizes of the history,
    /// source and breakpoints, with the position.
    pub fn recording_info(&self) -> (r: RecordingInfo)
        ensures
            r.filename@ == self.file(),
            r.total_steps == self.counter(),
            r.history_size == self.steps().len(),
            r.source_lines == self.source().len(),
            is_line_count(r.breakpoint_count, self.line_breakpoints()),
            r.current_position == self.position(),
    {
        RecordingInfo {
            filename: self.current_file.clone(),
            total_steps: self.step_counter,
            history_size: self.history.len(),
            source_lines: self.source_lines.len(),
            breakpoint_count: lines_len(&self.breakpoints),
            current_position: self.current_position,
        }
    }

    /// Add a conditional breakpoint and give it the next id (ids start at 1).
    pub fn add_conditional_breakpoint(&mut self, bp: ConditionalBreakpoint) -> (id: usize)
        requires
            old(self).conditional_counter() < usize::MAX,
        ensures
            id == old(self).conditional_counter(),
            final(self).conditional_counter() == old(self).conditional_counter() + 1,
            final(self).conditionals() == old(self).conditionals().push(bp),
            final(self).steps() == old(self).steps(),
            final(self).position() == old(self).position(),
            old(self).wf() ==> final(self).wf(),
    {
        let id = self.next_cond_bp_id;
        self.next_cond_bp_id = self.next_cond_bp_id + 1;
        self.conditional_breakpoints.push(bp);
        id
    }

    /// Replace the conditional breakpoint with the given id (its place,
    /// counting from 1); nothing happens for an id out of range.
    pub fn update_breakpoint(&mut self, id: usize, bp: ConditionalBreakpoint)
        ensures
            1 <= id <= old(self).conditionals().len() ==> final(self).conditionals() == old(self).conditionals().update(
                id - 1,
                bp,
            ),
            !(1 <= id <= old(self).conditionals().len()) ==> final(self).conditionals() == old(self).conditionals(),
            final(self).steps() == old(self).steps(),
            final(self).position() == old(self).position(),
            old(self).wf() ==> final(self).wf(),
    {
        if id >= 1 && id <= self.conditional_breakpoints.len() {
            self.conditional_breakpoints.set(id - 1, bp);
        }
    }

    /// The conditional breakpoints, in the order they were added.
    pub fn conditional_breakpoints(&self) -> (r: &[ConditionalBreakpoint])
        ensures
            r@ == self.conditionals(),
    {
        self.conditional_breakpoints.as_slice()
    }

    /// Watch an expression (a variable's name) and give it the next watch id.
    pub fn add_watch_expression(&mut self, expr: &str) -> (id: usize)
        requires
            old(self).watch_counter() < usize::MAX,
        ensures
            id == old(self).watch_counter(),
            final(self).watch_counter() == old(self).watch_counter() + 1,
            final(self).watch_expressions_spec().len() == old(self).watch_expressions_spec().len() + 1,
            final(self).watch_expressions_spec().drop_last() == old(self).watch_expressions_spec(),
            final(self).watch_expressions_spec().last().id == id,
            final(self).watch_expressions_spec().last().expression@ == expr@,
            final(self).watch_expressions_spec().last().current_value is None,
            final(self).watch_expressions_spec().last().history@.len() == 0,
            final(self).steps() == old(self).steps(),
            final(self).position() == old(self).position(),
            old(self).wf() ==> final(self).wf(),
    {
        let id = self.next_watch_id;
        self.next_watch_id = self.next_watch_id + 1;
        self.watch_expressions.push(
            WatchExpression { id, expression: string_of(expr), current_value: None, history: Vec::new() },
        );
        assert(self.watch_expressions@.drop_last() =~= old(self).watch_expressions@);
        id
    }

    /// Stop watching the expressions with the id; whether there was one.
    pub fn remove_watch_expression(&mut self, id: usize) -> (r: bool)
        ensures
            final(self).watch_expressions_spec() == old(self).watch_expressions_spec().filter(
                |w: WatchExpression| w.id != id,
            ),
            r == (final(self).watch_expressions_spec().len() < old(self).watch_expressions_spec().len()),
            final(self).steps() == old(self).steps(),
            final(self).position() == old(self).position(),
            old(self).wf() ==> final(self).wf(),
    {
        let mut rest: Vec<WatchExpression> = Vec::new();
        std::mem::swap(&mut rest, &mut self.watch_expressions);
        let n = rest.len();
        let mut kept: Vec<WatchExpression> = Vec::new();
        let ghost all = rest@;
        let mut i: usize = 0;
        proof {
            reveal_with_fuel(Seq::filter, 1);
            assert(all.take(0) =~= Seq::<WatchExpression>::empty());
        }
        while rest.len() > 0
            invariant
                n == all.len(),
                i + rest@.len() == n,
                rest@ == all.skip(i as int),
                kept@ == all.take(i as int).filter(|w: WatchExpression| w.id != id),
                kept@.len() <= i,
            decreases rest@.len(),
        {
            let w = rest.remove(0);
            proof {
                reveal_with_fuel(Seq::filter, 1);
                assert(all.take(i as int + 1).drop_last() =~= all.take(i as int));
                assert(all.take(i as int + 1).last() == w);
                assert(rest@ =~= all.skip(i as int + 1));
            }
            if w.id != id {
                kept.push(w);
            }
            i = i + 1;
        }
        assert(all.take(i as int) =~= all);
        let r = kept.len() < n;
        self.watch_expressions = kept;
        r
    }

    /// Record each watch's value at the step: the variable's value, or
    /// `undefined` when there is none; changed when it differs from the
    /// watch's current value.
    pub fn update_watches(&mut self, step: usize, variables: &HashMap<String, String>)
        ensures
            final(self).watch_expressions_spec().len() == old(self).watch_expressions_spec().len(),
            forall|i: int|
                0 <= i < old(self).watch_expressions_spec().len() ==> {
                    let w = old(self).watch_expressions_spec()[i];
                    let w2 = #[trigger] final(self).watch_expressions_spec()[i];
                    let value = watched_value(variable_entries(*variables), w.expression@);
                    &&& w2.id == w.id
                    &&& w2.expression == w.expression
                    &&& w2.current_value matches Some(v) && v@ == value
                    &&& w2.history@.len() == w.history@.len() + 1
                    &&& w2.history@.drop_last() == w.history@
                    &&& w2.history@.last().step == step
                    &&& w2.history@.last().value@ == value
                    &&& w2.history@.last().changed == !(w.current_value matches Some(c) && c@ == value)
                },
            final(self).steps() == old(self).steps(),
            final(self).position() == old(self).position(),
            old(self).wf() ==> final(self).wf(),
    {
        let n = self.watch_expressions.len();
        let mut i: usize = 0;
        while i < n
            invariant
                n == self.watch_expressions@.len(),
                n == old(self).watch_expressions@.len(),
                i <= n,
                self.history@ == old(self).history@,
                self.current_position == old(self).current_position,
                self.breakpoints@ == old(self).breakpoints@,
                forall|j: int| i <= j < n ==> self.watch_expressions@[j] == old(self).watch_expressions@[j],
                forall|j: int|
                    0 <= j < i ==> {
                        let w = old(self).watch_expressions@[j];
                        let w2 = #[trigger] self.watch_expressions@[j];
                        let value = watched_value(variable_entries(*variables), w.expression@);
                        &&& w2.id == w.id
                        &&& w2.expression == w.expression
                        &&& w2.current_value matches Some(v) && v@ == value
                        &&& w2.history@.len() == w.history@.len() + 1
                        &&& w2.history@.drop_last() == w.history@
                        &&& w2.history@.last().step == step
                        &&& w2.history@.last().value@ == value
                        &&& w2.history@.last().changed == !(w.current_value matches Some(c) && c@ == value)
                    },
            decreases n - i,
        {
            let mut w = self.watch_expressions.remove(i);
            let ghost w0 = w;
            let value_str = match variables_get(variables, w.expression.as_str()) {
                Some(v) => v.clone(),
                None => string_of("undefined"),
            };
            let changed = match &w.current_value {
                Some(c) => !crate::text::str_eq(c.as_str(), value_str.as_str()),
                None => true,
            };
            w.history.push(WatchHistoryEntry { step, value: value_str.clone(), changed });
            w.current_value = Some(value_str);
            proof {
                assert(w.history@.drop_last() =~= w0.history@);
            }
            self.watch_expressions.insert(i, w);
            i = i + 1;
        }
    }

    /// The history of the watch with the id, if there is one.
    pub fn get_watch_history(&self, id: usize) -> (r: Option<&[WatchHistoryEntry]>)
        ensures
            match r {
                Some(h) => exists|i: int|
                    0 <= i < self.watch_expressions_spec().len() && (#[trigger] self.watch_expressions_spec()[i]).id == id
                        && h@ == self.watch_expressions_spec()[i].history@ && forall|j: int|
                        0 <= j < i ==> self.watch_expressions_spec()[j].id != id,
                None => forall|i: int|
                    0 <= i < self.watch_expressions_spec().len() ==> (#[trigger] self.watch_expressions_spec()[i]).id != id,
            },
    {
        let mut i: usize = 0;
        while i < self.watch_expressions.len()
            invariant
                i <= self.watch_expressions@.len(),
                forall|j: int| 0 <= j < i ==> (#[trigger] self.watch_expressions@[j]).id != id,
            decreases self.watch_expressions@.len() - i,
        {
            if self.watch_expressions[i].id == id {
                return Some(self.watch_expressions[i].history.as_slice());
            }
            i = i + 1;
        }
        None
    }

    /// The watch expressions with their histories.
    pub fn watches(&self) -> (r: &[WatchExpression])
        ensures
            r@ == self.watch_expressions_spec(),
    {
        self.watch_expressions.as_slice()
    }

    /// Record a delta step.
    pub fn record_delta(&mut self, record: DeltaRecord)
        ensures
            final(self).deltas() == old(self).deltas().push(record),
            final(self).steps() == old(self).steps(),
            final(self).position() == old(self).position(),
            old(self).wf() ==> final(self).wf(),
    {
        self.delta_history.push(record);
    }

    /// The delta steps, in the order they were recorded.
    pub fn delta_history(&self) -> (r: &[DeltaRecord])
        ensures
            r@ == self.deltas(),
    {
        self.delta_history.as_slice()
    }

    /// What describes the session as a recording: the format version, the
    /// file (none when its name is empty), the number of steps, the first
    /// and last step numbers (0 without steps), the number of breakpoints
    /// of both kinds and of watches, and a checksum: `DefaultHasher` over
    /// each step's number (eight bytes) and line (four bytes), little-endian.
    pub fn recording_metadata(&self) -> (r: RecordingMetadata)
        requires
            self.line_breakpoints().dom().len() + self.conditionals().len() <= usize::MAX,
        ensures
            r.format_version == recording::RECORDING_VERSION,
            self.file().len() == 0 ==> r.source_file is None,
            self.file().len() > 0 ==> (r.source_file matches Some(f) && f@ == self.file()),
            r.total_steps == self.steps().len(),
            r.start_time == if self.steps().len() > 0 {
                self.steps()[0].step
            } else {
                0
            },
            r.end_time == if self.steps().len() > 0 {
                self.steps().last().step
            } else {
                0
            },
            r.breakpoint_count == self.line_breakpoints().dom().len() + self.conditionals().len(),
            r.watch_count == self.watch_expressions_spec().len(),
            r.checksum == DefaultHasher::spec_finish(checksum_input(self.steps())),
    {
        let n = self.history.len();
        let start_time = if n > 0 {
            self.history[0].step
        } else {
            0
        };
        let end_time = if n > 0 {
            self.history[n - 1].step
        } else {
            0
        };
        let mut hasher = DefaultHasher::new();
        let mut i: usize = 0;
        while i < n
            invariant
                n == self.history@.len(),
                i <= n,
                hasher@ == checksum_input(self.history@.take(i as int)),
            decreases n - i,
        {
            let mut step_bytes: Vec<u8> = Vec::new();
            push_u64(&mut step_bytes, self.history[i].step);
            hasher.write(step_bytes.as_slice());
            let mut line_bytes: Vec<u8> = Vec::new();
            push_u32(&mut line_bytes, self.history[i].line);
            hasher.write(line_bytes.as_slice());
            proof {
                assert(self.history@.take(i as int + 1).drop_last() =~= self.history@.take(i as int));
                assert(step_bytes@ =~= u64_bytes(self.history@[i as int].step));
                assert(line_bytes@ =~= u32_bytes(self.history@[i as int].line));
            }
            i = i + 1;
        }
        assert(self.history@.take(i as int) =~= self.history@);
        let checksum = hasher.finish();
        let source_file = if self.current_file.as_str().unicode_len() == 0 {
            None
        } else {
            Some(self.current_file.clone())
        };
        let bp_count = lines_len(&self.breakpoints);
        RecordingMetadata {
            format_version: recording::RECORDING_VERSION,
            source_file,
            total_steps: n,
            start_time,
            end_time,
            breakpoint_count: bp_count + self.conditional_breakpoints.len(),
            watch_count: self.watch_expressions.len(),
            checksum,
        }
    }

    /// Rebuild the state at a step from the delta records: apply, in order,
    /// every record up to the first one past the step (its changed locals
    /// and globals, then its change of the stack).  Nothing without records,
    /// or when no record has the step, the step is not 0 and it lies past
    /// the last record.
    pub fn reconstruct_state_at(&self, step: usize) -> (r: Option<ReconstructedState>)
        ensures
            match r {
                None => self.deltas().len() == 0 || (!self.deltas().map_values(|d: DeltaRecord| d.step).contains(step)
                    && step > 0 && step > self.deltas().last().step),
                Some(st) => {
                    let applied = self.deltas().take(first_past(self.deltas(), step));
                    &&& self.deltas().len() > 0
                    &&& !(!self.deltas().map_values(|d: DeltaRecord| d.step).contains(step) && step > 0 && step
                        > self.deltas().last().step)
                    &&& st.step == step
                    &&& variable_entries(st.locals) == locals_after(applied)
                    &&& variable_entries(st.globals) == globals_after(applied)
                    &&& views_of(st.stack@) == stack_after(applied)
                },
            },
    {
        let n = self.delta_history.len();
        if n == 0 {
            return None;
        }
        let mut locals = variables_new();
        let mut globals = variables_new();
        let mut stack: Vec<String> = Vec::new();
        let mut i: usize = 0;
        let ghost ds = self.delta_history@;
        proof {
            assert(ds.take(0) =~= Seq::<DeltaRecord>::empty());
            assert(views_of(stack@) =~= Seq::<Seq<char>>::empty());
        }
        while i < n && self.delta_history[i].step <= step
            invariant
                n == ds.len(),
                ds == self.delta_history@,
                i <= n,
                forall|j: int| 0 <= j < i ==> (#[trigger] ds[j]).step <= step,
                variable_entries(locals) == locals_after(ds.take(i as int)),
                variable_entries(globals) == globals_after(ds.take(i as int)),
                views_of(stack@) == stack_after(ds.take(i as int)),
            decreases n - i,
        {
            let delta = &self.delta_history[i];
            let ghost before = ds.take(i as int);
            let ghost base_l = variable_entries(locals);
            let ghost base_g = variable_entries(globals);
            let mut j: usize = 0;
            while j < delta.changed_locals.len()
                invariant
                    j <= delta.changed_locals@.len(),
                    variable_entries(locals) == insert_pairs(base_l, delta.changed_locals@.take(j as int)),
                decreases delta.changed_locals@.len() - j,
            {
                let (k, v) = &delta.changed_locals[j];
                variables_insert(&mut locals, k.clone(), v.clone());
                assert(delta.changed_locals@.take(j as int + 1).drop_last() =~= delta.changed_locals@.take(j as int));
                j = j + 1;
            }
            assert(delta.changed_locals@.take(j as int) =~= delta.changed_locals@);
            let mut g: usize = 0;
            while g < delta.changed_globals.len()
                invariant
                    g <= delta.changed_globals@.len(),
                    variable_entries(globals) == insert_pairs(base_g, delta.changed_globals@.take(g as int)),
                decreases delta.changed_globals@.len() - g,
            {
                let (k, v) = &delta.changed_globals[g];
                variables_insert(&mut globals, k.clone(), v.clone());
                assert(delta.changed_globals@.take(g as int + 1).drop_last() =~= delta.changed_globals@.take(g as int));
                g = g + 1;
            }
            assert(delta.changed_globals@.take(g as int) =~= delta.changed_globals@);
            let ghost stack_before = views_of(stack@);
            match &delta.stack_delta {
                StackDelta::Push(values) => {
                    let mut t: usize = 0;
                    while t < values.len()
                        invariant
                            t <= values@.len(),
                            views_of(stack@) == stack_before + views_of(values@.take(t as int)),
                        decreases values@.len() - t,
                    {
                        let ghost sb = stack@;
                        stack.push(values[t].clone());
                        assert(views_of(stack@) =~= views_of(sb).push(values@[t as int]@));
                        assert(views_of(values@.take(t as int + 1)) =~= views_of(values@.take(t as int)).push(values@[t as int]@));
                        assert(views_of(stack@) =~= stack_before + views_of(values@.take(t as int + 1)));
                        t = t + 1;
                    }
                    assert(values@.take(t as int) =~= values@);
                },
                StackDelta::Pop(k) => {
                    let new_len = if stack.len() >= *k {
                        stack.len() - *k
                    } else {
                        0
                    };
                    stack.truncate(new_len);
                    assert(views_of(stack@) =~= stack_before.take(new_len as int));
                },
                StackDelta::Replace(values) => {
                    let mut fresh: Vec<String> = Vec::new();
                    let mut t: usize = 0;
                    while t < values.len()
                        invariant
                            t <= values@.len(),
                            views_of(fresh@) == views_of(values@.take(t as int)),
                        decreases values@.len() - t,
                    {
                        let ghost fb = fresh@;
                        fresh.push(values[t].clone());
                        assert(views_of(fresh@) =~= views_of(fb).push(values@[t as int]@));
                        assert(views_of(values@.take(t as int + 1)) =~= views_of(values@.take(t as int)).push(values@[t as int]@));
                        assert(views_of(fresh@) =~= views_of(values@.take(t as int + 1)));
                        t = t + 1;
                    }
                    assert(values@.take(t as int) =~= values@);
                    stack = fresh;
                },
                StackDelta::NoChange => {},
            }
            proof {
                assert(ds.take(i as int + 1).drop_last() =~= before);
                assert(ds.take(i as int + 1).last() == ds[i as int]);
            }
            i = i + 1;
        }
        proof {
            lemma_first_past(ds, step, i as int);
        }
        let mut found = false;
        let mut t: usize = 0;
        while t < n
            invariant
                n == ds.len(),
                ds == self.delta_history@,
                t <= n,
                found == exists|j: int| 0 <= j < t && (#[trigger] ds[j]).step == step,
            decreases n - t,
        {
            if self.delta_history[t].step == step {
                found = true;
            }
            t = t + 1;
        }
        proof {
            let steps = ds.map_values(|d: DeltaRecord| d.step);
            if found {
                let j = choose|j: int| 0 <= j < n && (#[trigger] ds[j]).step == step;
                assert(steps[j] == step);
            } else {
                assert forall|j: int| 0 <= j < steps.len() implies steps[j] != step by {
                    assert(steps[j] == ds[j].step);
                }
            }
        }
        if !found && step > 0 {
            if step > self.delta_history[n - 1].step {
                return None;
            }
        }
        Some(ReconstructedState { step, locals, globals, stack })
    }

    /// The source panel: the lines around the current step's line (from
    /// `context + 1` lines before it to `context` lines after, within the
    /// source), each as `▶` for the current line or a space, the line
    /// number right-aligned in four columns, `│` and the text.
    pub fn render_source_panel(&self, context_lines: usize) -> (r: TuiPanel)
        requires
            context_lines < usize::MAX,
            self.position() < self.steps().len() ==> self.steps()[self.position() as int].line + context_lines
                <= usize::MAX,
        ensures
            r.title@ == "Source"@,
            r.focused,
            views_of(r.lines@) == source_panel_lines(self.source(), self.steps(), self.position(), context_lines as nat),
    {
        let mut lines: Vec<String> = Vec::new();
        if self.current_position < self.history.len() {
            let current_line = self.history[self.current_position].line as usize;
            if self.source_lines.len() > 0 {
                let start = if current_line >= context_lines + 1 {
                    current_line - (context_lines + 1)
                } else {
                    0
                };
                let end = if current_line + context_lines < self.source_lines.len() {
                    current_line + context_lines
                } else {
                    self.source_lines.len()
                };
                let mut i: usize = start;
                proof {
                    assert(views_of(lines@) =~= Seq::<Seq<char>>::empty());
                }
                while i < end
                    invariant
                        start <= i,
                        end <= self.source_lines@.len(),
                        i <= end || start >= end,
                        start >= end ==> i == start,
                        views_of(lines@) == Seq::new(
                            (i - start) as nat,
                            |j: int| panel_line((start + j) as nat, current_line as nat, views_of(self.source_lines@)[start + j]),
                        ),
                    decreases end - i,
                {
                    let mut l = if i + 1 == current_line {
                        string_of("▶ ")
                    } else {
                        string_of("  ")
                    };
                    let num = decimal_string((i + 1) as u64);
                    push_padded(&mut l, num.as_str(), 4);
                    push_str(&mut l, " │ ");
                    push_str(&mut l, self.source_lines[i].as_str());
                    proof {
                        reveal_strlit("▶ ");
                        reveal_strlit("  ");
                        reveal_strlit("▶");
                        reveal_strlit(" ");
                        assert(l@ =~= panel_line(i as nat, current_line as nat, views_of(self.source_lines@)[i as int]));
                    }
                    let ghost before = lines@;
                    let ghost lv = l@;
                    lines.push(l);
                    assert(views_of(lines@) =~= views_of(before).push(lv));
                    assert(views_of(lines@) =~= Seq::new(
                        (i + 1 - start) as nat,
                        |j: int| panel_line((start + j) as nat, current_line as nat, views_of(self.source_lines@)[start + j]),
                    ));
                    i = i + 1;
                }
                assert(i == if end > start { end } else { start });
                assert(views_of(lines@) =~= source_panel_lines(
                    views_of(self.source_lines@),
                    self.history@,
                    self.current_position,
                    context_lines as nat,
                ));
            } else {
                lines.push(string_of("  (no source loaded)"));
                assert(views_of(lines@) =~= seq!["  (no source loaded)"@]);
            }
        } else {
            lines.push(string_of("  (not started)"));
            assert(views_of(lines@) =~= seq!["  (not started)"@]);
        }
        TuiPanel { title: string_of("Source"), lines, focused: true }
    }

    /// The recorded steps, oldest first.
    pub fn history(&self) -> (r: &[ExecutionRecord])
        ensures
            r@ == self.steps(),
    {
        self.history.as_slice()
    }

    /// The debugged source, line by line.
    pub fn source_lines(&self) -> (r: &[String])
        ensures
            views_of(r@) == self.source(),
    {
        self.source_lines.as_slice()
    }

    /// The name of the debugged file.
    pub fn current_file(&self) -> (r: &str)
        ensures
            r@ == self.file(),
    {
        self.current_file.as_str()
    }

    /// The breakpoints, each once, in an order the table's hasher decides.
    pub fn breakpoint_list(&self) -> (r: Vec<Breakpoint>)
        requires
            self.wf(),
        ensures
            forall|i: int|
                0 <= i < r@.len() ==> self.line_breakpoints().contains_key((#[trigger] r@[i]).line)
                    && self.line_breakpoints()[r@[i].line] == r@[i],
            forall|l: u32| #[trigger] self.line_breakpoints().contains_key(l) ==> exists|i: int|
                0 <= i < r@.len() && (#[trigger] r@[i]).line == l,
            forall|i: int, j: int| 0 <= i < j < r@.len() ==> (#[trigger] r@[i]).line != (#[trigger] r@[j]).line,
    {
        let keys = lines_keys(&self.breakpoints);
        let mut out: Vec<Breakpoint> = Vec::new();
        let mut i: usize = 0;
        while i < keys.len()
            invariant
                self.wf(),
                i <= keys@.len(),
                out@.len() == i,
                keys@.no_duplicates(),
                forall|l: u32| self.breakpoints@.contains_key(l) ==> keys@.contains(l),
                forall|j: int| 0 <= j < keys@.len() ==> self.breakpoints@.contains_key(#[trigger] keys@[j]),
                forall|j: int| 0 <= j < i ==> (#[trigger] out@[j]) == self.breakpoints@[keys@[j]] && out@[j].line == keys@[j],
            decreases keys@.len() - i,
        {
            let k = keys[i];
            match lines_get(&self.breakpoints, k) {
                Some(bp) => {
                    out.push(bp.clone());
                },
                None => {
                    assert(self.breakpoints@.contains_key(keys@[i as int]));
                },
            }
            i = i + 1;
        }
        proof {
            assert forall|l: u32| #[trigger] self.breakpoints@.contains_key(l) implies exists|i: int|
                0 <= i < out@.len() && (#[trigger] out@[i]).line == l by {
                assert(keys@.contains(l));
                let j = choose|j: int| 0 <= j < keys@.len() && keys@[j] == l;
                assert(out@[j].line == l);
            }
        }
        out
    }

    /// The recording as indented JSON text: its format version, source
    /// file, number of steps, checksum and steps, each step with its number,
    /// position, line, stack size, description and locals by their shown
    /// texts (`shown`, as for [`TimeTravelDebugger::to_recording`]); `{}`
    /// where the text cannot be made.
    pub fn export_recording_json(&self, shown: &Vec<Vec<String>>) -> (r: String)
        requires
            self.line_breakpoints().dom().len() + self.conditionals().len() <= usize::MAX,
            shown@.len() == self.steps().len(),
            forall|i: int| 0 <= i < shown@.len() ==> (#[trigger] shown@[i])@.len() == self.steps()[i].locals@.len(),
        ensures
            r@ == match pretty_json_outcome(export_model(self.steps(), self.file(), shown@)) {
                Ok(t) => t,
                Err(_) => "{}"@,
            },
    {
        let meta = self.recording_metadata();
        let mut steps: Vec<JsonValue> = Vec::new();
        let mut i: usize = 0;
        while i < self.history.len()
            invariant
                i <= self.history@.len(),
                shown@.len() == self.history@.len(),
                forall|k: int| 0 <= k < shown@.len() ==> (#[trigger] shown@[k])@.len() == self.history@[k].locals@.len(),
                steps@.len() == i,
                forall|k: int| 0 <= k < i ==> (#[trigger] steps@[k])@ == step_json(self.history@[k], shown@[k]@),
            decreases self.history@.len() - i,
        {
            let e = &self.history[i];
            let texts = &shown[i];
            let mut locals: Vec<(String, JsonValue)> = Vec::new();
            let mut j: usize = 0;
            while j < e.locals.len()
                invariant
                    j <= e.locals@.len(),
                    texts@.len() == e.locals@.len(),
                    locals@.len() == j,
                    forall|q: int| 0 <= q < j ==> (#[trigger] locals@[q]).0@ == e.locals@[q].0@ && locals@[q].1@
                        == JsonModel::Str(texts@[q]@),
                decreases e.locals@.len() - j,
            {
                locals.push((e.locals[j].0.clone(), JsonValue::String(texts[j].clone())));
                j = j + 1;
            }
            proof {
                lemma_json_member_models_index(locals@);
                assert(crate::json::json_member_models_of(locals@) =~= local_members(e.locals@, texts@));
            }
            let members = vec![
                (string_of("step"), uint_json_value(e.step)),
                (string_of("ip"), uint_json_value(e.ip as u64)),
                (string_of("line"), uint_json_value(e.line as u64)),
                (string_of("stack_size"), uint_json_value(e.stack_size as u64)),
                (string_of("description"), JsonValue::String(e.description.clone())),
                (string_of("locals"), JsonValue::Object(locals)),
            ];
            proof {
                lemma_json_member_models_index(members@);
                assert(crate::json::json_member_models_of(members@) =~= step_members(*e, texts@));
            }
            steps.push(JsonValue::Object(members));
            i = i + 1;
        }
        proof {
            lemma_json_models_index(steps@);
            assert(crate::json::json_models_of(steps@) =~= step_jsons(self.steps(), shown@));
        }
        let file = match meta.source_file {
            Some(f) => JsonValue::String(f),
            None => JsonValue::Null,
        };
        let doc_members = vec![
            (string_of("format_version"), uint_json_value(meta.format_version as u64)),
            (string_of("source_file"), file),
            (string_of("total_steps"), uint_json_value(meta.total_steps as u64)),
            (string_of("checksum"), uint_json_value(meta.checksum)),
            (string_of("steps"), JsonValue::Array(steps)),
        ];
        proof {
            lemma_json_member_models_index(doc_members@);
            assert(crate::json::json_member_models_of(doc_members@) =~= export_members(self.steps(), self.file(), shown@));
        }
        let doc = JsonValue::Object(doc_members);
        match pretty_json(&doc) {
            Ok(t) => t,
            Err(_) => string_of("{}"),
        }
    }

    /// The session as a recording, to be saved: the file, the source lines,
    /// each step (its position truncated to 32 bits, 255 for no opcode, its
    /// stack size truncated to 32 bits, its locals by the texts `shown`
    /// gives them, step by step), and every breakpoint once.
    pub fn to_recording(&self, shown: &Vec<Vec<String>>) -> (r: Recording)
        requires
            self.wf(),
            shown@.len() == self.steps().len(),
            forall|i: int| 0 <= i < shown@.len() ==> (#[trigger] shown@[i])@.len() == self.steps()[i].locals@.len(),
        ensures
            r.current_file@ == self.file(),
            views_of(r.source_lines@) == self.source(),
            r.steps@.len() == self.steps().len(),
            forall|i: int| 0 <= i < r.steps@.len() ==> saved_step(#[trigger] r.steps@[i], self.steps()[i], shown@[i]@),
            forall|i: int| 0 <= i < r.breakpoints@.len() ==> self.line_breakpoints().contains_key((#[trigger] r.breakpoints@[i]).line)
                && saved_breakpoint(r.breakpoints@[i], self.line_breakpoints()[r.breakpoints@[i].line]),
            forall|i: int, j: int| 0 <= i < j < r.breakpoints@.len() ==> (#[trigger] r.breakpoints@[i]).line != (#[trigger] r.breakpoints@[j]).line,
            forall|l: u32| #[trigger] self.line_breakpoints().contains_key(l) ==> exists|i: int|
                0 <= i < r.breakpoints@.len() && (#[trigger] r.breakpoints@[i]).line == l,
    {
        let mut source: Vec<String> = Vec::new();
        let mut k: usize = 0;
        while k < self.source_lines.len()
            invariant
                k <= self.source_lines@.len(),
                source@.len() == k,
                forall|q: int| 0 <= q < k ==> (#[trigger] source@[q])@ == self.source_lines@[q]@,
            decreases self.source_lines@.len() - k,
        {
            source.push(self.source_lines[k].clone());
            k = k + 1;
        }
        assert(views_of(source@) =~= views_of(self.source_lines@));
        let n = self.history.len();
        let mut steps: Vec<RecordedStep> = Vec::new();
        let mut i: usize = 0;
        while i < n
            invariant
                n == self.history@.len(),
                self.history@ == self.steps(),
                i <= n,
                shown@.len() == n,
                forall|q: int| 0 <= q < shown@.len() ==> (#[trigger] shown@[q])@.len() == self.steps()[q].locals@.len(),
                steps@.len() == i,
                forall|q: int| 0 <= q < i ==> saved_step(#[trigger] steps@[q], self.steps()[q], shown@[q]@),
            decreases n - i,
        {
            let rec = &self.history[i];
            let texts = &shown[i];
            let mut locals: Vec<(String, String)> = Vec::new();
            let mut j: usize = 0;
            while j < rec.locals.len()
                invariant
                    j <= rec.locals@.len(),
                    texts@.len() == rec.locals@.len(),
                    locals@.len() == j,
                    forall|q: int| 0 <= q < j ==> (#[trigger] locals@[q]).0@ == rec.locals@[q].0@ && locals@[q].1@ == texts@[q]@,
                decreases rec.locals@.len() - j,
            {
                locals.push((rec.locals[j].0.clone(), texts[j].clone()));
                j = j + 1;
            }
            let opcode: u8 = match rec.opcode {
                Some(o) => o,
                None => 255,
            };
            steps.push(RecordedStep {
                step: rec.step,
                ip: rec.ip as u32,
                line: rec.line,
                opcode,
                stack_size: rec.stack_size as u32,
                description: rec.description.clone(),
                locals,
            });
            i = i + 1;
        }
        let bps = self.breakpoint_list();
        let m = bps.len();
        let mut saved: Vec<RecordedBreakpoint> = Vec::new();
        let mut b: usize = 0;
        while b < m
            invariant
                m == bps@.len(),
                b <= m,
                saved@.len() == b,
                forall|q: int| 0 <= q < b ==> (#[trigger] saved@[q]).line == bps@[q].line && saved_breakpoint(saved@[q], bps@[q]),
            decreases m - b,
        {
            let bp = &bps[b];
            let condition = match &bp.condition {
                Some(c) => Some(c.clone()),
                None => None,
            };
            saved.push(RecordedBreakpoint { line: bp.line, enabled: bp.enabled, hit_count: bp.hit_count, condition });
            b = b + 1;
        }
        proof {
            assert forall|q: int, w: int| 0 <= q < w < saved@.len() implies (#[trigger] saved@[q]).line != (#[trigger] saved@[w]).line by {
                assert(saved@[q].line == bps@[q].line && saved@[w].line == bps@[w].line);
            }
            assert forall|l: u32| #[trigger] self.line_breakpoints().contains_key(l) implies exists|q: int|
                0 <= q < saved@.len() && (#[trigger] saved@[q]).line == l by {
                let q = choose|q: int| 0 <= q < bps@.len() && (#[trigger] bps@[q]).line == l;
                assert(saved@[q].line == l);
            }
        }
        Recording { current_file: self.current_file.clone(), source_lines: source, steps, breakpoints: saved }
    }

    /// A debugger replaying a recording: its steps (an opcode byte of 255
    /// is none; the locals' values are their recorded texts), its source
    /// and file, and its breakpoints (a later one on a line replacing an
    /// earlier); not recording, paused, at the last step, with the step
    /// counter at the last step's number.
    pub fn from_recording(rec: &Recording) -> (r: Self)
        requires
            rec.breakpoints@.len() < usize::MAX,
        ensures
            r.wf(),
            r.steps().len() == rec.steps@.len(),
            forall|i: int| 0 <= i < rec.steps@.len() ==> loaded_step(#[trigger] r.steps()[i], rec.steps@[i]),
            r.position() == if rec.steps@.len() > 0 {
                rec.steps@.len() - 1
            } else {
                0
            },
            !r.is_recording(),
            r.is_paused_spec(),
            r.source() == views_of(rec.source_lines@),
            r.file() == rec.current_file@,
            r.counter() == if rec.steps@.len() > 0 {
                rec.steps@.last().step
            } else {
                0
            },
            r.line_breakpoints() == breakpoints_from(rec.breakpoints@),
            r.breakpoint_counter() == (breakpoints_from(rec.breakpoints@).dom().len() + 1) as u32,
            r.watch_list().len() == 0,
            r.conditionals().len() == 0,
            r.conditional_counter() == 1,
            r.watch_expressions_spec().len() == 0,
            r.watch_counter() == 1,
            r.deltas().len() == 0,
    {
        let mut history: Vec<ExecutionRecord> = Vec::new();
        let mut i: usize = 0;
        while i < rec.steps.len()
            invariant
                i <= rec.steps@.len(),
                history@.len() == i,
                forall|j: int| 0 <= j < i ==> loaded_step(#[trigger] history@[j], rec.steps@[j]),
            decreases rec.steps@.len() - i,
        {
            let s = &rec.steps[i];
            let mut locals: Vec<(String, JsValue)> = Vec::new();
            let mut k: usize = 0;
            while k < s.locals.len()
                invariant
                    k <= s.locals@.len(),
                    locals@.len() == k,
                    forall|j: int|
                        0 <= j < k ==> (#[trigger] locals@[j]).0@ == s.locals@[j].0@ && (locals@[j].1 matches JsValue::String(v)
                            && v@ == s.locals@[j].1@),
                decreases s.locals@.len() - k,
            {
                let (name, value) = &s.locals[k];
                locals.push((name.clone(), JsValue::String(value.clone())));
                k = k + 1;
            }
            let opcode = if s.opcode == 255u8 {
                None
            } else {
                Some(s.opcode)
            };
            history.push(
                ExecutionRecord {
                    step: s.step,
                    opcode,
                    ip: s.ip as usize,
                    line: s.line,
                    stack_top: Vec::new(),
                    stack_size: s.stack_size as usize,
                    locals,
                    globals_changed: Vec::new(),
                    description: s.description.clone(),
                },
            );
            i = i + 1;
        }
        let mut breakpoints: LineTable<Breakpoint> = lines_new();
        let mut b: usize = 0;
        while b < rec.breakpoints.len()
            invariant
                b <= rec.breakpoints@.len(),
                breakpoints@ == breakpoints_from(rec.breakpoints@.take(b as int)),
                breakpoints@.dom().finite(),
                breakpoints@.dom().len() <= b,
                forall|k: u32| #[trigger] breakpoints@.contains_key(k) ==> breakpoints@[k].line == k,
            decreases rec.breakpoints@.len() - b,
        {
            let bp = &rec.breakpoints[b];
            let condition = match &bp.condition {
                Some(c) => Some(c.clone()),
                None => None,
            };
            let ghost before = breakpoints@;
            lines_insert(
                &mut breakpoints,
                bp.line,
                Breakpoint { line: bp.line, condition, enabled: bp.enabled, hit_count: bp.hit_count },
            );
            proof {
                assert(rec.breakpoints@.take(b as int + 1).drop_last() =~= rec.breakpoints@.take(b as int));
                if before.contains_key(bp.line) {
                    assert(breakpoints@.dom() =~= before.dom());
                } else {
                    assert(breakpoints@.dom() =~= before.dom().insert(bp.line));
                }
            }
            b = b + 1;
        }
        assert(rec.breakpoints@.take(b as int) =~= rec.breakpoints@);
        let n = history.len();
        let step_counter = if n > 0 {
            history[n - 1].step
        } else {
            0
        };
        let current_position = if n > 0 {
            n - 1
        } else {
            0
        };
        let count = lines_len(&breakpoints);
        let mut lines: Vec<String> = Vec::new();
        let mut t: usize = 0;
        while t < rec.source_lines.len()
            invariant
                t <= rec.source_lines@.len(),
                lines@.len() == t,
                forall|j: int| 0 <= j < t ==> (#[trigger] lines@[j]) == rec.source_lines@[j],
            decreases rec.source_lines@.len() - t,
        {
            lines.push(rec.source_lines[t].clone());
            t = t + 1;
        }
        assert(views_of(lines@) =~= views_of(rec.source_lines@));
        TimeTravelDebugger {
            history,
            current_position,
            recording: false,
            breakpoints,
            next_bp_id: (count + 1) as u32,
            watches: Vec::new(),
            step_counter,
            paused: true,
            source_lines: lines,
            current_file: rec.current_file.clone(),
            conditional_breakpoints: Vec::new(),
            next_cond_bp_id: 1,
            watch_expressions: Vec::new(),
            next_watch_id: 1,
            delta_history: Vec::new(),
        }
    }
}

impl Default for TimeTravelDebugger {
    /// As `new`.
    fn default() -> (r: Self)
        ensures
            r.wf(),
            r.steps().len() == 0,
            r.position() == 0,
            r.is_recording(),
            r.line_breakpoints() == no_lines::<Breakpoint>(),
            r.breakpoint_counter() == 1,
            r.counter() == 0,
            r.conditional_counter() == 1,
            r.watch_counter() == 1,
            r.deltas().len() == 0,
    {
        TimeTravelDebugger::new()
    }
}

/// `s` is the step `rec` as a recording holds it, with its locals shown by
/// the texts `shown`.
pub open spec fn saved_step(s: RecordedStep, rec: ExecutionRecord, shown: Seq<String>) -> bool {
    &&& s.step == rec.step
    &&& s.ip == rec.ip as u32
    &&& s.line == rec.line
    &&& s.opcode == match rec.opcode {
        Some(o) => o,
        None => 255u8,
    }
    &&& s.stack_size == rec.stack_size as u32
    &&& s.description@ == rec.description@
    &&& s.locals@.len() == rec.locals@.len()
    &&& forall|q: int| 0 <= q < s.locals@.len() ==> (#[trigger] s.locals@[q]).0@ == rec.locals@[q].0@ && s.locals@[q].1@ == shown[q]@
}

/// `s` is the breakpoint `bp` as a recording holds it.
pub open spec fn saved_breakpoint(s: RecordedBreakpoint, bp: Breakpoint) -> bool {
    &&& s.line == bp.line
    &&& s.enabled == bp.enabled
    &&& s.hit_count == bp.hit_count
    &&& match (s.condition, bp.condition) {
        (Some(a), Some(b)) => a@ == b@,
        (None, None) => true,
        _ => false,
    }
}

/// The record loaded for a recorded step.
pub open spec fn loaded_step(e: ExecutionRecord, s: RecordedStep) -> bool {
    &&& e.step == s.step
    &&& e.opcode == if s.opcode == 255 {
        None
    } else {
        Some(s.opcode)
    }
    &&& e.ip == s.ip as usize
    &&& e.line == s.line
    &&& e.stack_top@.len() == 0
    &&& e.stack_size == s.stack_size as usize
    &&& e.locals@.len() == s.locals@.len()
    &&& forall|j: int|
        0 <= j < s.locals@.len() ==> (#[trigger] e.locals@[j]).0@ == s.locals@[j].0@ && (e.locals@[j].1 matches JsValue::String(v)
            && v@ == s.locals@[j].1@)
    &&& e.globals_changed@.len() == 0
    &&& e.description == s.description
}

/// The breakpoints of a recording, by line, a later one replacing an
/// earlier one on the same line.
pub open spec fn breakpoints_from(bps: Seq<RecordedBreakpoint>) -> Map<u32, Breakpoint>
    decreases bps.len(),
{
    if bps.len() == 0 {
        Map::empty()
    } else {
        let b = bps.last();
        breakpoints_from(bps.drop_last()).insert(
            b.line,
            Breakpoint { line: b.line, condition: b.condition, enabled: b.enabled, hit_count: b.hit_count },
        )
    }
}



/// The bytes the metadata's checksum hashes: for each step, its number in
/// eight bytes, then its line in four.
pub open spec fn checksum_input(h: Seq<ExecutionRecord>) -> Seq<Seq<u8>>
    decreases h.len(),
{
    if h.len() == 0 {
        Seq::empty()
    } else {
        checksum_input(h.drop_last()).push(u64_bytes(h.last().step)).push(u32_bytes(h.last().line))
    }
}

/// How many leading delta records do not lie past the step.
pub open spec fn first_past(ds: Seq<DeltaRecord>, step: usize) -> int
    decreases ds.len(),
{
    if ds.len() == 0 {
        0
    } else if ds[0].step > step {
        0
    } else {
        1 + first_past(ds.drop_first(), step)
    }
}

proof fn lemma_first_past(ds: Seq<DeltaRecord>, step: usize, k: int)
    requires
        0 <= k <= ds.len(),
        forall|j: int| 0 <= j < k ==> (#[trigger] ds[j]).step <= step,
        k < ds.len() ==> ds[k].step > step,
    ensures
        first_past(ds, step) == k,
    decreases k,
{
    if k > 0 {
        let r = ds.drop_first();
        assert forall|j: int| 0 <= j < k - 1 implies (#[trigger] r[j]).step <= step by {
            assert(r[j] == ds[j + 1]);
        }
        if k - 1 < r.len() {
            assert(r[k - 1] == ds[k]);
        }
        lemma_first_past(r, step, k - 1);
    }
}

/// The variables after inserting the pairs in order.
pub open spec fn insert_pairs(m: Map<Seq<char>, Seq<char>>, pairs: Seq<(String, String)>) -> Map<Seq<char>, Seq<char>>
    decreases pairs.len(),
{
    if pairs.len() == 0 {
        m
    } else {
        insert_pairs(m, pairs.drop_last()).insert(pairs.last().0@, pairs.last().1@)
    }
}

/// The locals after the delta records, applied in order.
pub open spec fn locals_after(ds: Seq<DeltaRecord>) -> Map<Seq<char>, Seq<char>>
    decreases ds.len(),
{
    if ds.len() == 0 {
        no_variables()
    } else {
        insert_pairs(locals_after(ds.drop_last()), ds.last().changed_locals@)
    }
}

/// The globals after the delta records, applied in order.
pub open spec fn globals_after(ds: Seq<DeltaRecord>) -> Map<Seq<char>, Seq<char>>
    decreases ds.len(),
{
    if ds.len() == 0 {
        no_variables()
    } else {
        insert_pairs(globals_after(ds.drop_last()), ds.last().changed_globals@)
    }
}

/// The stack after one change: values pushed on top, `n` popped (all of
/// them when fewer), replaced, or unchanged.
pub open spec fn stack_changed(st: Seq<Seq<char>>, d: StackDelta) -> Seq<Seq<char>> {
    match d {
        StackDelta::Push(v) => st + views_of(v@),
        StackDelta::Pop(n) => if st.len() >= n {
            st.take(st.len() - n)
        } else {
            st.take(0)
        },
        StackDelta::Replace(v) => views_of(v@),
        StackDelta::NoChange => st,
    }
}

/// The stack after the delta records, applied in order, from an empty one.
pub open spec fn stack_after(ds: Seq<DeltaRecord>) -> Seq<Seq<char>>
    decreases ds.len(),
{
    if ds.len() == 0 {
        Seq::empty()
    } else {
        stack_changed(stack_after(ds.drop_last()), ds.last().stack_delta)
    }
}

/// Each stack change, applied at the end of the delta records: a push puts
/// the values on top of the stack before it, in order; popping `n` leaves
/// the bottom `max(L - n, 0)` values of a stack of `L`; a replacement leaves
/// exactly the new values; no change leaves the stack as it was.
pub proof fn lemma_stack_after_last(ds: Seq<DeltaRecord>)
    requires
        ds.len() > 0,
    ensures
        ({
            let before = stack_after(ds.drop_last());
            let after = stack_after(ds);
            match ds.last().stack_delta {
                StackDelta::Push(v) => after.len() == before.len() + v@.len()
                    && (forall|i: int| 0 <= i < before.len() ==> after[i] == before[i])
                    && (forall|j: int| 0 <= j < v@.len() ==> after[before.len() + j] == v@[j]@),
                StackDelta::Pop(n) => after.len() == (if before.len() >= n { before.len() - n } else { 0 })
                    && (forall|i: int| 0 <= i < after.len() ==> after[i] == before[i]),
                StackDelta::Replace(v) => after.len() == v@.len() && (forall|j: int| 0 <= j < v@.len() ==> after[j] == v@[j]@),
                StackDelta::NoChange => after == before,
            }
        }),
{
    let before = stack_after(ds.drop_last());
    let after = stack_after(ds);
    assert(after == stack_changed(before, ds.last().stack_delta));
}

/// A line of the source panel.
pub open spec fn panel_line(i: nat, current: nat, text: Seq<char>) -> Seq<char> {
    (if i + 1 == current {
        "▶"@
    } else {
        " "@
    }) + " "@ + pad_left_spec(decimal(i + 1), 4) + " │ "@ + text
}

/// The lines of the source panel.
pub open spec fn source_panel_lines(
    source: Seq<Seq<char>>,
    steps: Seq<ExecutionRecord>,
    position: usize,
    context: nat,
) -> Seq<Seq<char>> {
    if position < steps.len() {
        let current = steps[position as int].line as nat;
        if source.len() > 0 {
            let start: nat = if current >= context + 1 {
                (current - (context + 1)) as nat
            } else {
                0
            };
            let end: nat = if current + context < source.len() {
                current + context
            } else {
                source.len()
            };
            Seq::new(if end > start { (end - start) as nat } else { 0 }, |j: int| panel_line((start + j) as nat, current, source[start + j]))
        } else {
            seq!["  (no source loaded)"@]
        }
    } else {
        seq!["  (not started)"@]
    }
}


/// The value a watch records: the variable's, or `undefined`.
pub open spec fn watched_value(vars: Map<Seq<char>, Seq<char>>, name: Seq<char>) -> Seq<char> {
    if vars.contains_key(name) {
        vars[name]
    } else {
        "undefined"@
    }
}

// ───────────────────────────── The console ─────────────────────────────

/// `i` is the first of `locals` named `name`, or no local has that name.
pub open spec fn first_local(locals: Seq<(String, JsValue)>, name: Seq<char>, k: Option<usize>) -> bool {
    match k {
        Some(i) => i < locals.len() && locals[i as int].0@ == name && forall|j: int|
            0 <= j < i ==> (#[trigger] locals[j]).0@ != name,
        None => forall|j: int| 0 <= j < locals.len() ==> (#[trigger] locals[j]).0@ != name,
    }
}

/// The first of the words `ws` is `a` or `b`.
pub open spec fn is_command(ws: Seq<Seq<char>>, a: Seq<char>, b: Seq<char>) -> bool {
    ws.len() > 0 && (ws[0] == a || ws[0] == b)
}

/// What a console line with the words `ws` may ask of the debugger `d`:
/// stepping forward needs a history, and a new breakpoint a free id.
pub open spec fn console_allowed(d: TimeTravelDebugger, ws: Seq<Seq<char>>) -> bool {
    &&& is_command(ws, "n"@, "next"@) ==> d.steps().len() > 0
    &&& (is_command(ws, "bp"@, "breakpoint"@) && ws.len() > 1 && unsigned_text(ws[1]) is Some
        && unsigned_text(ws[1])->0 <= u32::MAX) ==> d.breakpoint_counter() < u32::MAX
}

/// The number `w` spells, if it spells one no larger than `max`.
pub open spec fn count_in(w: Seq<char>, max: nat) -> Option<nat> {
    match unsigned_text(w) {
        Some(v) => if v <= max {
            Some(v)
        } else {
            None
        },
        None => None,
    }
}

/// What a console line with the words `ws` does to the debugger `d`, which
/// becomes `e`, and what it reports.
pub open spec fn console_effect(d: TimeTravelDebugger, e: TimeTravelDebugger, ws: Seq<Seq<char>>, r: CommandOutcome) -> bool {
    if ws.len() == 0 {
        e == d && r == CommandOutcome::Silent
    } else {
        let cmd = ws[0];
        let arg = ws[1];
        let has_arg = ws.len() > 1;
        let pos = d.position();
        if cmd == "n"@ || cmd == "next"@ {
            &&& e.same_except(&d, true, false, false, false)
            &&& if pos + 1 < d.steps().len() {
                e.position() == pos + 1 && r == CommandOutcome::SteppedForward(e.position())
            } else {
                e == d && r == CommandOutcome::AtLatest
            }
        } else if cmd == "b"@ || cmd == "back"@ {
            &&& e.same_except(&d, true, false, false, false)
            &&& if pos > 0 {
                e.position() == pos - 1 && r == CommandOutcome::SteppedBack(e.position())
            } else {
                e == d && r == CommandOutcome::AtBeginning
            }
        } else if cmd == "rewind"@ {
            if !has_arg {
                e == d && r == CommandOutcome::RewindUsage
            } else {
                match count_in(arg, usize::MAX as nat) {
                    Some(n) => {
                        &&& e.same_except(&d, true, false, false, false)
                        &&& e.position() == (if n >= pos { 0 } else { pos - n })
                        &&& r == CommandOutcome::Rewound {
                            reached_beginning: n > pos,
                            at: if d.steps().len() > 0 { Some(e.position()) } else { None },
                        }
                    },
                    None => e == d && r == CommandOutcome::Silent,
                }
            }
        } else if cmd == "p"@ || cmd == "print"@ {
            &&& e == d
            &&& if !has_arg {
                r == CommandOutcome::PrintUsage
            } else if pos < d.steps().len() {
                (r matches CommandOutcome::Print { name, local } && name@ == arg && first_local(
                    d.steps()[pos as int].locals@,
                    arg,
                    local,
                ))
            } else {
                r == CommandOutcome::Silent
            }
        } else if cmd == "w"@ || cmd == "watch"@ {
            if has_arg {
                &&& e.same_except(&d, false, true, false, false)
                &&& e.watch_list().len() == d.watch_list().len() + 1
                &&& e.watch_list().drop_last() == d.watch_list()
                &&& e.watch_list().last()@ == arg
                &&& (r matches CommandOutcome::Watching(name) && name@ == arg)
            } else {
                e == d && r == CommandOutcome::WatchList
            }
        } else if cmd == "bp"@ || cmd == "breakpoint"@ {
            if !has_arg {
                e == d && r == CommandOutcome::BreakpointList
            } else {
                match count_in(arg, u32::MAX as nat) {
                    Some(line) => {
                        &&& e.same_except(&d, false, false, true, false)
                        &&& e.line_breakpoints() == d.line_breakpoints().insert(
                            line as u32,
                            Breakpoint { line: line as u32, condition: None, enabled: true, hit_count: 0 },
                        )
                        &&& e.breakpoint_counter() == d.breakpoint_counter() + 1
                        &&& r == CommandOutcome::BreakpointSet(line as u32)
                    },
                    None => e == d && r == CommandOutcome::Silent,
                }
            }
        } else if cmd == "history"@ {
            &&& e == d
            &&& r == CommandOutcome::History {
                start: (if pos >= 5 { pos - 5 } else { 0 }) as usize,
                end: (if pos + 6 < d.steps().len() { pos + 6 } else { d.steps().len() as int }) as usize,
            }
        } else if cmd == "changes"@ {
            &&& e == d
            &&& if has_arg {
                (r matches CommandOutcome::Changes(name) && name@ == arg)
            } else {
                r == CommandOutcome::ChangesUsage
            }
        } else if cmd == "stack"@ {
            e == d && r == CommandOutcome::Stack
        } else if cmd == "locals"@ {
            e == d && r == CommandOutcome::Locals
        } else if cmd == "help"@ {
            e == d && r == CommandOutcome::Help
        } else if cmd == "q"@ || cmd == "quit"@ || cmd == "exit"@ {
            e == d && r == CommandOutcome::Quit
        } else if cmd == "c"@ || cmd == "continue"@ {
            &&& e.same_except(&d, false, false, false, true)
            &&& !e.is_paused_spec()
            &&& r == CommandOutcome::Continue
        } else {
            &&& e == d
            &&& r matches CommandOutcome::Unknown(name) && name@ == cmd
        }
    }
}

impl TimeTravelDebugger {
    /// `self` agrees with `other` in every part but, where the flag is set,
    /// the position, the plain watches, the line breakpoints with their id
    /// counter, and the pause flag.
    pub closed spec fn same_except(
        &self,
        other: &Self,
        position: bool,
        watches: bool,
        breakpoints: bool,
        paused: bool,
    ) -> bool {
        &&& self.history == other.history
        &&& (!position ==> self.current_position == other.current_position)
        &&& self.recording == other.recording
        &&& (!breakpoints ==> self.breakpoints == other.breakpoints && self.next_bp_id == other.next_bp_id)
        &&& (!watches ==> self.watches == other.watches)
        &&& self.step_counter == other.step_counter
        &&& (!paused ==> self.paused == other.paused)
        &&& self.source_lines == other.source_lines
        &&& self.current_file == other.current_file
        &&& self.conditional_breakpoints == other.conditional_breakpoints
        &&& self.next_cond_bp_id == other.next_cond_bp_id
        &&& self.watch_expressions == other.watch_expressions
        &&& self.next_watch_id == other.next_watch_id
        &&& self.delta_history == other.delta_history
    }

    /// Two debuggers that agree in all but the named parts have the same
    /// steps, and the same well-formedness where the breakpoints agree.
    pub proof fn lemma_same_except(&self, other: &Self, position: bool, watches: bool, breakpoints: bool, paused: bool)
        requires
            self.same_except(other, position, watches, breakpoints, paused),
        ensures
            self.steps() == other.steps(),
            !position ==> self.position() == other.position(),
            !watches ==> self.watch_list() == other.watch_list(),
            !breakpoints ==> self.line_breakpoints() == other.line_breakpoints(),
            !paused ==> self.is_paused_spec() == other.is_paused_spec(),
            self.source() == other.source(),
            self.file() == other.file(),
            self.counter() == other.counter(),
    {
    }

    /// The plain watches, in the order they were added.
    pub fn plain_watches(&self) -> (r: &[String])
        ensures
            r@ == self.watch_list(),
    {
        self.watches.as_slice()
    }

    /// The lines that have a breakpoint, each once, in an order the table's
    /// hasher decides.
    pub fn breakpoint_lines(&self) -> (r: Vec<u32>)
        ensures
            forall|i: int| 0 <= i < r@.len() ==> self.line_breakpoints().contains_key(#[trigger] r@[i]),
            r@.no_duplicates(),
            forall|k: u32| self.line_breakpoints().contains_key(k) ==> r@.contains(k),
    {
        lines_keys(&self.breakpoints)
    }

    /// The breakpoint on the line, if there is one.
    pub fn breakpoint_at(&self, line: u32) -> (r: Option<&Breakpoint>)
        ensures
            match r {
                Some(b) => self.line_breakpoints().contains_key(line) && self.line_breakpoints()[line] == *b,
                None => !self.line_breakpoints().contains_key(line),
            },
    {
        lines_get(&self.breakpoints, line)
    }

    /// Carry out one line typed at the debugger's console: `n`/`next`,
    /// `b`/`back`, `rewind <n>`, `p <var>`, `w [<var>]`, `bp [<line>]`,
    /// `history`, `changes <var>`, `stack`, `locals`, `help`,
    /// `q`/`quit`/`exit` and `c`/`continue`; the words are separated by
    /// white space.
    pub fn run_command(&mut self, line: &str) -> (r: CommandOutcome)
        requires
            old(self).wf(),
            console_allowed(*old(self), words(line@)),
        ensures
            final(self).wf(),
            console_effect(*old(self), *final(self), words(line@), r),
    {
        let ws = split_words(line);
        proof {
            assert(ws@.len() == words(line@).len());
            if ws@.len() > 0 {
                assert(ws@[0]@ == words(line@)[0]);
            }
            if ws@.len() > 1 {
                assert(ws@[1]@ == words(line@)[1]);
            }
        }
        if ws.len() == 0 {
            return CommandOutcome::Silent;
        }
        let cmd = ws[0].as_str();
        let has_arg = ws.len() > 1;
        if str_eq(cmd, "n") || str_eq(cmd, "next") {
            if self.current_position < self.history.len() - 1 {
                self.current_position = self.current_position + 1;
                CommandOutcome::SteppedForward(self.current_position)
            } else {
                CommandOutcome::AtLatest
            }
        } else if str_eq(cmd, "b") || str_eq(cmd, "back") {
            if self.current_position > 0 {
                self.current_position = self.current_position - 1;
                CommandOutcome::SteppedBack(self.current_position)
            } else {
                CommandOutcome::AtBeginning
            }
        } else if str_eq(cmd, "rewind") {
            if !has_arg {
                return CommandOutcome::RewindUsage;
            }
            match parse_unsigned(ws[1].as_str(), usize::MAX as u64) {
                Some(n) => {
                    let n = n as usize;
                    let reached = n > self.current_position;
                    if n >= self.current_position {
                        self.current_position = 0;
                    } else {
                        self.current_position = self.current_position - n;
                    }
                    let at = if self.history.len() > 0 {
                        Some(self.current_position)
                    } else {
                        None
                    };
                    CommandOutcome::Rewound { reached_beginning: reached, at }
                },
                None => CommandOutcome::Silent,
            }
        } else if str_eq(cmd, "p") || str_eq(cmd, "print") {
            if !has_arg {
                return CommandOutcome::PrintUsage;
            }
            if self.current_position < self.history.len() {
                let name = ws[1].clone();
                let local = first_local_index(&self.history[self.current_position].locals, name.as_str());
                CommandOutcome::Print { name, local }
            } else {
                CommandOutcome::Silent
            }
        } else if str_eq(cmd, "w") || str_eq(cmd, "watch") {
            if has_arg {
                let name = ws[1].clone();
                self.watches.push(ws[1].clone());
                assert(self.watches@.drop_last() =~= old(self).watches@);
                CommandOutcome::Watching(name)
            } else {
                CommandOutcome::WatchList
            }
        } else if str_eq(cmd, "bp") || str_eq(cmd, "breakpoint") {
            if !has_arg {
                return CommandOutcome::BreakpointList;
            }
            match parse_unsigned(ws[1].as_str(), u32::MAX as u64) {
                Some(n) => {
                    let at = n as u32;
                    self.next_bp_id = self.next_bp_id + 1;
                    lines_insert(
                        &mut self.breakpoints,
                        at,
                        Breakpoint { line: at, condition: None, enabled: true, hit_count: 0 },
                    );
                    CommandOutcome::BreakpointSet(at)
                },
                None => CommandOutcome::Silent,
            }
        } else if str_eq(cmd, "history") {
            let pos = self.current_position;
            let start = if pos >= 5 {
                pos - 5
            } else {
                0
            };
            let len = self.history.len();
            let end = if pos < len && len - pos > 6 {
                pos + 6
            } else {
                len
            };
            CommandOutcome::History { start, end }
        } else if str_eq(cmd, "changes") {
            if has_arg {
                CommandOutcome::Changes(ws[1].clone())
            } else {
                CommandOutcome::ChangesUsage
            }
        } else if str_eq(cmd, "stack") {
            CommandOutcome::Stack
        } else if str_eq(cmd, "locals") {
            CommandOutcome::Locals
        } else if str_eq(cmd, "help") {
            CommandOutcome::Help
        } else if str_eq(cmd, "q") || str_eq(cmd, "quit") || str_eq(cmd, "exit") {
            CommandOutcome::Quit
        } else if str_eq(cmd, "c") || str_eq(cmd, "continue") {
            self.paused = false;
            CommandOutcome::Continue
        } else {
            CommandOutcome::Unknown(ws[0].clone())
        }
    }
}

/// The index of the first of `locals` named `name`, if one is.
fn first_local_index(locals: &Vec<(String, JsValue)>, name: &str) -> (r: Option<usize>)
    ensures
        first_local(locals@, name@, r),
{
    let mut i: usize = 0;
    while i < locals.len()
        invariant
            i <= locals@.len(),
            forall|j: int| 0 <= j < i ==> (#[trigger] locals@[j]).0@ != name@,
        decreases locals.len() - i,
    {
        if str_eq(locals[i].0.as_str(), name) {
            return Some(i);
        }
        i = i + 1;
    }
    None
}

// ───────────────────────────── Variable changes ─────────────────────────────

/// The value of the first local named `name`, if one is.
pub open spec fn local_named(locals: Seq<(String, JsValue)>, name: Seq<char>) -> Option<ValueModel>
    decreases locals.len(),
{
    if locals.len() == 0 {
        None
    } else if locals[0].0@ == name {
        Some(locals[0].1@)
    } else {
        local_named(locals.drop_first(), name)
    }
}

/// The steps at which the variable `name` takes a value not strictly equal
/// to the one it last took (`last`), with that value, in order.
pub open spec fn changes_from(steps: Seq<ExecutionRecord>, name: Seq<char>, last: Option<ValueModel>) -> Seq<(u64, ValueModel)>
    decreases steps.len(),
{
    if steps.len() == 0 {
        seq![]
    } else {
        match local_named(steps[0].locals@, name) {
            Some(v) => if last is None || !crate::value::strictly_equal(last->0, v) {
                seq![(steps[0].step, v)] + changes_from(steps.drop_first(), name, Some(v))
            } else {
                changes_from(steps.drop_first(), name, last)
            },
            None => changes_from(steps.drop_first(), name, last),
        }
    }
}

/// The models of a list of steps and values.
pub open spec fn change_models(v: Seq<(u64, JsValue)>) -> Seq<(u64, ValueModel)> {
    v.map_values(|c: (u64, JsValue)| (c.0, c.1@))
}

pub(crate) fn local_value<'a>(locals: &'a Vec<(String, JsValue)>, name: &str) -> (r: Option<&'a JsValue>)
    ensures
        match r {
            Some(v) => local_named(locals@, name@) == Some(v@),
            None => local_named(locals@, name@) is None,
        },
{
    let mut i: usize = 0;
    assert(locals@.skip(0) =~= locals@);
    while i < locals.len()
        invariant
            i <= locals@.len(),
            local_named(locals@, name@) == local_named(locals@.skip(i as int), name@),
        decreases locals.len() - i,
    {
        assert(locals@.skip(i as int)[0] == locals@[i as int]);
        assert(locals@.skip(i as int).drop_first() =~= locals@.skip(i + 1));
        if str_eq(locals[i].0.as_str(), name) {
            return Some(&locals[i].1);
        }
        i = i + 1;
    }
    assert(locals@.skip(i as int) =~= Seq::<(String, JsValue)>::empty());
    None
}

impl TimeTravelDebugger {
    /// The steps at which a variable took a new value (one not strictly
    /// equal to the one before), with that value, oldest first.
    pub fn find_variable_changes(&self, var_name: &str) -> (r: Vec<(u64, JsValue)>)
        ensures
            change_models(r@) == changes_from(self.steps(), var_name@, None),
    {
        let mut out: Vec<(u64, JsValue)> = Vec::new();
        let mut last: Option<JsValue> = None;
        let ghost steps = self.history@;
        let mut i: usize = 0;
        assert(steps.skip(0) =~= steps);
        assert(change_models(out@) =~= Seq::<(u64, ValueModel)>::empty());
        while i < self.history.len()
            invariant
                i <= steps.len(),
                steps == self.history@,
                steps == self.steps(),
                change_models(out@) + changes_from(steps.skip(i as int), var_name@, crate::event_loop::opt_model(last))
                    == changes_from(steps, var_name@, None),
            decreases steps.len() - i,
        {
            let ghost rest = steps.skip(i as int);
            assert(rest[0] == steps[i as int]);
            assert(rest.drop_first() =~= steps.skip(i + 1));
            let record = &self.history[i];
            match local_value(&record.locals, var_name) {
                Some(v) => {
                    let changed = match &last {
                        None => true,
                        Some(p) => !crate::value::strict_equals(p, v),
                    };
                    if changed {
                        let ghost before = out@;
                        out.push((record.step, v.duplicate()));
                        last = Some(v.duplicate());
                        proof {
                            assert(change_models(out@) =~= change_models(before) + seq![(record.step, v@)]);
                        }
                    }
                },
                None => {},
            }
            i = i + 1;
        }
        assert(steps.skip(i as int) =~= Seq::<ExecutionRecord>::empty());
        assert(change_models(out@) + Seq::<(u64, ValueModel)>::empty() =~= change_models(out@));
        out
    }
}

// ───────────────────────────── Saving and loading a session ─────────────────────────────

/// What `to_recording` makes of the session `d` with the texts `shown`:
/// its file, source lines, steps and breakpoints.
pub open spec fn saved_as(d: TimeTravelDebugger, shown: Seq<Vec<String>>, rec: Recording) -> bool {
    &&& rec.current_file@ == d.file()
    &&& views_of(rec.source_lines@) == d.source()
    &&& rec.steps@.len() == d.steps().len()
    &&& forall|i: int| 0 <= i < rec.steps@.len() ==> saved_step(#[trigger] rec.steps@[i], d.steps()[i], shown[i]@)
    &&& forall|i: int| 0 <= i < rec.breakpoints@.len() ==> d.line_breakpoints().contains_key((#[trigger] rec.breakpoints@[i]).line)
        && saved_breakpoint(rec.breakpoints@[i], d.line_breakpoints()[rec.breakpoints@[i].line])
    &&& forall|l: u32| #[trigger] d.line_breakpoints().contains_key(l) ==> exists|i: int|
        0 <= i < rec.breakpoints@.len() && (#[trigger] rec.breakpoints@[i]).line == l
}

/// A non-negative integer as a JSON number.
pub open spec fn uint_json(n: nat) -> JsonModel {
    JsonModel::Number(Some(n as u64), decimal(n))
}

/// A `u64` as a JSON number.
fn uint_json_value(n: u64) -> (r: JsonValue)
    ensures
        r@ == uint_json(n as nat),
{
    JsonValue::Number(Some(n), decimal_string(n))
}

/// The locals of a step as object members, each name with its shown text.
pub open spec fn local_members(locals: Seq<(String, JsValue)>, shown: Seq<String>) -> Seq<(Seq<char>, JsonModel)> {
    Seq::new(locals.len(), |j: int| (locals[j].0@, JsonModel::Str(shown[j]@)))
}

/// The members of an exported step.
pub open spec fn step_members(e: ExecutionRecord, shown: Seq<String>) -> Seq<(Seq<char>, JsonModel)> {
    seq![
        ("step"@, uint_json(e.step as nat)),
        ("ip"@, uint_json(e.ip as nat)),
        ("line"@, uint_json(e.line as nat)),
        ("stack_size"@, uint_json(e.stack_size as nat)),
        ("description"@, JsonModel::Str(e.description@)),
        ("locals"@, JsonModel::Object(local_members(e.locals@, shown))),
    ]
}

/// An exported step.
pub open spec fn step_json(e: ExecutionRecord, shown: Seq<String>) -> JsonModel {
    JsonModel::Object(step_members(e, shown))
}

/// The exported steps, in order.
pub open spec fn step_jsons(steps: Seq<ExecutionRecord>, shown: Seq<Vec<String>>) -> Seq<JsonModel> {
    Seq::new(steps.len(), |i: int| step_json(steps[i], shown[i]@))
}

/// The members of an exported recording of `steps` from `file` (none when
/// it is empty).
pub open spec fn export_members(steps: Seq<ExecutionRecord>, file: Seq<char>, shown: Seq<Vec<String>>) -> Seq<(Seq<char>, JsonModel)> {
    seq![
        ("format_version"@, uint_json(recording::RECORDING_VERSION as nat)),
        ("source_file"@, if file.len() == 0 {
            JsonModel::Null
        } else {
            JsonModel::Str(file)
        }),
        ("total_steps"@, uint_json(steps.len())),
        ("checksum"@, uint_json(DefaultHasher::spec_finish(checksum_input(steps)) as nat)),
        ("steps"@, JsonModel::Array(step_jsons(steps, shown))),
    ]
}

/// An exported recording.
pub open spec fn export_model(steps: Seq<ExecutionRecord>, file: Seq<char>, shown: Seq<Vec<String>>) -> JsonModel {
    JsonModel::Object(export_members(steps, file, shown))
}

/// What `from_recording` makes of a recording: the session `l`.
pub open spec fn loaded_as(rec: Recording, l: TimeTravelDebugger) -> bool {
    &&& l.steps().len() == rec.steps@.len()
    &&& forall|i: int| 0 <= i < rec.steps@.len() ==> loaded_step(#[trigger] l.steps()[i], rec.steps@[i])
    &&& l.is_paused_spec()
    &&& l.source() == views_of(rec.source_lines@)
    &&& l.file() == rec.current_file@
    &&& l.line_breakpoints() == breakpoints_from(rec.breakpoints@)
}

/// Breakpoint `b` is `a` restored: the same line, state, hit count and
/// condition text.
pub open spec fn same_breakpoint(b: Breakpoint, a: Breakpoint) -> bool {
    &&& b.line == a.line
    &&& b.enabled == a.enabled
    &&& b.hit_count == a.hit_count
    &&& match (b.condition, a.condition) {
        (Some(x), Some(y)) => x@ == y@,
        (None, None) => true,
        _ => false,
    }
}

/// The breakpoints made of a saved list: one for each line listed, made
/// from the last entry of that line.
proof fn lemma_breakpoints_from_entries(bps: Seq<RecordedBreakpoint>)
    ensures
        forall|l: u32| #[trigger] breakpoints_from(bps).contains_key(l) <==> exists|i: int| 0 <= i < bps.len() && (#[trigger] bps[i]).line == l,
        forall|l: u32| #[trigger] breakpoints_from(bps).contains_key(l) ==> exists|i: int|
            0 <= i < bps.len() && (#[trigger] bps[i]).line == l && breakpoints_from(bps)[l] == (Breakpoint {
                line: bps[i].line,
                condition: bps[i].condition,
                enabled: bps[i].enabled,
                hit_count: bps[i].hit_count,
            }),
    decreases bps.len(),
{
    if bps.len() > 0 {
        let p = bps.drop_last();
        lemma_breakpoints_from_entries(p);
        let n = bps.len() - 1;
        assert forall|l: u32| #[trigger] breakpoints_from(bps).contains_key(l) <==> exists|i: int| 0 <= i < bps.len() && (#[trigger] bps[i]).line == l by {
            if breakpoints_from(bps).contains_key(l) {
                if l == bps[n].line {
                } else {
                    assert(breakpoints_from(p).contains_key(l));
                    let i = choose|i: int| 0 <= i < p.len() && (#[trigger] p[i]).line == l;
                    assert(bps[i] == p[i]);
                }
            }
            if exists|i: int| 0 <= i < bps.len() && (#[trigger] bps[i]).line == l {
                let i = choose|i: int| 0 <= i < bps.len() && (#[trigger] bps[i]).line == l;
                if i < n {
                    assert(p[i] == bps[i]);
                }
            }
        }
        assert forall|l: u32| #[trigger] breakpoints_from(bps).contains_key(l) implies exists|i: int|
            0 <= i < bps.len() && (#[trigger] bps[i]).line == l && breakpoints_from(bps)[l] == (Breakpoint {
                line: bps[i].line,
                condition: bps[i].condition,
                enabled: bps[i].enabled,
                hit_count: bps[i].hit_count,
            }) by {
            if l == bps[n].line {
                assert(bps[n].line == l);
            } else {
                assert(breakpoints_from(p).contains_key(l));
                let i = choose|i: int|
                    0 <= i < p.len() && (#[trigger] p[i]).line == l && breakpoints_from(p)[l] == (Breakpoint {
                        line: p[i].line,
                        condition: p[i].condition,
                        enabled: p[i].enabled,
                        hit_count: p[i].hit_count,
                    });
                assert(bps[i] == p[i]);
            }
        }
    }
}

/// Step `e`, loaded back, is step `r` as it was saved with the local texts
/// `shown`: the same number, line, opcode and description, the position and
/// stack size cut to 32 bits, and each local by its shown text.
pub open spec fn step_restored(e: ExecutionRecord, r: ExecutionRecord, shown: Seq<String>) -> bool {
    &&& e.step == r.step
    &&& e.line == r.line
    &&& e.opcode == r.opcode
    &&& e.description@ == r.description@
    &&& e.ip == (r.ip as u32) as usize
    &&& e.stack_size == (r.stack_size as u32) as usize
    &&& e.locals@.len() == r.locals@.len()
    &&& forall|j: int| 0 <= j < e.locals@.len() ==> (#[trigger] e.locals@[j]).0@ == r.locals@[j].0@ && (e.locals@[j].1 matches JsValue::String(v)
        && v@ == shown[j]@)
}

/// The line breakpoints loaded from a copy of the saved list are those of
/// the saved session, each as it was.
proof fn lemma_breakpoints_restored(d: TimeTravelDebugger, rec: Recording, back: Recording, l: TimeTravelDebugger)
    requires
        forall|i: int| 0 <= i < rec.breakpoints@.len() ==> d.line_breakpoints().contains_key((#[trigger] rec.breakpoints@[i]).line)
            && saved_breakpoint(rec.breakpoints@[i], d.line_breakpoints()[rec.breakpoints@[i].line]),
        forall|l: u32| #[trigger] d.line_breakpoints().contains_key(l) ==> exists|i: int|
            0 <= i < rec.breakpoints@.len() && (#[trigger] rec.breakpoints@[i]).line == l,
        back@.breakpoints == rec@.breakpoints,
        l.line_breakpoints() == breakpoints_from(back.breakpoints@),
    ensures
        l.line_breakpoints().dom() == d.line_breakpoints().dom(),
        forall|line: u32| #[trigger] d.line_breakpoints().contains_key(line) ==> same_breakpoint(
            l.line_breakpoints()[line],
            d.line_breakpoints()[line],
        ),
{
    let bb = back.breakpoints@;
    let rb = rec.breakpoints@;
    let bm = bb.map_values(|b: RecordedBreakpoint| b@);
    let rm = rb.map_values(|b: RecordedBreakpoint| b@);
    assert(back@.breakpoints == bm);
    assert(rec@.breakpoints == rm);
    assert(bb.len() == rb.len()) by {
        assert(bm.len() == rm.len());
    }
    assert forall|i: int| 0 <= i < bb.len() implies (#[trigger] bb[i])@ == rb[i]@ by {
        assert(bm[i] == rm[i]);
    }
    lemma_breakpoints_from_entries(bb);
    assert forall|line: u32| #[trigger] d.line_breakpoints().contains_key(line) implies l.line_breakpoints().contains_key(line)
        && same_breakpoint(l.line_breakpoints()[line], d.line_breakpoints()[line]) by {
        let j = choose|j: int| 0 <= j < rb.len() && (#[trigger] rb[j]).line == line;
        assert(bb[j]@ == rb[j]@);
        assert(bb[j].line == line);
        assert(breakpoints_from(bb).contains_key(line));
        let i = choose|i: int|
            0 <= i < bb.len() && (#[trigger] bb[i]).line == line && breakpoints_from(bb)[line] == (Breakpoint {
                line: bb[i].line,
                condition: bb[i].condition,
                enabled: bb[i].enabled,
                hit_count: bb[i].hit_count,
            });
        assert(bb[i]@ == rb[i]@);
        assert(saved_breakpoint(rb[i], d.line_breakpoints()[rb[i].line]));
    }
    assert forall|line: u32| #[trigger] l.line_breakpoints().contains_key(line) implies d.line_breakpoints().contains_key(line) by {
        let i = choose|i: int| 0 <= i < bb.len() && (#[trigger] bb[i]).line == line;
        assert(bb[i]@ == rb[i]@);
        assert(d.line_breakpoints().contains_key(rb[i].line));
    }
    assert(l.line_breakpoints().dom() =~= d.line_breakpoints().dom());
}

/// Saving a session and loading the bytes back gives a paused session with
/// the same file and source, each step restored as it was saved (an opcode
/// of 255 stands for none, so no step may carry it), and the same line
/// breakpoints, each as it was.
pub proof fn lemma_save_load(d: TimeTravelDebugger, shown: Seq<Vec<String>>, rec: Recording, back: Recording, l: TimeTravelDebugger)
    requires
        saved_as(d, shown, rec),
        recording_fits(rec@),
        parse_recording(recording_bytes(rec@)) == Ok::<RecordingModel, Fault>(back@),
        loaded_as(back, l),
        forall|i: int| 0 <= i < d.steps().len() ==> (#[trigger] d.steps()[i]).opcode != Some(255u8),
    ensures
        l.steps().len() == d.steps().len(),
        forall|i: int| 0 <= i < d.steps().len() ==> step_restored(#[trigger] l.steps()[i], d.steps()[i], shown[i]@),
        l.file() == d.file(),
        l.source() == d.source(),
        l.is_paused_spec(),
        l.line_breakpoints().dom() == d.line_breakpoints().dom(),
        forall|line: u32| #[trigger] d.line_breakpoints().contains_key(line) ==> same_breakpoint(
            l.line_breakpoints()[line],
            d.line_breakpoints()[line],
        ),
{
    crate::debugger::recording::lemma_recording_roundtrip(rec@, seq![]);
    assert(recording_bytes(rec@) + Seq::<u8>::empty() =~= recording_bytes(rec@));
    assert(back@ == rec@);
    assert(back.steps@.len() == rec.steps@.len()) by {
        assert(back@.steps.len() == rec@.steps.len());
    }
    assert forall|i: int| 0 <= i < d.steps().len() implies step_restored(#[trigger] l.steps()[i], d.steps()[i], shown[i]@) by {
        assert(back@.steps[i] == rec@.steps[i]);
        assert(back.steps@[i]@ == rec.steps@[i]@);
        let b = back.steps@[i];
        let r = rec.steps@[i];
        assert(saved_step(r, d.steps()[i], shown[i]@));
        assert(loaded_step(l.steps()[i], b));
        assert(pair_views(b.locals@) == pair_views(r.locals@));
        assert forall|j: int| 0 <= j < l.steps()[i].locals@.len() implies (#[trigger] l.steps()[i].locals@[j]).0@ == d.steps()[i].locals@[j].0@
            && (l.steps()[i].locals@[j].1 matches JsValue::String(v) && v@ == shown[i]@[j]@) by {
            assert(pair_views(b.locals@)[j] == pair_views(r.locals@)[j]);
            assert(r.locals@[j].0@ == d.steps()[i].locals@[j].0@);
            assert(r.locals@[j].1@ == shown[i]@[j]@);
        }
    }
    assert(views_of(back.source_lines@) == views_of(rec.source_lines@)) by {
        assert(back@.lines == rec@.lines);
    }
    assert(back@.breakpoints == rec@.breakpoints);
    lemma_breakpoints_restored(d, rec, back, l);
}

// ───────────────────────────── Searching the history ─────────────────────────────

/// Whether `n` occurs in `h`.
pub open spec fn has_substring(h: Seq<char>, n: Seq<char>) -> bool {
    exists|i: int| 0 <= i && i + n.len() <= h.len() && #[trigger] h.subrange(i, i + n.len()) == n
}

/// Whether a step matches a search: the lower case of one of its locals'
/// names, or of the text `shown` gives its value, holds the lower case of
/// the query.
pub open spec fn step_matches(e: ExecutionRecord, shown: Seq<String>, query: Seq<char>) -> bool {
    exists|j: int|
        0 <= j < e.locals@.len() && (has_substring(crate::edge::lowercase_of(#[trigger] e.locals@[j].0@), crate::edge::lowercase_of(query))
            || has_substring(crate::edge::lowercase_of(shown[j]@), crate::edge::lowercase_of(query)))
}

fn contains_chars(h: &Vec<char>, n: &Vec<char>) -> (r: bool)
    ensures
        r == has_substring(h@, n@),
{
    if n.len() > h.len() {
        return false;
    }
    if n.len() == 0 {
        assert(h@.subrange(0, 0 + n@.len() as int) =~= n@);
        return true;
    }
    let mut i: usize = 0;
    while i <= h.len() - n.len()
        invariant
            0 < n@.len() <= h@.len(),
            i <= h@.len() - n@.len() + 1,
            forall|k: int| 0 <= k < i ==> #[trigger] h@.subrange(k, k + n@.len()) != n@,
        decreases h.len() - n.len() + 1 - i,
    {
        if crate::debugger::server::has_prefix(h, i, n) {
            assert(h@.skip(i as int).take(n@.len() as int) =~= h@.subrange(i as int, i + n@.len()));
            return true;
        }
        assert(h@.skip(i as int).take(n@.len() as int) =~= h@.subrange(i as int, i + n@.len()));
        i = i + 1;
    }
    false
}

impl TimeTravelDebugger {
    /// The positions of the steps that match a search (see
    /// [`step_matches`]), in order; `shown` gives the text of each local's
    /// value, step by step.
    pub fn search_history(&self, query: &str, shown: &Vec<Vec<String>>) -> (r: Vec<usize>)
        requires
            shown@.len() == self.steps().len(),
            forall|i: int| 0 <= i < shown@.len() ==> (#[trigger] shown@[i])@.len() == self.steps()[i].locals@.len(),
        ensures
            forall|k: int| 0 <= k < r@.len() ==> (#[trigger] r@[k]) < self.steps().len() && step_matches(
                self.steps()[r@[k] as int],
                shown@[r@[k] as int]@,
                query@,
            ),
            forall|k: int, l: int| 0 <= k < l < r@.len() ==> (#[trigger] r@[k]) < (#[trigger] r@[l]),
            forall|i: int| 0 <= i < self.steps().len() && step_matches(self.steps()[i], shown@[i]@, query@) ==> r@.contains(
                i as usize,
            ),
    {
        let q = crate::edge::to_lowercase(query);
        let qc = chars_of(q.as_str());
        let mut out: Vec<usize> = Vec::new();
        let mut i: usize = 0;
        while i < self.history.len()
            invariant
                i <= self.steps().len(),
                self.history@ == self.steps(),
                shown@.len() == self.steps().len(),
                forall|x: int| 0 <= x < shown@.len() ==> (#[trigger] shown@[x])@.len() == self.steps()[x].locals@.len(),
                qc@ == crate::edge::lowercase_of(query@),
                forall|k: int| 0 <= k < out@.len() ==> (#[trigger] out@[k]) < i && step_matches(
                    self.steps()[out@[k] as int],
                    shown@[out@[k] as int]@,
                    query@,
                ),
                forall|k: int, l: int| 0 <= k < l < out@.len() ==> (#[trigger] out@[k]) < (#[trigger] out@[l]),
                forall|x: int| 0 <= x < i && step_matches(self.steps()[x], shown@[x]@, query@) ==> out@.contains(x as usize),
            decreases self.history.len() - i,
        {
            let e = &self.history[i];
            let texts = &shown[i];
            let mut j: usize = 0;
            let mut found = false;
            while j < e.locals.len() && !found
                invariant
                    j <= e.locals@.len(),
                    texts@.len() == e.locals@.len(),
                    qc@ == crate::edge::lowercase_of(query@),
                    found ==> step_matches(*e, texts@, query@),
                    !found ==> forall|m: int| 0 <= m < j ==> !(has_substring(crate::edge::lowercase_of(#[trigger] e.locals@[m].0@), crate::edge::lowercase_of(query@))
                        || has_substring(crate::edge::lowercase_of(texts@[m]@), crate::edge::lowercase_of(query@))),
                decreases e.locals.len() - j,
            {
                let nl = chars_of(crate::edge::to_lowercase(e.locals[j].0.as_str()).as_str());
                let vl = chars_of(crate::edge::to_lowercase(texts[j].as_str()).as_str());
                if contains_chars(&nl, &qc) || contains_chars(&vl, &qc) {
                    found = true;
                }
                j = j + 1;
            }
            if found {
                let ghost before = out@;
                out.push(i);
                proof {
                    assert forall|k: int| 0 <= k < out@.len() implies (#[trigger] out@[k]) < i + 1 && step_matches(
                        self.steps()[out@[k] as int],
                        shown@[out@[k] as int]@,
                        query@,
                    ) by {
                        if k < before.len() {
                            assert(out@[k] == before[k]);
                        }
                    }
                    assert forall|x: int| 0 <= x < i + 1 && step_matches(self.steps()[x], shown@[x]@, query@) implies out@.contains(x as usize) by {
                        if x < i {
                            let k = choose|k: int| 0 <= k < before.len() && before[k] == x as usize;
                            assert(out@[k] == x as usize);
                        } else {
                            assert(out@[before.len() as int] == i);
                        }
                    }
                }
            } else {
                proof {
                    assert(j >= e.locals@.len());
                    assert(!step_matches(*e, texts@, query@)) by {
                        if step_matches(*e, texts@, query@) {
                            let m = choose|m: int|
                                0 <= m < e.locals@.len() && (has_substring(
                                    crate::edge::lowercase_of(#[trigger] e.locals@[m].0@),
                                    crate::edge::lowercase_of(query@),
                                ) || has_substring(crate::edge::lowercase_of(texts@[m]@), crate::edge::lowercase_of(query@)));
                            assert(m < j);
                        }
                    }
                }
            }
            i = i + 1;
        }
        out
    }
}

} // verus!
