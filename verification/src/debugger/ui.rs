//! Text rendering for the debugger: the timeline of execution with its
//! markers, and the diff of variables between two steps; the call stack
//! and the count of runs of each line that the views show.
use vstd::prelude::*;
use crate::text::{push_char, push_str, push_decimal, push_repeat, decimal, decimal_string, repeat_spec};
use crate::value::{JsValue, ValueModel, strictly_equal, strict_equals, models_of, prop_models_of, lemma_prop_models_of_push, duplicate_values};
use crate::event_loop::opt_model;
use crate::debugger::{ExecutionRecord, TimeTravelDebugger, local_named, LineTable, lines_new, lines_get, lines_insert};
use crate::text::string_of;

verus! {

/// A variable's change between two steps.
#[derive(Debug)]
pub struct VariableDiff {
    /// Variable name
    pub name: String,
    /// Previous value (None if newly created)
    pub old_value: Option<JsValue>,
    /// Current value (None if deleted)
    pub new_value: Option<JsValue>,
    /// Type of change
    pub change_type: ChangeType,
}

/// Type of change to a variable
#[derive(Debug, Clone, Copy, PartialEq, Eq, Structural)]
pub enum ChangeType {
    /// Variable was created
    Created,
    /// Variable was modified
    Modified,
    /// Variable was deleted
    Deleted,
    /// Variable was unchanged
    Unchanged,
}

/// A bar of steps with the current position and markers.
#[derive(Debug, Clone)]
pub struct Timeline {
    /// Total number of steps
    pub total_steps: u64,
    /// Current position
    pub current_position: usize,
    /// Width of the timeline in characters
    pub width: usize,
    /// Marked positions (breakpoints, etc.)
    pub markers: Vec<TimelineMarker>,
}

/// A marker on the timeline
#[derive(Debug, Clone)]
pub struct TimelineMarker {
    /// Step number
    pub step: u64,
    /// Marker type
    pub marker_type: MarkerType,
    /// Label
    pub label: String,
}

/// Type of timeline marker
#[derive(Debug, Clone, Copy, PartialEq, Eq, Structural)]
pub enum MarkerType {
    /// Breakpoint
    Breakpoint,
    /// Error occurred
    Error,
    /// Variable changed
    VariableChange,
    /// Function call
    FunctionCall,
    /// Function return
    FunctionReturn,
}

/// The glyph a marker is drawn with.
pub open spec fn marker_glyph(t: MarkerType) -> char {
    match t {
        MarkerType::Breakpoint => '●',
        MarkerType::Error => '✗',
        MarkerType::VariableChange => '◆',
        MarkerType::FunctionCall => '▸',
        MarkerType::FunctionReturn => '◂',
    }
}

fn glyph(t: MarkerType) -> (c: char)
    ensures
        c == marker_glyph(t),
{
    match t {
        MarkerType::Breakpoint => '●',
        MarkerType::Error => '✗',
        MarkerType::VariableChange => '◆',
        MarkerType::FunctionCall => '▸',
        MarkerType::FunctionReturn => '◂',
    }
}

/// The bar after drawing the markers in order, each at its position when
/// that lies on the bar; a later marker covers an earlier one.
pub open spec fn marked_bar(base: Seq<char>, markers: Seq<TimelineMarker>, positions: Seq<usize>) -> Seq<char>
    decreases markers.len(),
{
    if markers.len() == 0 || positions.len() < markers.len() {
        base
    } else {
        let k = markers.len() - 1;
        let prev = marked_bar(base, markers.drop_last(), positions);
        if positions[k] < prev.len() {
            prev.update(positions[k] as int, marker_glyph(markers[k].marker_type))
        } else {
            prev
        }
    }
}

/// The label under the bar's middle.
pub open spec fn middle_label(current_position: usize, total: u64) -> Seq<char> {
    "Step "@ + decimal((current_position + 1) as nat) + " / "@ + decimal(total as nat)
}

/// The widths that the label line needs: two border characters, the `1` on
/// the left, the total on the right and the middle label between them.
pub open spec fn label_fits(t: Timeline) -> bool {
    &&& t.width >= 2
    &&& t.current_position < usize::MAX
    &&& t.width - 3 - decimal(t.total_steps as nat).len() >= middle_label(
        t.current_position,
        t.total_steps,
    ).len()
}

impl Timeline {
    /// Create a new timeline
    pub fn new(total_steps: u64, current_position: usize, width: usize) -> (r: Self)
        ensures
            r.total_steps == total_steps,
            r.current_position == current_position,
            r.width == width,
            r.markers@.len() == 0,
    {
        Timeline { total_steps, current_position, width, markers: Vec::new() }
    }

    /// Add a marker
    pub fn add_marker(&mut self, step: u64, marker_type: MarkerType, label: &str)
        ensures
            final(self).markers@.len() == old(self).markers@.len() + 1,
            final(self).markers@.drop_last() == old(self).markers@,
            final(self).markers@.last().step == step,
            final(self).markers@.last().marker_type == marker_type,
            final(self).markers@.last().label@ == label@,
            final(self).total_steps == old(self).total_steps,
            final(self).current_position == old(self).current_position,
            final(self).width == old(self).width,
    {
        self.markers.push(TimelineMarker { step, marker_type, label: crate::text::string_of(label) });
        assert(self.markers@.drop_last() =~= old(self).markers@);
    }

    /// The rendering, given where each marker and the current position fall
    /// on the bar: a border, the bar with its markers and the current
    /// position (`▼`), a line with `│` under the current position, the label
    /// line (`1`, `Step n / total` centred, the total), and a border.
    pub open spec fn text_at(&self, positions: Seq<usize>, current_pos: usize) -> Seq<char> {
        let w2 = (self.width - 2) as nat;
        let bar0 = marked_bar(repeat_spec('─', w2), self.markers@, positions);
        let bar = if current_pos < w2 {
            bar0.update(current_pos as int, '▼')
        } else {
            bar0
        };
        let indicator = Seq::new(w2, |i: int| if i == current_pos { '│' } else { ' ' });
        let right = decimal(self.total_steps as nat);
        let middle = middle_label(self.current_position, self.total_steps);
        let remaining = w2 - 1 - right.len();
        let left_pad = (remaining - middle.len()) / 2;
        let right_pad = remaining - left_pad - middle.len();
        "╔"@ + repeat_spec('═', self.width as nat) + "╗\n"@ + "║"@ + bar + "║\n"@ + "║"@ + indicator + "║\n"@
            + "║1"@ + repeat_spec(' ', left_pad as nat) + middle + repeat_spec(' ', right_pad as nat) + right
            + "║\n"@ + "╚"@ + repeat_spec('═', self.width as nat) + "╝\n"@
    }

    /// Render the timeline with each marker and the current position at the
    /// given places on the bar.  Where a step falls on the bar is a matter of
    /// scaling, which the caller does.
    pub fn render_at(&self, marker_positions: &Vec<usize>, current_pos: usize) -> (r: String)
        requires
            marker_positions@.len() == self.markers@.len(),
            label_fits(*self),
        ensures
            r@ == self.text_at(marker_positions@, current_pos),
    {
        let w2 = self.width - 2;
        let mut bar: Vec<char> = Vec::new();
        let mut i: usize = 0;
        while i < w2
            invariant
                i <= w2,
                bar@ == repeat_spec('─', i as nat),
            decreases w2 - i,
        {
            bar.push('─');
            i = i + 1;
            assert(bar@ =~= repeat_spec('─', i as nat));
        }
        let mut k: usize = 0;
        assert(self.markers@.take(0) =~= Seq::<TimelineMarker>::empty());
        while k < self.markers.len()
            invariant
                k <= self.markers.len(),
                marker_positions@.len() == self.markers@.len(),
                bar@ == marked_bar(repeat_spec('─', w2 as nat), self.markers@.take(k as int), marker_positions@),
            decreases self.markers.len() - k,
        {
            let pos = marker_positions[k];
            let ghost prev = bar@;
            assert(self.markers@.take(k as int + 1).drop_last() =~= self.markers@.take(k as int));
            if pos < bar.len() {
                bar.set(pos, glyph(self.markers[k].marker_type));
            }
            proof {
                lemma_marked_bar_len(repeat_spec('─', w2 as nat), self.markers@.take(k as int), marker_positions@);
            }
            k = k + 1;
        }
        assert(self.markers@.take(k as int) =~= self.markers@);
        proof {
            lemma_marked_bar_len(repeat_spec('─', w2 as nat), self.markers@, marker_positions@);
        }
        if current_pos < bar.len() {
            bar.set(current_pos, '▼');
        }
        let mut out = String::new();
        push_str(&mut out, "╔");
        push_repeat(&mut out, '═', self.width);
        push_str(&mut out, "╗\n");
        push_str(&mut out, "║");
        let ghost before_bar = out@;
        let mut j: usize = 0;
        while j < bar.len()
            invariant
                j <= bar.len(),
                out@ == before_bar + bar@.take(j as int),
            decreases bar.len() - j,
        {
            push_char(&mut out, bar[j]);
            j = j + 1;
            assert(out@ =~= before_bar + bar@.take(j as int));
        }
        assert(bar@.take(j as int) =~= bar@);
        push_str(&mut out, "║\n");
        push_str(&mut out, "║");
        let ghost before_ind = out@;
        let ghost indicator = Seq::new(w2 as nat, |x: int| if x == current_pos { '│' } else { ' ' });
        let mut x: usize = 0;
        while x < w2
            invariant
                x <= w2,
                indicator == Seq::new(w2 as nat, |y: int| if y == current_pos { '│' } else { ' ' }),
                out@ == before_ind + indicator.take(x as int),
            decreases w2 - x,
        {
            if x == current_pos {
                push_char(&mut out, '│');
            } else {
                push_char(&mut out, ' ');
            }
            x = x + 1;
            assert(out@ =~= before_ind + indicator.take(x as int));
        }
        assert(indicator.take(x as int) =~= indicator);
        push_str(&mut out, "║\n");
        let ghost before_labels = out@;
        let right = decimal_string(self.total_steps);
        let right_len = right.as_str().unicode_len();
        let middle = middle_text(self.current_position, self.total_steps);
        let middle_len = middle.as_str().unicode_len();
        let remaining = w2 - 1 - right_len;
        let left_pad = (remaining - middle_len) / 2;
        let right_pad = remaining - left_pad - middle_len;
        push_str(&mut out, "║1");
        push_repeat(&mut out, ' ', left_pad);
        push_str(&mut out, middle.as_str());
        push_repeat(&mut out, ' ', right_pad);
        push_str(&mut out, right.as_str());
        push_str(&mut out, "║\n");
        push_str(&mut out, "╚");
        push_repeat(&mut out, '═', self.width);
        push_str(&mut out, "╝\n");
        assert(out@ =~= self.text_at(marker_positions@, current_pos));
        out
    }
}

fn middle_text(current_position: usize, total: u64) -> (r: String)
    requires
        current_position < usize::MAX,
    ensures
        r@ == middle_label(current_position, total),
{
    let mut s = crate::text::string_of("Step ");
    push_decimal(&mut s, (current_position + 1) as u64);
    push_str(&mut s, " / ");
    push_decimal(&mut s, total);
    s
}

proof fn lemma_marked_bar_len(base: Seq<char>, markers: Seq<TimelineMarker>, positions: Seq<usize>)
    ensures
        marked_bar(base, markers, positions).len() == base.len(),
    decreases markers.len(),
{
    if markers.len() > 0 && positions.len() >= markers.len() {
        lemma_marked_bar_len(base, markers.drop_last(), positions);
    }
}

// ───────────────────────────── Diff of variables ─────────────────────────────

/// What a diff entry says: the name, the old and new values' models and the
/// kind of change.
pub open spec fn diff_model(d: VariableDiff) -> (Seq<char>, Option<ValueModel>, Option<ValueModel>, ChangeType) {
    (d.name@, opt_model(d.old_value), opt_model(d.new_value), d.change_type)
}

/// Local `j` is the first one with its name.
pub open spec fn first_of_name(l: Seq<(String, JsValue)>, j: int) -> bool {
    forall|k: int| 0 <= k < j ==> (#[trigger] l[k]).0@ != l[j].0@
}

/// The entries for the first `n` locals of the new step: a name new to the
/// old step is created, one whose value is not strictly equal to the old
/// one is modified (a later local of the same name is not looked at).
pub open spec fn changed_entries(newl: Seq<(String, JsValue)>, oldl: Seq<(String, JsValue)>, n: int) -> Seq<
    (Seq<char>, Option<ValueModel>, Option<ValueModel>, ChangeType),
>
    decreases n,
{
    if n <= 0 {
        seq![]
    } else {
        let prev = changed_entries(newl, oldl, n - 1);
        let name = newl[n - 1].0@;
        let v = newl[n - 1].1@;
        if !first_of_name(newl, n - 1) {
            prev
        } else {
            match local_named(oldl, name) {
                Some(o) => if strictly_equal(o, v) {
                    prev
                } else {
                    prev.push((name, Some(o), Some(v), ChangeType::Modified))
                },
                None => prev.push((name, None, Some(v), ChangeType::Created)),
            }
        }
    }
}

/// The entries for the first `n` locals of the old step that the new step
/// no longer has: each is deleted.
pub open spec fn deleted_entries(oldl: Seq<(String, JsValue)>, newl: Seq<(String, JsValue)>, n: int) -> Seq<
    (Seq<char>, Option<ValueModel>, Option<ValueModel>, ChangeType),
>
    decreases n,
{
    if n <= 0 {
        seq![]
    } else {
        let prev = deleted_entries(oldl, newl, n - 1);
        let name = oldl[n - 1].0@;
        if first_of_name(oldl, n - 1) && local_named(newl, name) is None {
            prev.push((name, Some(oldl[n - 1].1@), None, ChangeType::Deleted))
        } else {
            prev
        }
    }
}

/// The diff between two steps: the created and modified variables in the
/// new step's order, then the deleted ones in the old step's order.
pub open spec fn variable_diff(old: Option<ExecutionRecord>, new: ExecutionRecord) -> Seq<
    (Seq<char>, Option<ValueModel>, Option<ValueModel>, ChangeType),
> {
    let oldl = match old {
        Some(r) => r.locals@,
        None => seq![],
    };
    changed_entries(new.locals@, oldl, new.locals@.len() as int) + deleted_entries(oldl, new.locals@, oldl.len() as int)
}

fn is_first_name(l: &Vec<(String, JsValue)>, j: usize) -> (r: bool)
    requires
        j < l@.len(),
    ensures
        r == first_of_name(l@, j as int),
{
    let mut k: usize = 0;
    while k < j
        invariant
            k <= j < l@.len(),
            forall|m: int| 0 <= m < k ==> (#[trigger] l@[m]).0@ != l@[j as int].0@,
        decreases j - k,
    {
        if crate::text::str_eq(l[k].0.as_str(), l[j].0.as_str()) {
            return false;
        }
        k = k + 1;
    }
    true
}

/// The diff of the variables between an older step (none for the first)
/// and a newer one.
pub fn compute_diff(old: Option<&ExecutionRecord>, new: &ExecutionRecord) -> (r: Vec<VariableDiff>)
    ensures
        r@.map_values(|d: VariableDiff| diff_model(d)) == variable_diff(
            match old {
                Some(o) => Some(*o),
                None => None,
            },
            *new,
        ),
{
    let empty: Vec<(String, JsValue)> = Vec::new();
    let oldl: &Vec<(String, JsValue)> = match old {
        Some(o) => &o.locals,
        None => &empty,
    };
    let ghost ol = oldl@;
    let mut out: Vec<VariableDiff> = Vec::new();
    let mut j: usize = 0;
    while j < new.locals.len()
        invariant
            j <= new.locals@.len(),
            oldl@ == ol,
            out@.map_values(|d: VariableDiff| diff_model(d)) == changed_entries(new.locals@, ol, j as int),
        decreases new.locals.len() - j,
    {
        if is_first_name(&new.locals, j) {
            let name = &new.locals[j].0;
            let v = &new.locals[j].1;
            match crate::debugger::local_value(oldl, name.as_str()) {
                Some(o) => {
                    if !strict_equals(o, v) {
                        out.push(VariableDiff {
                            name: name.clone(),
                            old_value: Some(o.duplicate()),
                            new_value: Some(v.duplicate()),
                            change_type: ChangeType::Modified,
                        });
                    }
                },
                None => {
                    out.push(VariableDiff {
                        name: name.clone(),
                        old_value: None,
                        new_value: Some(v.duplicate()),
                        change_type: ChangeType::Created,
                    });
                },
            }
        }
        assert(out@.map_values(|d: VariableDiff| diff_model(d)) =~= changed_entries(new.locals@, ol, j + 1));
        j = j + 1;
    }
    let ghost changed = out@.map_values(|d: VariableDiff| diff_model(d));
    let ghost mark = out@.len();
    let mut k: usize = 0;
    while k < oldl.len()
        invariant
            k <= ol.len(),
            oldl@ == ol,
            mark <= out@.len(),
            out@.take(mark as int).map_values(|d: VariableDiff| diff_model(d)) == changed,
            out@.skip(mark as int).map_values(|d: VariableDiff| diff_model(d)) == deleted_entries(ol, new.locals@, k as int),
        decreases ol.len() - k,
    {
        if is_first_name(oldl, k) {
            match crate::debugger::local_value(&new.locals, oldl[k].0.as_str()) {
                Some(_) => {},
                None => {
                    let ghost before = out@;
                    out.push(VariableDiff {
                        name: oldl[k].0.clone(),
                        old_value: Some(oldl[k].1.duplicate()),
                        new_value: None,
                        change_type: ChangeType::Deleted,
                    });
                    assert(out@.take(mark as int) =~= before.take(mark as int));
                    assert(out@.skip(mark as int) =~= before.skip(mark as int).push(out@.last()));
                },
            }
        }
        assert(out@.skip(mark as int).map_values(|d: VariableDiff| diff_model(d)) =~= deleted_entries(ol, new.locals@, k + 1));
        k = k + 1;
    }
    assert(out@ =~= out@.take(mark as int) + out@.skip(mark as int));
    assert(out@.map_values(|d: VariableDiff| diff_model(d)) =~= out@.take(mark as int).map_values(|d: VariableDiff| diff_model(d))
        + out@.skip(mark as int).map_values(|d: VariableDiff| diff_model(d)));
    out
}

// ───────────────────────────── Call stack ─────────────────────────────

/// A function call on the stack: its name, the line it was called at, its
/// locals and its arguments.
#[derive(Debug)]
pub struct CallFrame {
    pub name: String,
    pub line: u32,
    pub locals: Vec<(String, JsValue)>,
    pub arguments: Vec<JsValue>,
}

/// The calls in progress, the innermost last.
#[derive(Debug)]
pub struct CallStack {
    frames: Vec<CallFrame>,
}

impl View for CallStack {
    type V = Seq<CallFrame>;

    closed spec fn view(&self) -> Seq<CallFrame> {
        self.frames@
    }
}

impl CallStack {
    /// An empty stack.
    pub fn new() -> (r: Self)
        ensures
            r@.len() == 0,
    {
        CallStack { frames: Vec::new() }
    }

    /// Push a call.
    pub fn push(&mut self, frame: CallFrame)
        ensures
            final(self)@ == old(self)@.push(frame),
    {
        self.frames.push(frame);
    }

    /// Pop the innermost call, if any.
    pub fn pop(&mut self) -> (r: Option<CallFrame>)
        ensures
            match r {
                Some(f) => old(self)@.len() > 0 && f == old(self)@.last() && final(self)@ == old(self)@.drop_last(),
                None => old(self)@.len() == 0 && final(self)@ == old(self)@,
            },
    {
        self.frames.pop()
    }

    /// The innermost call, if any.
    pub fn current(&self) -> (r: Option<&CallFrame>)
        ensures
            match r {
                Some(f) => self@.len() > 0 && *f == self@.last(),
                None => self@.len() == 0,
            },
    {
        if self.frames.len() == 0 {
            None
        } else {
            Some(&self.frames[self.frames.len() - 1])
        }
    }

    /// How many calls are in progress.
    pub fn depth(&self) -> (r: usize)
        ensures
            r == self@.len(),
    {
        self.frames.len()
    }

    /// The calls, innermost first.
    pub fn iter(&self) -> (r: Vec<&CallFrame>)
        ensures
            r@.len() == self@.len(),
            forall|i: int| 0 <= i < r@.len() ==> *#[trigger] r@[i] == self@[self@.len() - 1 - i],
    {
        let n = self.frames.len();
        let mut out: Vec<&CallFrame> = Vec::new();
        let mut i: usize = 0;
        while i < n
            invariant
                n == self.frames@.len(),
                i <= n,
                out@.len() == i,
                forall|k: int| 0 <= k < i ==> *#[trigger] out@[k] == self.frames@[n - 1 - k],
            decreases n - i,
        {
            out.push(&self.frames[n - 1 - i]);
            i = i + 1;
        }
        out
    }

    /// The calls, outermost first.
    pub fn frames(&self) -> (r: &[CallFrame])
        ensures
            r@ == self@,
    {
        self.frames.as_slice()
    }
}

impl Default for CallStack {
    fn default() -> (r: Self)
        ensures
            r@.len() == 0,
    {
        CallStack::new()
    }
}

// ───────────────────────────── Heat map ─────────────────────────────

/// How often each line ran, and the most often any line ran.
#[derive(Debug)]
pub struct ExecutionHeatMap {
    line_counts: LineTable<u64>,
    max_count: u64,
}

impl ExecutionHeatMap {
    /// How often each line ran; a line absent ran never.
    pub closed spec fn counts(&self) -> Map<u32, u64> {
        self.line_counts@
    }

    /// The most often any line ran (0 before any).
    pub closed spec fn top(&self) -> u64 {
        self.max_count
    }

    /// The largest count is that of some line (or 0 where none ran), and no
    /// line ran more often.
    pub closed spec fn wf(&self) -> bool {
        &&& forall|l: u32| #[trigger] self.line_counts@.contains_key(l) ==> self.line_counts@[l] <= self.max_count
        &&& (self.max_count == 0 || exists|l: u32| #[trigger] self.line_counts@.contains_key(l) && self.line_counts@[l]
            == self.max_count)
    }

    /// A map where no line ran yet.
    pub fn new() -> (r: Self)
        ensures
            r.wf(),
            r.counts() == Map::<u32, u64>::empty(),
            r.top() == 0,
    {
        ExecutionHeatMap { line_counts: lines_new(), max_count: 0 }
    }

    /// Count one more run of `line`.
    pub fn record(&mut self, line: u32)
        requires
            old(self).wf(),
            !old(self).counts().contains_key(line) || old(self).counts()[line] < u64::MAX,
        ensures
            final(self).wf(),
            final(self).counts() == old(self).counts().insert(line, (heat_count(old(self).counts(), line) + 1) as u64),
            final(self).top() == if heat_count(old(self).counts(), line) + 1 > old(self).top() {
                (heat_count(old(self).counts(), line) + 1) as u64
            } else {
                old(self).top()
            },
    {
        let c: u64 = match lines_get(&self.line_counts, line) {
            Some(n) => *n + 1,
            None => 1,
        };
        lines_insert(&mut self.line_counts, line, c);
        if c > self.max_count {
            self.max_count = c;
        }
        proof {
            assert(self.line_counts@.contains_key(line) && self.line_counts@[line] == c);
            if self.max_count != c {
                let w = choose|l: u32| #[trigger] old(self).line_counts@.contains_key(l) && old(self).line_counts@[l]
                    == old(self).max_count;
                if old(self).max_count != 0 {
                    if w == line {
                    } else {
                        assert(self.line_counts@.contains_key(w) && self.line_counts@[w] == self.max_count);
                    }
                }
            }
        }
    }

    /// How often `line` ran.
    pub fn count(&self, line: u32) -> (r: u64)
        ensures
            r == heat_count(self.counts(), line),
    {
        match lines_get(&self.line_counts, line) {
            Some(n) => *n,
            None => 0,
        }
    }

    /// The most often any line ran.
    pub fn max_count(&self) -> (r: u64)
        ensures
            r == self.top(),
    {
        self.max_count
    }
}

/// How often `line` ran by the counts: 0 where it is absent.
pub open spec fn heat_count(counts: Map<u32, u64>, line: u32) -> int {
    if counts.contains_key(line) {
        counts[line] as int
    } else {
        0
    }
}

/// No line ran more often than the heat map's top, so a line's share of it
/// is at most whole.
pub proof fn lemma_count_within_top(m: &ExecutionHeatMap, line: u32)
    requires
        m.wf(),
    ensures
        heat_count(m.counts(), line) <= m.top(),
{
}

impl Default for ExecutionHeatMap {
    fn default() -> (r: Self)
        ensures
            r.wf(),
            r.counts() == Map::<u32, u64>::empty(),
            r.top() == 0,
    {
        ExecutionHeatMap::new()
    }
}

// ───────────────────────────── The debugger's views ─────────────────────────────

/// Record `b` is a copy of `a`: the same numbers, texts and values.
pub open spec fn same_record(b: ExecutionRecord, a: ExecutionRecord) -> bool {
    &&& b.step == a.step
    &&& b.opcode == a.opcode
    &&& b.ip == a.ip
    &&& b.line == a.line
    &&& b.stack_size == a.stack_size
    &&& b.description@ == a.description@
    &&& models_of(b.stack_top@) == models_of(a.stack_top@)
    &&& prop_models_of(b.locals@) == prop_models_of(a.locals@)
    &&& prop_models_of(b.globals_changed@) == prop_models_of(a.globals_changed@)
}

/// The record at the debugger's position, if there is one.
pub open spec fn current_of(d: TimeTravelDebugger) -> Option<ExecutionRecord> {
    if d.position() < d.steps().len() {
        Some(d.steps()[d.position() as int])
    } else {
        None
    }
}

/// A copy of each named value, in order.
fn duplicate_named(v: &Vec<(String, JsValue)>) -> (r: Vec<(String, JsValue)>)
    ensures
        prop_models_of(r@) == prop_models_of(v@),
{
    let mut out: Vec<(String, JsValue)> = Vec::new();
    let mut i: usize = 0;
    assert(v@.subrange(0, 0) =~= Seq::<(String, JsValue)>::empty());
    assert(out@ =~= Seq::<(String, JsValue)>::empty());
    while i < v.len()
        invariant
            i <= v@.len(),
            prop_models_of(out@) == prop_models_of(v@.subrange(0, i as int)),
        decreases v.len() - i,
    {
        let c = v[i].1.duplicate();
        let k = v[i].0.clone();
        proof {
            lemma_prop_models_of_push(out@, (k, c));
            lemma_prop_models_of_push(v@.subrange(0, i as int), v@[i as int]);
            assert(v@.subrange(0, i as int).push(v@[i as int]) =~= v@.subrange(0, i + 1));
        }
        out.push((k, c));
        i = i + 1;
    }
    assert(v@.subrange(0, v.len() as int) =~= v@);
    out
}

/// A copy of a record.
fn duplicate_record(e: &ExecutionRecord) -> (r: ExecutionRecord)
    ensures
        same_record(r, *e),
{
    ExecutionRecord {
        step: e.step,
        opcode: e.opcode,
        ip: e.ip,
        line: e.line,
        stack_top: duplicate_values(&e.stack_top),
        stack_size: e.stack_size,
        locals: duplicate_named(&e.locals),
        globals_changed: duplicate_named(&e.globals_changed),
        description: e.description.clone(),
    }
}

/// The debugger with the state of its views: the call stack, the width of
/// the terminal, which panels show, and the record before the last step.
pub struct DebuggerUI {
    debugger: TimeTravelDebugger,
    call_stack: CallStack,
    terminal_width: usize,
    show_timeline: bool,
    show_diff: bool,
    show_call_stack: bool,
    previous_record: Option<ExecutionRecord>,
}

impl DebuggerUI {
    /// The debugger the views show.
    pub closed spec fn session(&self) -> TimeTravelDebugger {
        self.debugger
    }

    /// The calls recorded, the innermost last.
    pub closed spec fn calls(&self) -> Seq<CallFrame> {
        self.call_stack@
    }

    /// The width of the terminal.
    pub closed spec fn width(&self) -> usize {
        self.terminal_width
    }

    /// Whether the timeline, the diff and the call stack show.
    pub closed spec fn panels(&self) -> (bool, bool, bool) {
        (self.show_timeline, self.show_diff, self.show_call_stack)
    }

    /// The record that was current before the last step, if any.
    pub closed spec fn previous(&self) -> Option<ExecutionRecord> {
        self.previous_record
    }

    /// Views of `debugger`: no call recorded, 80 columns wide, every panel
    /// showing, no previous record.
    pub fn new(debugger: TimeTravelDebugger) -> (r: Self)
        ensures
            r.session() == debugger,
            r.calls().len() == 0,
            r.width() == 80,
            r.panels() == (true, true, true),
            r.previous() is None,
    {
        DebuggerUI {
            debugger,
            call_stack: CallStack::new(),
            terminal_width: 80,
            show_timeline: true,
            show_diff: true,
            show_call_stack: true,
            previous_record: None,
        }
    }

    /// Set the width of the terminal.
    pub fn set_width(&mut self, width: usize)
        ensures
            final(self).width() == width,
            final(self).session() == old(self).session(),
            final(self).calls() == old(self).calls(),
            final(self).panels() == old(self).panels(),
            final(self).previous() == old(self).previous(),
    {
        self.terminal_width = width;
    }

    /// Show the timeline if hidden, hide it if shown.
    pub fn toggle_timeline(&mut self)
        ensures
            final(self).panels() == (!old(self).panels().0, old(self).panels().1, old(self).panels().2),
            final(self).session() == old(self).session(),
            final(self).calls() == old(self).calls(),
            final(self).width() == old(self).width(),
            final(self).previous() == old(self).previous(),
    {
        self.show_timeline = !self.show_timeline;
    }

    /// Show the diff if hidden, hide it if shown.
    pub fn toggle_diff(&mut self)
        ensures
            final(self).panels() == (old(self).panels().0, !old(self).panels().1, old(self).panels().2),
            final(self).session() == old(self).session(),
            final(self).calls() == old(self).calls(),
            final(self).width() == old(self).width(),
            final(self).previous() == old(self).previous(),
    {
        self.show_diff = !self.show_diff;
    }

    /// Show the call stack if hidden, hide it if shown.
    pub fn toggle_call_stack(&mut self)
        ensures
            final(self).panels() == (old(self).panels().0, old(self).panels().1, !old(self).panels().2),
            final(self).session() == old(self).session(),
            final(self).calls() == old(self).calls(),
            final(self).width() == old(self).width(),
            final(self).previous() == old(self).previous(),
    {
        self.show_call_stack = !self.show_call_stack;
    }

    /// Keep a copy of the current record as the previous one, then step
    /// forward.
    pub fn step_forward(&mut self) -> (r: Option<&ExecutionRecord>)
        requires
            old(self).session().wf(),
            old(self).session().steps().len() > 0,
        ensures
            final(self).session().wf(),
            final(self).session().steps() == old(self).session().steps(),
            match current_of(old(self).session()) {
                Some(c) => final(self).previous() matches Some(p) && same_record(p, c),
                None => final(self).previous() is None,
            },
            old(self).session().position() + 1 < old(self).session().steps().len() ==> final(self).session().position()
                == old(self).session().position() + 1 && r == Some(
                &final(self).session().steps()[final(self).session().position() as int],
            ),
            old(self).session().position() + 1 >= old(self).session().steps().len() ==> final(self).session().position()
                == old(self).session().position() && r is None,
            final(self).calls() == old(self).calls(),
            final(self).width() == old(self).width(),
            final(self).panels() == old(self).panels(),
    {
        self.previous_record = match self.debugger.current() {
            Some(c) => Some(duplicate_record(c)),
            None => None,
        };
        self.debugger.step_forward()
    }

    /// Keep a copy of the current record as the previous one, then step
    /// back.
    pub fn step_back(&mut self) -> (r: Option<&ExecutionRecord>)
        requires
            old(self).session().wf(),
        ensures
            final(self).session().wf(),
            final(self).session().steps() == old(self).session().steps(),
            match current_of(old(self).session()) {
                Some(c) => final(self).previous() matches Some(p) && same_record(p, c),
                None => final(self).previous() is None,
            },
            old(self).session().position() > 0 ==> final(self).session().position() == old(self).session().position()
                - 1 && r == Some(&final(self).session().steps()[final(self).session().position() as int]),
            old(self).session().position() == 0 ==> final(self).session().position() == 0 && r is None,
            final(self).calls() == old(self).calls(),
            final(self).width() == old(self).width(),
            final(self).panels() == old(self).panels(),
    {
        self.previous_record = match self.debugger.current() {
            Some(c) => Some(duplicate_record(c)),
            None => None,
        };
        self.debugger.step_back()
    }

    /// The current record.
    pub fn current(&self) -> (r: Option<&ExecutionRecord>)
        ensures
            match current_of(self.session()) {
                Some(c) => r == Some(&c),
                None => r is None,
            },
    {
        self.debugger.current()
    }

    /// The debugger the views show.
    pub fn debugger(&self) -> (r: &TimeTravelDebugger)
        ensures
            *r == self.session(),
    {
        &self.debugger
    }

    /// The debugger the views show, to change it.
    pub fn debugger_mut(&mut self) -> (r: &mut TimeTravelDebugger)
        ensures
            *r == old(self).session(),
            final(self).session() == *final(r),
            final(self).calls() == old(self).calls(),
            final(self).width() == old(self).width(),
            final(self).panels() == old(self).panels(),
            final(self).previous() == old(self).previous(),
    {
        &mut self.debugger
    }

    /// Record a call: push its frame.
    pub fn record_call(&mut self, name: &str, line: u32, locals: Vec<(String, JsValue)>, args: Vec<JsValue>)
        ensures
            final(self).calls().len() == old(self).calls().len() + 1,
            final(self).calls().drop_last() == old(self).calls(),
            final(self).calls().last().name@ == name@,
            final(self).calls().last().line == line,
            final(self).calls().last().locals == locals,
            final(self).calls().last().arguments == args,
            final(self).session() == old(self).session(),
            final(self).width() == old(self).width(),
            final(self).panels() == old(self).panels(),
            final(self).previous() == old(self).previous(),
    {
        self.call_stack.push(CallFrame { name: string_of(name), line, locals, arguments: args });
    }

    /// Record a return: pop the innermost frame, if any.
    pub fn record_return(&mut self) -> (r: Option<CallFrame>)
        ensures
            match r {
                Some(f) => old(self).calls().len() > 0 && f == old(self).calls().last() && final(self).calls()
                    == old(self).calls().drop_last(),
                None => old(self).calls().len() == 0 && final(self).calls() == old(self).calls(),
            },
            final(self).session() == old(self).session(),
            final(self).width() == old(self).width(),
            final(self).panels() == old(self).panels(),
            final(self).previous() == old(self).previous(),
    {
        self.call_stack.pop()
    }
}

} // verus!
