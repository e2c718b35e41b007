//! Conditions of conditional breakpoints: a variable compared with a text,
//! or a variable alone, read against the variables at a line.
use vstd::prelude::*;
use std::collections::HashMap;
use crate::debugger::{
    TimeTravelDebugger, ConditionalBreakpoint, hit_condition_holds, hit_condition_met, variable_entries,
    variables_get,
};
use crate::debugger::server::{trimmed, trim_text};
use crate::debugger::console::is_space;
use crate::text::{chars_of, str_eq, string_from_chars};

verus! {

/// What `str::parse` makes of the two texts as doubles, compared: whether
/// the first is less than, equal to, or greater than the second (all false
/// where either is not a number); `None` where either text does not parse.
pub uninterp spec fn numbers_compared_of(a: Seq<char>, b: Seq<char>) -> Option<(bool, bool, bool)>;

/// Parses both texts with `str::parse` into doubles (the type that
/// `serde_json::Number::from_f64` takes) and compares them with `<`, `==`
/// and `>`.
#[verifier::external_body]
fn compare_numbers(a: &str, b: &str) -> (r: Option<(bool, bool, bool)>)
    ensures
        r == numbers_compared_of(a@, b@),
{
    let x = a.parse().ok()?;
    let y = b.parse().ok()?;
    let _ = serde_json::Number::from_f64(x);
    Some((x < y, x == y, x > y))
}

/// The operators a condition may use, in the order they are looked for.
pub open spec fn condition_ops() -> Seq<Seq<char>> {
    seq!["=="@, "!="@, ">="@, "<="@, ">"@, "<"@]
}

/// `pat` occurs in `s` at `i`.
pub open spec fn occurs_at(s: Seq<char>, pat: Seq<char>, i: int) -> bool {
    0 <= i && i + pat.len() <= s.len() && s.subrange(i, i + pat.len()) == pat
}

/// Where `pat` first occurs in `s`.
pub open spec fn first_occurrence(s: Seq<char>, pat: Seq<char>) -> Option<int> {
    if exists|i: int| occurs_at(s, pat, i) {
        Some(choose|i: int| occurs_at(s, pat, i) && forall|j: int| 0 <= j < i ==> !occurs_at(s, pat, j))
    } else {
        None
    }
}

/// The first operator, from place `k` of [`condition_ops`] on, that occurs
/// in `c`, by its place.
pub open spec fn first_op(c: Seq<char>, k: int) -> Option<int>
    decreases 6 - k,
{
    if k >= 6 || k < 0 {
        None
    } else if first_occurrence(c, condition_ops()[k]) is Some {
        Some(k)
    } else {
        first_op(c, k + 1)
    }
}

/// Whether operator `k` holds between the actual and the expected text:
/// `==` and `!=` compare the texts; the others compare them as numbers and
/// fail where either is not one.
pub open spec fn op_holds(k: int, actual: Seq<char>, expected: Seq<char>) -> bool {
    if k == 0 {
        actual == expected
    } else if k == 1 {
        actual != expected
    } else {
        match numbers_compared_of(actual, expected) {
            None => false,
            Some((lt, eq, gt)) => if k == 2 {
                gt || eq
            } else if k == 3 {
                lt || eq
            } else if k == 4 {
                gt
            } else {
                lt
            },
        }
    }
}

/// A value that counts as true: not empty, `0`, `false`, `undefined` or
/// `null`.
pub open spec fn truthy(v: Seq<char>) -> bool {
    v.len() > 0 && v != "0"@ && v != "false"@ && v != "undefined"@ && v != "null"@
}

/// Whether a condition holds for the variables `vars`.  With an operator
/// (the first of [`condition_ops`] that occurs, at its first place), the
/// trimmed text before it names a variable, which must exist and compare
/// with the trimmed text after it; without one, the trimmed condition
/// names a variable, which must exist and be [`truthy`].
pub open spec fn condition_holds(cond: Seq<char>, vars: Map<Seq<char>, Seq<char>>) -> bool {
    let c = trimmed(cond);
    match first_op(c, 0) {
        Some(k) => split_holds(c, k, first_occurrence(c, condition_ops()[k])->0, vars),
        None => vars.contains_key(c) && truthy(vars[c]),
    }
}

/// Whether the condition text `c`, split at `i` around operator `k`, holds:
/// the variable named by the trimmed text before exists and compares with
/// the trimmed text after.
pub open spec fn split_holds(c: Seq<char>, k: int, i: int, vars: Map<Seq<char>, Seq<char>>) -> bool {
    let name = trimmed(c.subrange(0, i));
    let expected = trimmed(c.subrange(i + condition_ops()[k].len(), c.len() as int));
    vars.contains_key(name) && op_holds(k, vars[name], expected)
}

/// Whether the condition text `c`, split at `i` around operator `k`,
/// holds, as [`split_holds`] says.
fn holds_split(c: &Vec<char>, k: usize, i: usize, variables: &HashMap<String, String>) -> (r: bool)
    requires
        k < 6,
        i + condition_ops()[k as int].len() <= c@.len(),
    ensures
        r == split_holds(c@, k as int, i as int, variable_entries(*variables)),
{
    let op = chars_of(op_text(k));
    let n = c.len();
    let name_chars = slice_chars(c, 0, i);
    let rest = slice_chars(c, i + op.len(), n);
    let name = trim_text(string_from_chars(&name_chars).as_str());
    let expected = trim_text(string_from_chars(&rest).as_str());
    match variables_get(variables, name.as_str()) {
        Some(actual) => op_result(k, actual.as_str(), expected.as_str()),
        None => false,
    }
}

/// Whether the breakpoint stops at `line` with the variables `vars`: it is
/// at that line and enabled, its condition (if any) holds, and its hit
/// condition (if any) holds of its hit count.
pub open spec fn breaks_at(bp: ConditionalBreakpoint, line: usize, vars: Map<Seq<char>, Seq<char>>) -> bool {
    &&& bp.line == line
    &&& bp.enabled
    &&& (bp.condition matches Some(c) ==> condition_holds(c@, vars))
    &&& (bp.hit_condition matches Some(hc) ==> hit_condition_holds(hc, bp.hit_count))
}

/// Whether the characters `pat` occur in `s` at `i`.
fn occurs_here(s: &Vec<char>, pat: &Vec<char>, i: usize) -> (r: bool)
    requires
        i + pat@.len() <= s@.len(),
    ensures
        r == occurs_at(s@, pat@, i as int),
{
    let n = s.len();
    let mut k: usize = 0;
    while k < pat.len()
        invariant
            n == s@.len(),
            i + pat@.len() <= s@.len(),
            k <= pat@.len(),
            forall|q: int| 0 <= q < k ==> s@[i + q] == pat@[q],
        decreases pat.len() - k,
    {
        if s[i + k] != pat[k] {
            assert(!occurs_at(s@, pat@, i as int)) by {
                if s@.subrange(i as int, i + pat@.len()) == pat@ {
                    assert(s@.subrange(i as int, i + pat@.len())[k as int] == s@[i + k]);
                }
            }
            return false;
        }
        k = k + 1;
    }
    assert(s@.subrange(i as int, i + pat@.len()) =~= pat@);
    true
}

/// Where the characters `pat` first occur in `s`.
fn find_text(s: &Vec<char>, pat: &Vec<char>) -> (r: Option<usize>)
    requires
        pat@.len() > 0,
    ensures
        match r {
            Some(i) => first_occurrence(s@, pat@) == Some(i as int) && occurs_at(s@, pat@, i as int),
            None => first_occurrence(s@, pat@) is None,
        },
{
    let n = s.len();
    let m = pat.len();
    if m > n {
        assert forall|i: int| !occurs_at(s@, pat@, i) by {}
        return None;
    }
    let last = n - m;
    let mut i: usize = 0;
    while i <= last
        invariant
            n == s@.len(),
            m == pat@.len(),
            m > 0,
            m <= n,
            last == n - m,
            i <= last + 1,
            forall|j: int| 0 <= j < i ==> !occurs_at(s@, pat@, j),
        decreases last + 1 - i,
    {
        if occurs_here(s, pat, i) {
            return Some(i);
        }
        i = i + 1;
    }
    assert forall|j: int| !occurs_at(s@, pat@, j) by {
        if 0 <= j && j < i {
        }
    }
    None
}

/// The operator at place `k` of [`condition_ops`].
fn op_text(k: usize) -> (r: &'static str)
    requires
        k < 6,
    ensures
        r@ == condition_ops()[k as int],
        1 <= r@.len() <= 2,
{
    proof {
        reveal_strlit("==");
        reveal_strlit("!=");
        reveal_strlit(">=");
        reveal_strlit("<=");
        reveal_strlit(">");
        reveal_strlit("<");
    }
    if k == 0 {
        "=="
    } else if k == 1 {
        "!="
    } else if k == 2 {
        ">="
    } else if k == 3 {
        "<="
    } else if k == 4 {
        ">"
    } else {
        "<"
    }
}

/// Whether a condition holds for the variables, as [`condition_holds`] says.
pub fn evaluate_condition(condition: &str, variables: &HashMap<String, String>) -> (r: bool)
    ensures
        r == condition_holds(condition@, variable_entries(*variables)),
{
    let t = trim_text(condition);
    let c = chars_of(t.as_str());
    let mut k: usize = 0;
    while k < 6
        invariant
            c@ == trimmed(condition@),
            t@ == trimmed(condition@),
            k <= 6,
            first_op(c@, 0) == first_op(c@, k as int),
        decreases 6 - k,
    {
        let op = chars_of(op_text(k));
        match find_text(&c, &op) {
            Some(i) => {
                assert(first_op(c@, k as int) == Some(k as int));
                return holds_split(&c, k, i, variables);
            },
            None => {
                assert(first_op(c@, k as int) == first_op(c@, k + 1));
            },
        }
        k = k + 1;
    }
    match variables_get(variables, t.as_str()) {
        Some(v) => {
            proof {
                reveal_strlit("");
                reveal_strlit("0");
                reveal_strlit("false");
                reveal_strlit("undefined");
                reveal_strlit("null");
            }
            let empty = str_eq(v.as_str(), "");
            proof {
                if v@.len() == 0 {
                    assert(v@ =~= ""@);
                }
            }
            !empty && !str_eq(v.as_str(), "0") && !str_eq(v.as_str(), "false") && !str_eq(v.as_str(), "undefined")
                && !str_eq(v.as_str(), "null")
        },
        None => false,
    }
}

/// Whether operator `k` holds between the texts, as [`op_holds`] says.
fn op_result(k: usize, actual: &str, expected: &str) -> (r: bool)
    requires
        k < 6,
    ensures
        r == op_holds(k as int, actual@, expected@),
{
    if k == 0 {
        str_eq(actual, expected)
    } else if k == 1 {
        !str_eq(actual, expected)
    } else {
        match compare_numbers(actual, expected) {
            None => false,
            Some((lt, eq, gt)) => if k == 2 {
                gt || eq
            } else if k == 3 {
                lt || eq
            } else if k == 4 {
                gt
            } else {
                lt
            },
        }
    }
}

/// The characters of `s` from `lo` up to `hi`.
fn slice_chars(s: &Vec<char>, lo: usize, hi: usize) -> (r: Vec<char>)
    requires
        lo <= hi <= s@.len(),
    ensures
        r@ == s@.subrange(lo as int, hi as int),
{
    let mut out: Vec<char> = Vec::new();
    let mut i: usize = lo;
    while i < hi
        invariant
            lo <= i <= hi,
            hi <= s@.len(),
            out@ == s@.subrange(lo as int, i as int),
        decreases hi - i,
    {
        out.push(s[i]);
        i = i + 1;
    }
    out
}

impl TimeTravelDebugger {
    /// Whether execution stops at `line` with the variables `variables`:
    /// whether some conditional breakpoint there, enabled, has its
    /// condition and hit condition hold.
    pub fn should_break_at_line(&self, line: usize, variables: &HashMap<String, String>) -> (r: bool)
        ensures
            r == exists|i: int|
                0 <= i < self.conditionals().len() && #[trigger] breaks_at(
                    self.conditionals()[i],
                    line,
                    variable_entries(*variables),
                ),
    {
        let bps = self.conditional_breakpoints();
        let mut i: usize = 0;
        while i < bps.len()
            invariant
                i <= bps@.len(),
                bps@ == self.conditionals(),
                forall|j: int| 0 <= j < i ==> !#[trigger] breaks_at(bps@[j], line, variable_entries(*variables)),
            decreases bps.len() - i,
        {
            let bp = &bps[i];
            let mut stops = bp.line == line && bp.enabled;
            if stops {
                match &bp.condition {
                    Some(c) => {
                        stops = evaluate_condition(c.as_str(), variables);
                    },
                    None => {},
                }
            }
            if stops {
                match bp.hit_condition {
                    Some(hc) => {
                        stops = hit_condition_met(hc, bp.hit_count);
                    },
                    None => {},
                }
            }
            if stops {
                assert(breaks_at(bps@[i as int], line, variable_entries(*variables)));
                return true;
            }
            i = i + 1;
        }
        false
    }
}

// ───────────────────────────── What a condition means ─────────────────────────────

/// A word a condition can name or compare with: no white space and none of
/// the characters the operators are made of.
pub open spec fn plain_word(w: Seq<char>) -> bool {
    forall|i: int| 0 <= i < w.len() ==> plain_char(#[trigger] w[i])
}

/// A text none of whose characters is `ch` occurs nowhere a pattern holding
/// `ch` does.
proof fn lemma_absent_char(s: Seq<char>, pat: Seq<char>, p: int)
    requires
        0 <= p < pat.len(),
        forall|i: int| 0 <= i < s.len() ==> s[i] != pat[p],
    ensures
        first_occurrence(s, pat) is None,
{
    assert forall|i: int| !occurs_at(s, pat, i) by {
        if occurs_at(s, pat, i) {
            assert(s.subrange(i, i + pat.len())[p] == s[i + p]);
        }
    }
}

/// A text holding `=` at most at place `q` has no `==`.
proof fn lemma_no_double_equals(s: Seq<char>, q: int)
    requires
        forall|i: int| 0 <= i < s.len() && i != q ==> s[i] != '=',
    ensures
        first_occurrence(s, "=="@) is None,
{
    reveal_strlit("==");
    assert forall|i: int| !occurs_at(s, "=="@, i) by {
        if occurs_at(s, "=="@, i) {
            assert(s.subrange(i, i + 2)[0] == s[i]);
            assert(s.subrange(i, i + 2)[1] == s[i + 1]);
        }
    }
}

/// With no operator before place `k` occurring, the first operator is `k`
/// once it occurs.
proof fn lemma_first_op_at(c: Seq<char>, a: int, k: int)
    requires
        0 <= a <= k < 6,
        forall|j: int| a <= j < k ==> first_occurrence(c, #[trigger] condition_ops()[j]) is None,
        first_occurrence(c, condition_ops()[k]) is Some,
    ensures
        first_op(c, a) == Some(k),
    decreases k - a,
{
    if a < k {
        lemma_first_op_at(c, a + 1, k);
        assert(first_occurrence(c, condition_ops()[a]) is None);
    }
}

/// A plain word is its own trimming.
proof fn lemma_plain_trimmed(w: Seq<char>)
    requires
        plain_word(w),
    ensures
        trimmed(w) == w,
{
    if w.len() > 0 {
        assert(!is_space(w[0]));
        assert(!is_space(w[w.len() - 1]));
    }
}

/// The condition `n op b`, with plain words `n` and `b` and the operator at
/// place `k`, where no earlier operator occurs, splits at the end of `n`.
proof fn lemma_split_condition(n: Seq<char>, b: Seq<char>, k: int, vars: Map<Seq<char>, Seq<char>>)
    requires
        plain_word(n),
        plain_word(b),
        0 <= k < 6,
        forall|j: int| 0 <= j < k ==> first_occurrence(n + condition_ops()[k] + b, #[trigger] condition_ops()[j]) is None,
    ensures
        condition_holds(n + condition_ops()[k] + b, vars) == (vars.contains_key(n) && op_holds(k, vars[n], b)),
{
    reveal_strlit("==");
    reveal_strlit("!=");
    reveal_strlit(">=");
    reveal_strlit("<=");
    reveal_strlit(">");
    reveal_strlit("<");
    let op = condition_ops()[k];
    let c = n + op + b;
    assert(op.len() >= 1);
    assert(forall|t: int| 0 <= t < op.len() ==> !is_space(#[trigger] op[t]) && (op[t] == '=' || op[t] == '!' || op[t]
        == '<' || op[t] == '>'));
    assert(c.len() > 0);
    assert(!is_space(c[0])) by {
        if n.len() > 0 {
            assert(c[0] == n[0]);
        } else {
            assert(c[0] == op[0]);
        }
    }
    assert(!is_space(c[c.len() - 1])) by {
        if b.len() > 0 {
            assert(c[c.len() - 1] == b[b.len() - 1]);
        } else {
            assert(c[c.len() - 1] == op[op.len() - 1]);
        }
    }
    assert(trimmed(c) == c);
    let i = n.len() as int;
    assert(c.subrange(i, i + op.len()) =~= op);
    assert(occurs_at(c, op, i));
    assert forall|j: int| 0 <= j < i implies !occurs_at(c, op, j) by {
        if occurs_at(c, op, j) {
            assert(c.subrange(j, j + op.len())[0] == c[j]);
            assert(c[j] == n[j]);
        }
    }
    let f = choose|x: int| occurs_at(c, op, x) && forall|j: int| 0 <= j < x ==> !occurs_at(c, op, j);
    assert(occurs_at(c, op, f) && forall|j: int| 0 <= j < f ==> !occurs_at(c, op, j));
    if f < i {
    } else if f > i {
        assert(!occurs_at(c, op, i));
    }
    assert(first_occurrence(c, op) == Some(i));
    lemma_first_op_at(c, 0, k);
    assert(c.subrange(0, i) =~= n);
    assert(c.subrange(i + op.len(), c.len() as int) =~= b);
    lemma_plain_trimmed(n);
    lemma_plain_trimmed(b);
}

/// The characters of `n op b` for plain words: `n`'s, then the operator's,
/// then `b`'s.
proof fn lemma_condition_chars(n: Seq<char>, op: Seq<char>, b: Seq<char>)
    requires
        plain_word(n),
        plain_word(b),
    ensures
        forall|i: int|
            0 <= i < (n + op + b).len() ==> #[trigger] (n + op + b)[i] == if i < n.len() {
                n[i]
            } else if i < n.len() + op.len() {
                op[i - n.len()]
            } else {
                b[i - n.len() - op.len()]
            },
        forall|i: int|
            0 <= i < (n + op + b).len() && !(n.len() <= i < n.len() + op.len()) ==> plain_char(#[trigger] (n + op + b)[i]),
{
    assert forall|i: int| 0 <= i < (n + op + b).len() && !(n.len() <= i < n.len() + op.len()) implies plain_char(
        #[trigger] (n + op + b)[i],
    ) by {
        if i < n.len() {
            assert(plain_char(n[i]));
        } else {
            assert(plain_char(b[i - n.len() - op.len()]));
        }
    }
}

/// A character of a plain word.
pub open spec fn plain_char(ch: char) -> bool {
    !is_space(ch) && ch != '=' && ch != '!' && ch != '<' && ch != '>'
}

proof fn lemma_meaning_eq(n: Seq<char>, b: Seq<char>, vars: Map<Seq<char>, Seq<char>>)
    requires
        plain_word(n),
        plain_word(b),
    ensures
        condition_holds(n + "=="@ + b, vars) == (vars.contains_key(n) && vars[n] == b),
{
    reveal_strlit("==");
    lemma_split_condition(n, b, 0, vars);
}

proof fn lemma_meaning_ne(n: Seq<char>, b: Seq<char>, vars: Map<Seq<char>, Seq<char>>)
    requires
        plain_word(n),
        plain_word(b),
    ensures
        condition_holds(n + "!="@ + b, vars) == (vars.contains_key(n) && vars[n] != b),
{
    reveal_strlit("!=");
    let c = n + "!="@ + b;
    lemma_condition_chars(n, "!="@, b);
    lemma_no_double_equals(c, n.len() as int + 1);
    lemma_split_condition(n, b, 1, vars);
}

#[verifier::spinoff_prover]
#[verifier::rlimit(60)]
proof fn lemma_meaning_ge(n: Seq<char>, b: Seq<char>, vars: Map<Seq<char>, Seq<char>>)
    requires
        plain_word(n),
        plain_word(b),
    ensures
        condition_holds(n + ">="@ + b, vars) == (vars.contains_key(n) && (numbers_compared_of(vars[n], b) matches Some(
            (lt, eq, gt),
        ) && (gt || eq))),
{
    reveal_strlit(">=");
    reveal_strlit("!=");
    let c = n + ">="@ + b;
    lemma_condition_chars(n, ">="@, b);
    lemma_no_double_equals(c, n.len() as int + 1);
    lemma_absent_char(c, "!="@, 0);
    lemma_split_condition(n, b, 2, vars);
}

#[verifier::spinoff_prover]
#[verifier::rlimit(60)]
proof fn lemma_meaning_le(n: Seq<char>, b: Seq<char>, vars: Map<Seq<char>, Seq<char>>)
    requires
        plain_word(n),
        plain_word(b),
    ensures
        condition_holds(n + "<="@ + b, vars) == (vars.contains_key(n) && (numbers_compared_of(vars[n], b) matches Some(
            (lt, eq, gt),
        ) && (lt || eq))),
{
    reveal_strlit("<=");
    reveal_strlit("!=");
    reveal_strlit(">=");
    let c = n + "<="@ + b;
    lemma_condition_chars(n, "<="@, b);
    lemma_no_double_equals(c, n.len() as int + 1);
    lemma_absent_char(c, "!="@, 0);
    lemma_absent_char(c, ">="@, 0);
    lemma_split_condition(n, b, 3, vars);
}

#[verifier::spinoff_prover]
#[verifier::rlimit(60)]
proof fn lemma_meaning_gt(n: Seq<char>, b: Seq<char>, vars: Map<Seq<char>, Seq<char>>)
    requires
        plain_word(n),
        plain_word(b),
    ensures
        condition_holds(n + ">"@ + b, vars) == (vars.contains_key(n) && (numbers_compared_of(vars[n], b) matches Some(
            (lt, eq, gt),
        ) && gt)),
{
    reveal_strlit("==");
    reveal_strlit("!=");
    reveal_strlit(">=");
    reveal_strlit("<=");
    reveal_strlit(">");
    let c = n + ">"@ + b;
    lemma_condition_chars(n, ">"@, b);
    lemma_absent_char(c, "=="@, 0);
    lemma_absent_char(c, "!="@, 1);
    lemma_absent_char(c, ">="@, 1);
    lemma_absent_char(c, "<="@, 1);
    lemma_split_condition(n, b, 4, vars);
}

#[verifier::spinoff_prover]
#[verifier::rlimit(60)]
proof fn lemma_meaning_lt(n: Seq<char>, b: Seq<char>, vars: Map<Seq<char>, Seq<char>>)
    requires
        plain_word(n),
        plain_word(b),
    ensures
        condition_holds(n + "<"@ + b, vars) == (vars.contains_key(n) && (numbers_compared_of(vars[n], b) matches Some(
            (lt, eq, gt),
        ) && lt)),
{
    reveal_strlit("==");
    reveal_strlit("!=");
    reveal_strlit(">=");
    reveal_strlit("<=");
    reveal_strlit(">");
    reveal_strlit("<");
    let c = n + "<"@ + b;
    lemma_condition_chars(n, "<"@, b);
    lemma_absent_char(c, "=="@, 0);
    lemma_absent_char(c, "!="@, 1);
    lemma_absent_char(c, ">="@, 1);
    lemma_absent_char(c, "<="@, 1);
    lemma_absent_char(c, ">"@, 0);
    lemma_split_condition(n, b, 5, vars);
}

proof fn lemma_meaning_word(n: Seq<char>, vars: Map<Seq<char>, Seq<char>>)
    requires
        plain_word(n),
    ensures
        condition_holds(n, vars) == (vars.contains_key(n) && vars[n].len() > 0 && vars[n] != "0"@ && vars[n] != "false"@
            && vars[n] != "undefined"@ && vars[n] != "null"@),
{
    reveal_strlit("==");
    reveal_strlit("!=");
    reveal_strlit(">=");
    reveal_strlit("<=");
    reveal_strlit(">");
    reveal_strlit("<");
    lemma_plain_trimmed(n);
    assert forall|i: int| 0 <= i < n.len() implies plain_char(#[trigger] n[i]) by {}
    lemma_absent_char(n, "=="@, 0);
    lemma_absent_char(n, "!="@, 0);
    lemma_absent_char(n, ">="@, 0);
    lemma_absent_char(n, "<="@, 0);
    lemma_absent_char(n, ">"@, 0);
    lemma_absent_char(n, "<"@, 0);
    lemma_no_op(n, 0);
}

/// What a condition means, for plain words `n` and `b`: `n op b` needs the
/// variable `n`; `==` and `!=` compare its text with `b`; `<`, `>`, `<=`
/// and `>=` compare the two as numbers, strictly for `<` and `>` (false
/// where either is not a number).  A plain word alone holds where the
/// variable exists and is not empty, `0`, `false`, `undefined` or `null`.
pub proof fn lemma_condition_meaning(n: Seq<char>, b: Seq<char>, vars: Map<Seq<char>, Seq<char>>)
    requires
        plain_word(n),
        plain_word(b),
    ensures
        condition_holds(n + "=="@ + b, vars) == (vars.contains_key(n) && vars[n] == b),
        condition_holds(n + "!="@ + b, vars) == (vars.contains_key(n) && vars[n] != b),
        condition_holds(n + "<"@ + b, vars) == (vars.contains_key(n) && (numbers_compared_of(vars[n], b) matches Some(
            (lt, eq, gt),
        ) && lt)),
        condition_holds(n + ">"@ + b, vars) == (vars.contains_key(n) && (numbers_compared_of(vars[n], b) matches Some(
            (lt, eq, gt),
        ) && gt)),
        condition_holds(n + "<="@ + b, vars) == (vars.contains_key(n) && (numbers_compared_of(vars[n], b) matches Some(
            (lt, eq, gt),
        ) && (lt || eq))),
        condition_holds(n + ">="@ + b, vars) == (vars.contains_key(n) && (numbers_compared_of(vars[n], b) matches Some(
            (lt, eq, gt),
        ) && (gt || eq))),
        condition_holds(n, vars) == (vars.contains_key(n) && vars[n].len() > 0 && vars[n] != "0"@ && vars[n] != "false"@
            && vars[n] != "undefined"@ && vars[n] != "null"@),
{
    lemma_meaning_eq(n, b, vars);
    lemma_meaning_ne(n, b, vars);
    lemma_meaning_lt(n, b, vars);
    lemma_meaning_gt(n, b, vars);
    lemma_meaning_le(n, b, vars);
    lemma_meaning_ge(n, b, vars);
    lemma_meaning_word(n, vars);
}

/// Where no operator occurs from place `a` on, there is none.
proof fn lemma_no_op(c: Seq<char>, a: int)
    requires
        0 <= a <= 6,
        forall|j: int| a <= j < 6 ==> first_occurrence(c, #[trigger] condition_ops()[j]) is None,
    ensures
        first_op(c, a) is None,
    decreases 6 - a,
{
    if a < 6 {
        lemma_no_op(c, a + 1);
        assert(first_occurrence(c, condition_ops()[a]) is None);
    }
}

/// A character that is none of those the operators are made of.
pub open spec fn op_free(ch: char) -> bool {
    ch != '=' && ch != '!' && ch != '<' && ch != '>'
}

/// Every character of `w` is white space.
pub open spec fn all_spaces(w: Seq<char>) -> bool {
    forall|i: int| 0 <= i < w.len() ==> is_space(#[trigger] w[i])
}

/// Trimming drops the white space around a text that neither starts nor
/// ends with white space.
proof fn lemma_trim_around(a: Seq<char>, w: Seq<char>, z: Seq<char>)
    requires
        all_spaces(a),
        all_spaces(z),
        w.len() > 0,
        !is_space(w[0]),
        !is_space(w[w.len() - 1]),
    ensures
        trimmed(a + w + z) == w,
    decreases a.len() + z.len(),
{
    let s = a + w + z;
    if a.len() > 0 {
        assert(s[0] == a[0]);
        assert(is_space(a[0]));
        assert(s.drop_first() =~= a.drop_first() + w + z);
        lemma_trim_around(a.drop_first(), w, z);
    } else if z.len() > 0 {
        assert(s[0] == w[0]);
        assert(s[s.len() - 1] == z[z.len() - 1]);
        assert(is_space(z[z.len() - 1]));
        assert(s.drop_last() =~= a + w + z.drop_last());
        lemma_trim_around(a, w, z.drop_last());
    } else {
        assert(s =~= w);
    }
}

/// The condition whose trimming is `u op v`, with the operator at place
/// `k`, no earlier operator occurring, and no operator character in `u` or
/// `v`, compares the variable named by the trimmed `u` with the trimmed `v`.
proof fn lemma_split_spaced(cond: Seq<char>, u: Seq<char>, v: Seq<char>, k: int, vars: Map<Seq<char>, Seq<char>>)
    requires
        0 <= k < 6,
        trimmed(cond) == u + condition_ops()[k] + v,
        forall|i: int| 0 <= i < u.len() ==> op_free(#[trigger] u[i]),
        forall|j: int| 0 <= j < k ==> first_occurrence(u + condition_ops()[k] + v, #[trigger] condition_ops()[j]) is None,
    ensures
        condition_holds(cond, vars) == (vars.contains_key(trimmed(u)) && op_holds(k, vars[trimmed(u)], trimmed(v))),
{
    reveal_strlit("==");
    reveal_strlit("!=");
    reveal_strlit(">=");
    reveal_strlit("<=");
    reveal_strlit(">");
    reveal_strlit("<");
    let op = condition_ops()[k];
    let c = u + op + v;
    assert(op.len() >= 1);
    assert(!op_free(op[0]));
    let i = u.len() as int;
    assert(c.subrange(i, i + op.len()) =~= op);
    assert(occurs_at(c, op, i));
    assert forall|j: int| 0 <= j < i implies !occurs_at(c, op, j) by {
        if occurs_at(c, op, j) {
            assert(c.subrange(j, j + op.len())[0] == c[j]);
            assert(c[j] == u[j]);
        }
    }
    let f = choose|x: int| occurs_at(c, op, x) && forall|j: int| 0 <= j < x ==> !occurs_at(c, op, j);
    assert(occurs_at(c, op, f) && forall|j: int| 0 <= j < f ==> !occurs_at(c, op, j));
    if f < i {
    } else if f > i {
        assert(!occurs_at(c, op, i));
    }
    assert(first_occurrence(c, op) == Some(i));
    lemma_first_op_at(c, 0, k);
    assert(c.subrange(0, i) =~= u);
    assert(c.subrange(i + op.len(), c.len() as int) =~= v);
}

/// The characters of `u op v`: `u`'s, the operator's, then `v`'s.
proof fn lemma_spaced_chars(u: Seq<char>, op: Seq<char>, v: Seq<char>)
    requires
        forall|i: int| 0 <= i < u.len() ==> op_free(#[trigger] u[i]),
        forall|i: int| 0 <= i < v.len() ==> op_free(#[trigger] v[i]),
    ensures
        forall|i: int|
            0 <= i < (u + op + v).len() && !(u.len() <= i < u.len() + op.len()) ==> op_free(#[trigger] (u + op + v)[i]),
        forall|t: int| 0 <= t < op.len() ==> (u + op + v)[u.len() + t] == op[t],
{
    assert forall|i: int| 0 <= i < (u + op + v).len() && !(u.len() <= i < u.len() + op.len()) implies op_free(
        #[trigger] (u + op + v)[i],
    ) by {
        if i < u.len() {
            assert((u + op + v)[i] == u[i]);
        } else {
            assert((u + op + v)[i] == v[i - u.len() - op.len()]);
        }
    }
}

/// The parts of a spaced condition `a n s op t b z`: white space `a`, `s`,
/// `t` and `z` around plain, non-empty words `n` and `b`.
pub open spec fn spaced_parts(a: Seq<char>, n: Seq<char>, s: Seq<char>, t: Seq<char>, b: Seq<char>, z: Seq<char>) -> bool {
    &&& all_spaces(a)
    &&& all_spaces(s)
    &&& all_spaces(t)
    &&& all_spaces(z)
    &&& plain_word(n)
    &&& plain_word(b)
    &&& n.len() > 0
    &&& b.len() > 0
}

/// What trimming and splitting a spaced condition gives.
proof fn lemma_spaced_setup(
    a: Seq<char>,
    n: Seq<char>,
    s: Seq<char>,
    op: Seq<char>,
    t: Seq<char>,
    b: Seq<char>,
    z: Seq<char>,
)
    requires
        spaced_parts(a, n, s, t, b, z),
    ensures
        trimmed(a + (n + s) + op + (t + b) + z) == (n + s) + op + (t + b),
        trimmed(n + s) == n,
        trimmed(t + b) == b,
        forall|i: int| 0 <= i < (n + s).len() ==> op_free(#[trigger] (n + s)[i]),
        forall|i: int| 0 <= i < (t + b).len() ==> op_free(#[trigger] (t + b)[i]),
{
    let u = n + s;
    let v = t + b;
    let w = u + op + v;
    assert(!is_space(n[0]) && !is_space(n[n.len() - 1]));
    assert(!is_space(b[0]) && !is_space(b[b.len() - 1]));
    assert(w[0] == n[0]);
    assert(w[w.len() - 1] == b[b.len() - 1]);
    assert(a + (n + s) + op + (t + b) + z =~= a + w + z);
    lemma_trim_around(a, w, z);
    assert(Seq::<char>::empty() + n + s =~= n + s);
    lemma_trim_around(Seq::<char>::empty(), n, s);
    assert(t + b + Seq::<char>::empty() =~= t + b);
    lemma_trim_around(t, b, Seq::<char>::empty());
    assert forall|i: int| 0 <= i < u.len() implies op_free(#[trigger] u[i]) by {
        if i < n.len() {
            assert(u[i] == n[i]);
            assert(plain_char(n[i]));
        } else {
            assert(u[i] == s[i - n.len()]);
            assert(is_space(s[i - n.len()]));
        }
    }
    assert forall|i: int| 0 <= i < v.len() implies op_free(#[trigger] v[i]) by {
        if i < t.len() {
            assert(v[i] == t[i]);
            assert(is_space(t[i]));
        } else {
            assert(v[i] == b[i - t.len()]);
            assert(plain_char(b[i - t.len()]));
        }
    }
}

#[verifier::spinoff_prover]
#[verifier::rlimit(60)]
proof fn lemma_spaced_lt(
    a: Seq<char>,
    n: Seq<char>,
    s: Seq<char>,
    t: Seq<char>,
    b: Seq<char>,
    z: Seq<char>,
    vars: Map<Seq<char>, Seq<char>>,
)
    requires
        spaced_parts(a, n, s, t, b, z),
    ensures
        condition_holds(a + n + s + "<"@ + t + b + z, vars) == (vars.contains_key(n) && (numbers_compared_of(
            vars[n],
            b,
        ) matches Some((lt, eq, gt)) && lt)),
{
    reveal_strlit("==");
    reveal_strlit("!=");
    reveal_strlit(">=");
    reveal_strlit("<=");
    reveal_strlit(">");
    reveal_strlit("<");
    let u = n + s;
    let v = t + b;
    let op = "<"@;
    lemma_spaced_setup(a, n, s, op, t, b, z);
    assert(a + n + s + op + t + b + z =~= a + u + op + v + z);
    let c = u + op + v;
    lemma_spaced_chars(u, op, v);
    lemma_absent_char(c, "=="@, 0);
    lemma_absent_char(c, "!="@, 1);
    lemma_absent_char(c, ">="@, 1);
    lemma_absent_char(c, "<="@, 1);
    lemma_absent_char(c, ">"@, 0);
    lemma_split_spaced(a + u + op + v + z, u, v, 5, vars);
}

#[verifier::spinoff_prover]
#[verifier::rlimit(60)]
proof fn lemma_spaced_gt(
    a: Seq<char>,
    n: Seq<char>,
    s: Seq<char>,
    t: Seq<char>,
    b: Seq<char>,
    z: Seq<char>,
    vars: Map<Seq<char>, Seq<char>>,
)
    requires
        spaced_parts(a, n, s, t, b, z),
    ensures
        condition_holds(a + n + s + ">"@ + t + b + z, vars) == (vars.contains_key(n) && (numbers_compared_of(
            vars[n],
            b,
        ) matches Some((lt, eq, gt)) && gt)),
{
    reveal_strlit("==");
    reveal_strlit("!=");
    reveal_strlit(">=");
    reveal_strlit("<=");
    reveal_strlit(">");
    let u = n + s;
    let v = t + b;
    let op = ">"@;
    lemma_spaced_setup(a, n, s, op, t, b, z);
    assert(a + n + s + op + t + b + z =~= a + u + op + v + z);
    let c = u + op + v;
    lemma_spaced_chars(u, op, v);
    lemma_absent_char(c, "=="@, 0);
    lemma_absent_char(c, "!="@, 1);
    lemma_absent_char(c, ">="@, 1);
    lemma_absent_char(c, "<="@, 1);
    lemma_split_spaced(a + u + op + v + z, u, v, 4, vars);
}

#[verifier::spinoff_prover]
#[verifier::rlimit(60)]
proof fn lemma_spaced_le(
    a: Seq<char>,
    n: Seq<char>,
    s: Seq<char>,
    t: Seq<char>,
    b: Seq<char>,
    z: Seq<char>,
    vars: Map<Seq<char>, Seq<char>>,
)
    requires
        spaced_parts(a, n, s, t, b, z),
    ensures
        condition_holds(a + n + s + "<="@ + t + b + z, vars) == (vars.contains_key(n) && (numbers_compared_of(
            vars[n],
            b,
        ) matches Some((lt, eq, gt)) && (lt || eq))),
{
    reveal_strlit("==");
    reveal_strlit("!=");
    reveal_strlit(">=");
    reveal_strlit("<=");
    let u = n + s;
    let v = t + b;
    let op = "<="@;
    lemma_spaced_setup(a, n, s, op, t, b, z);
    assert(a + n + s + op + t + b + z =~= a + u + op + v + z);
    let c = u + op + v;
    lemma_spaced_chars(u, op, v);
    lemma_no_double_equals(c, u.len() as int + 1);
    lemma_absent_char(c, "!="@, 0);
    lemma_absent_char(c, ">="@, 0);
    lemma_split_spaced(a + u + op + v + z, u, v, 3, vars);
}

#[verifier::spinoff_prover]
#[verifier::rlimit(60)]
proof fn lemma_spaced_ge(
    a: Seq<char>,
    n: Seq<char>,
    s: Seq<char>,
    t: Seq<char>,
    b: Seq<char>,
    z: Seq<char>,
    vars: Map<Seq<char>, Seq<char>>,
)
    requires
        spaced_parts(a, n, s, t, b, z),
    ensures
        condition_holds(a + n + s + ">="@ + t + b + z, vars) == (vars.contains_key(n) && (numbers_compared_of(
            vars[n],
            b,
        ) matches Some((lt, eq, gt)) && (gt || eq))),
{
    reveal_strlit("==");
    reveal_strlit("!=");
    reveal_strlit(">=");
    let u = n + s;
    let v = t + b;
    let op = ">="@;
    lemma_spaced_setup(a, n, s, op, t, b, z);
    assert(a + n + s + op + t + b + z =~= a + u + op + v + z);
    let c = u + op + v;
    lemma_spaced_chars(u, op, v);
    lemma_no_double_equals(c, u.len() as int + 1);
    lemma_absent_char(c, "!="@, 0);
    lemma_split_spaced(a + u + op + v + z, u, v, 2, vars);
}

#[verifier::spinoff_prover]
#[verifier::rlimit(60)]
proof fn lemma_spaced_ne(
    a: Seq<char>,
    n: Seq<char>,
    s: Seq<char>,
    t: Seq<char>,
    b: Seq<char>,
    z: Seq<char>,
    vars: Map<Seq<char>, Seq<char>>,
)
    requires
        spaced_parts(a, n, s, t, b, z),
    ensures
        condition_holds(a + n + s + "!="@ + t + b + z, vars) == (vars.contains_key(n) && vars[n] != b),
{
    reveal_strlit("==");
    reveal_strlit("!=");
    let u = n + s;
    let v = t + b;
    let op = "!="@;
    lemma_spaced_setup(a, n, s, op, t, b, z);
    assert(a + n + s + op + t + b + z =~= a + u + op + v + z);
    let c = u + op + v;
    lemma_spaced_chars(u, op, v);
    lemma_no_double_equals(c, u.len() as int + 1);
    lemma_split_spaced(a + u + op + v + z, u, v, 1, vars);
}

#[verifier::spinoff_prover]
#[verifier::rlimit(60)]
proof fn lemma_spaced_eq(
    a: Seq<char>,
    n: Seq<char>,
    s: Seq<char>,
    t: Seq<char>,
    b: Seq<char>,
    z: Seq<char>,
    vars: Map<Seq<char>, Seq<char>>,
)
    requires
        spaced_parts(a, n, s, t, b, z),
    ensures
        condition_holds(a + n + s + "=="@ + t + b + z, vars) == (vars.contains_key(n) && vars[n] == b),
{
    reveal_strlit("==");
    let u = n + s;
    let v = t + b;
    let op = "=="@;
    lemma_spaced_setup(a, n, s, op, t, b, z);
    assert(a + n + s + op + t + b + z =~= a + u + op + v + z);
    lemma_split_spaced(a + u + op + v + z, u, v, 0, vars);
}

/// What a condition written with white space means: `n op b` with any
/// white space around and between the plain, non-empty words `n` and `b`
/// and the operator (such as `x < 5`) needs the variable `n`; `==` and `!=`
/// compare its text with `b`; `<`, `>`, `<=` and `>=` compare the two as
/// numbers, strictly for `<` and `>` (false where either is not a number).
pub proof fn lemma_spaced_condition_meaning(
    a: Seq<char>,
    n: Seq<char>,
    s: Seq<char>,
    t: Seq<char>,
    b: Seq<char>,
    z: Seq<char>,
    vars: Map<Seq<char>, Seq<char>>,
)
    requires
        spaced_parts(a, n, s, t, b, z),
    ensures
        condition_holds(a + n + s + "=="@ + t + b + z, vars) == (vars.contains_key(n) && vars[n] == b),
        condition_holds(a + n + s + "!="@ + t + b + z, vars) == (vars.contains_key(n) && vars[n] != b),
        condition_holds(a + n + s + "<"@ + t + b + z, vars) == (vars.contains_key(n) && (numbers_compared_of(
            vars[n],
            b,
        ) matches Some((lt, eq, gt)) && lt)),
        condition_holds(a + n + s + ">"@ + t + b + z, vars) == (vars.contains_key(n) && (numbers_compared_of(
            vars[n],
            b,
        ) matches Some((lt, eq, gt)) && gt)),
        condition_holds(a + n + s + "<="@ + t + b + z, vars) == (vars.contains_key(n) && (numbers_compared_of(
            vars[n],
            b,
        ) matches Some((lt, eq, gt)) && (lt || eq))),
        condition_holds(a + n + s + ">="@ + t + b + z, vars) == (vars.contains_key(n) && (numbers_compared_of(
            vars[n],
            b,
        ) matches Some((lt, eq, gt)) && (gt || eq))),
{
    lemma_spaced_eq(a, n, s, t, b, z, vars);
    lemma_spaced_ne(a, n, s, t, b, z, vars);
    lemma_spaced_lt(a, n, s, t, b, z, vars);
    lemma_spaced_gt(a, n, s, t, b, z, vars);
    lemma_spaced_le(a, n, s, t, b, z, vars);
    lemma_spaced_ge(a, n, s, t, b, z, vars);
}

} // verus!
