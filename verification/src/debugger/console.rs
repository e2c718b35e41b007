//! The words of a console line and the numbers written in them.
use vstd::prelude::*;
use crate::text::{chars_of, string_from_chars, views_of};

verus! {

/// Whether `c` has Unicode's White_Space property.
pub open spec fn is_space(c: char) -> bool {
    let n = c as int;
    ||| 0x9 <= n <= 0xD
    ||| n == 0x20
    ||| n == 0x85
    ||| n == 0xA0
    ||| n == 0x1680
    ||| 0x2000 <= n <= 0x200A
    ||| n == 0x2028
    ||| n == 0x2029
    ||| n == 0x202F
    ||| n == 0x205F
    ||| n == 0x3000
}

/// Whether `c` is white space.
pub fn space(c: char) -> (r: bool)
    ensures
        r == is_space(c),
{
    let n = c as u32;
    (0x9 <= n && n <= 0xD) || n == 0x20 || n == 0x85 || n == 0xA0 || n == 0x1680 || (0x2000 <= n
        && n <= 0x200A) || n == 0x2028 || n == 0x2029 || n == 0x202F || n == 0x205F || n == 0x3000
}

/// The maximal runs of characters that are not white space, in order.
pub open spec fn words(s: Seq<char>) -> Seq<Seq<char>>
    decreases s.len(),
{
    if s.len() == 0 {
        Seq::empty()
    } else {
        let w = words(s.drop_last());
        let c = s.last();
        if is_space(c) {
            w
        } else if s.len() >= 2 && !is_space(s[s.len() - 2]) && w.len() > 0 {
            w.update(w.len() - 1, w.last().push(c))
        } else {
            w.push(seq![c])
        }
    }
}

/// The words of `line`, in order.
pub fn split_words(line: &str) -> (r: Vec<String>)
    ensures
        views_of(r@) == words(line@),
{
    let cs = chars_of(line);
    let mut done: Vec<String> = Vec::new();
    let mut cur: Vec<char> = Vec::new();
    let mut i: usize = 0;
    while i < cs.len()
        invariant
            i <= cs@.len(),
            cs@ == line@,
            cur@.len() > 0 <==> (i > 0 && !is_space(cs@[i - 1])),
            cur@.len() == 0 ==> words(cs@.take(i as int)) == views_of(done@),
            cur@.len() > 0 ==> words(cs@.take(i as int)) == views_of(done@).push(cur@),
        decreases cs.len() - i,
    {
        let c = cs[i];
        proof {
            assert(cs@.take(i as int + 1).drop_last() =~= cs@.take(i as int));
        }
        if space(c) {
            if cur.len() > 0 {
                let ghost before = done@;
                let w = string_from_chars(&cur);
                done.push(w);
                proof {
                    assert(views_of(done@) =~= views_of(before).push(cur@));
                }
                cur = Vec::new();
            }
        } else {
            let ghost before = cur@;
            cur.push(c);
            proof {
                let t = cs@.take(i as int + 1);
                assert(t.last() == c);
                if i > 0 {
                    assert(t[t.len() - 2] == cs@[i - 1]);
                }
                if before.len() == 0 {
                    assert(cur@ =~= seq![c]);
                } else {
                    let w = words(cs@.take(i as int));
                    assert(w.update(w.len() - 1, w.last().push(c)) =~= views_of(done@).push(cur@));
                }
            }
        }
        i = i + 1;
    }
    assert(cs@.take(i as int) =~= line@);
    if cur.len() > 0 {
        let ghost before = done@;
        let w = string_from_chars(&cur);
        done.push(w);
        proof {
            assert(views_of(done@) =~= views_of(before).push(cur@));
        }
    }
    done
}

/// Whether every character of `s` is an ASCII digit.
pub open spec fn all_digits(s: Seq<char>) -> bool {
    forall|i: int| 0 <= i < s.len() ==> '0' <= #[trigger] s[i] <= '9'
}

/// The number the ASCII digits of `s` spell in decimal.
pub open spec fn digits_value(s: Seq<char>) -> nat
    decreases s.len(),
{
    if s.len() == 0 {
        0
    } else {
        digits_value(s.drop_last()) * 10 + (s.last() as int - '0' as int) as nat
    }
}

/// The number a word spells as an unsigned integer: an optional `+`, then
/// one or more ASCII digits.
pub open spec fn unsigned_text(s: Seq<char>) -> Option<nat> {
    let d = if s.len() > 0 && s[0] == '+' {
        s.drop_first()
    } else {
        s
    };
    if d.len() > 0 && all_digits(d) {
        Some(digits_value(d))
    } else {
        None
    }
}

/// The unsigned number `w` spells, if it spells one no larger than `max`.
pub fn parse_unsigned(w: &str, max: u64) -> (r: Option<u64>)
    ensures
        r == (match unsigned_text(w@) {
            Some(v) => if v <= max {
                Some(v as u64)
            } else {
                None
            },
            None => None,
        }),
{
    let cs = chars_of(w);
    let start: usize = if cs.len() > 0 && cs[0] == '+' {
        1
    } else {
        0
    };
    let ghost d = if cs@.len() > 0 && cs@[0] == '+' {
        cs@.drop_first()
    } else {
        cs@
    };
    assert(d =~= cs@.subrange(start as int, cs@.len() as int));
    if start >= cs.len() {
        assert(unsigned_text(w@) is None);
        return None;
    }
    let mut value: u64 = 0;
    let mut too_big = false;
    let mut i: usize = start;
    while i < cs.len()
        invariant
            start <= i <= cs@.len(),
            cs@ == w@,
            d == cs@.subrange(start as int, cs@.len() as int),
            d == (if w@.len() > 0 && w@[0] == '+' {
                w@.drop_first()
            } else {
                w@
            }),
            all_digits(cs@.subrange(start as int, i as int)),
            !too_big ==> value == digits_value(cs@.subrange(start as int, i as int)) && value <= max,
            too_big ==> digits_value(cs@.subrange(start as int, i as int)) > max,
        decreases cs.len() - i,
    {
        let c = cs[i];
        let ghost p = cs@.subrange(start as int, i as int + 1);
        assert(p.drop_last() =~= cs@.subrange(start as int, i as int));
        if !('0' <= c && c <= '9') {
            assert(!all_digits(d)) by {
                assert(d[i - start] == c);
            }
            assert(unsigned_text(w@) is None);
            return None;
        }
        let digit = (c as u32 - '0' as u32) as u128;
        if !too_big {
            let next: u128 = value as u128 * 10 + digit;
            if next > max as u128 {
                too_big = true;
            } else {
                value = next as u64;
            }
        }
        i = i + 1;
    }
    assert(cs@.subrange(start as int, i as int) =~= d);
    assert(unsigned_text(w@) == Some(digits_value(d)));
    if too_big {
        assert(digits_value(d) > max);
        None
    } else {
        assert(value == digits_value(d));
        Some(value)
    }
}

/// What a console command did, for the caller to show.
#[derive(Debug, Clone, PartialEq, Eq)]
pub enum CommandOutcome {
    /// Nothing to show.
    Silent,
    /// Stepped forward to this position.
    SteppedForward(usize),
    /// Already at the latest step.
    AtLatest,
    /// Stepped back to this position.
    SteppedBack(usize),
    /// Already at the first step.
    AtBeginning,
    /// Rewound; whether the first step stopped it, and the position reached
    /// if the history has steps.
    Rewound { reached_beginning: bool, at: Option<usize> },
    /// `rewind` without a count.
    RewindUsage,
    /// A variable to print, and the index of the first local of the current
    /// step with that name.
    Print { name: String, local: Option<usize> },
    /// `p` without a name.
    PrintUsage,
    /// A new plain watch.
    Watching(String),
    /// `w` without a name: the watches are to be listed.
    WatchList,
    /// A breakpoint was set on this line.
    BreakpointSet(u32),
    /// `bp` without a line: the breakpoints are to be listed.
    BreakpointList,
    /// The steps from `start` to `end` (exclusive) are to be listed.
    History { start: usize, end: usize },
    /// The changes of this variable are to be listed.
    Changes(String),
    /// `changes` without a name.
    ChangesUsage,
    /// The stack of the current step is to be shown.
    Stack,
    /// The locals of the current step are to be shown.
    Locals,
    /// The command list is to be shown.
    Help,
    /// Leave the console.
    Quit,
    /// Leave the console and run on, no longer paused.
    Continue,
    /// Not a command.
    Unknown(String),
}

} // verus!
