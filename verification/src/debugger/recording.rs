//! The binary format of a saved debugging session.
//!
//! A recording holds the name of the debugged file, its source lines, the
//! recorded execution steps and the breakpoints.  Numbers are little-endian;
//! a string is its length in bytes (four bytes) followed by its UTF-8 bytes.
//!
//! ```text
//! recording  := "TTDR" version:u32 file:str nlines:u32 line:str*
//!               nsteps:u32 step* nbreakpoints:u32 breakpoint*
//! step       := step:u64 ip:u32 line:u32 opcode:u8 stack_size:u32
//!               description:str nlocals:u32 (name:str value:str)*
//! breakpoint := line:u32 enabled:u8 hit_count:u64 has_condition:u8 [condition:str]
//! ```
use vstd::prelude::*;
use vstd::utf8::{decode_utf8, encode_utf8, valid_utf8};
use vstd::string::StringSliceAdditionalSpecFns;
use crate::text::{decimal, push_decimal, push_str, string_of};

verus! {

// ───────────────────────────── Little-endian numbers ─────────────────────────────

/// 256 to the power `k`.
pub open spec fn pow256(k: nat) -> nat
    decreases k,
{
    if k == 0 {
        1
    } else {
        256 * pow256((k - 1) as nat)
    }
}

/// The number the bytes stand for, least significant byte first.
pub open spec fn le_value(b: Seq<u8>) -> nat
    decreases b.len(),
{
    if b.len() == 0 {
        0
    } else {
        b[0] as nat + 256 * le_value(b.drop_first())
    }
}

/// The `k` lowest bytes of `n`, least significant first.
pub open spec fn le_bytes(n: nat, k: nat) -> Seq<u8>
    decreases k,
{
    if k == 0 {
        Seq::empty()
    } else {
        seq![(n % 256) as u8] + le_bytes(n / 256, (k - 1) as nat)
    }
}

/// Reading back `k` bytes written from a number below `256^k` gives it.
pub proof fn lemma_le_roundtrip(n: nat, k: nat)
    requires
        n < pow256(k),
    ensures
        le_bytes(n, k).len() == k,
        le_value(le_bytes(n, k)) == n,
    decreases k,
{
    if k > 0 {
        lemma_le_roundtrip(n / 256, (k - 1) as nat);
        let b = le_bytes(n, k);
        assert(b.drop_first() =~= le_bytes(n / 256, (k - 1) as nat));
    }
}

proof fn lemma_le_value_bound(b: Seq<u8>)
    ensures
        le_value(b) < pow256(b.len()),
    decreases b.len(),
{
    if b.len() > 0 {
        lemma_le_value_bound(b.drop_first());
    }
}

/// The four bytes of `n`.
pub open spec fn u32_bytes(n: u32) -> Seq<u8> {
    le_bytes(n as nat, 4)
}

/// The eight bytes of `n`.
pub open spec fn u64_bytes(n: u64) -> Seq<u8> {
    le_bytes(n as nat, 8)
}

pub(crate) fn push_u32(out: &mut Vec<u8>, n: u32)
    ensures
        final(out)@ == old(out)@ + u32_bytes(n),
{
    out.push((n % 256) as u8);
    out.push(((n / 256) % 256) as u8);
    out.push(((n / 65536) % 256) as u8);
    out.push((n / 16777216) as u8);
    proof {
        reveal_with_fuel(le_bytes, 5);
        assert((n / 16777216) < 256);
        assert(out@ =~= old(out)@ + u32_bytes(n));
    }
}

pub(crate) fn push_u64(out: &mut Vec<u8>, n: u64)
    ensures
        final(out)@ == old(out)@ + u64_bytes(n),
{
    let mut m: u64 = n;
    let mut i: usize = 0;
    while i < 8
        invariant
            i <= 8,
            old(out)@ + le_bytes(n as nat, 8) == out@ + le_bytes(m as nat, (8 - i) as nat),
        decreases 8 - i,
    {
        proof {
            assert(le_bytes(m as nat, (8 - i) as nat) =~= seq![(m % 256) as u8] + le_bytes(
                (m / 256) as nat,
                (8 - i - 1) as nat,
            ));
        }
        out.push((m % 256) as u8);
        m = m / 256;
        i = i + 1;
    }
    assert(le_bytes(m as nat, 0) =~= Seq::<u8>::empty());
}

/// The number of the four bytes at `p`.
fn read_u32_at(b: &[u8], p: usize) -> (r: u32)
    requires
        p + 4 <= b@.len(),
    ensures
        r == le_value(b@.subrange(p as int, p + 4)),
{
    let r = (b[p] as u32) + 256 * (b[p + 1] as u32) + 65536 * (b[p + 2] as u32) + 16777216 * (b[p + 3] as u32);
    proof {
        let s = b@.subrange(p as int, p + 4);
        reveal_with_fuel(le_value, 5);
        assert(s.drop_first().drop_first().drop_first().drop_first() =~= Seq::<u8>::empty());
        assert(s[0] == b@[p as int] && s[1] == b@[p + 1] && s[2] == b@[p + 2] && s[3] == b@[p + 3]);
        assert(s.drop_first()[0] == s[1]);
        assert(s.drop_first().drop_first()[0] == s[2]);
        assert(s.drop_first().drop_first().drop_first()[0] == s[3]);
    }
    r
}

proof fn lemma_pow256_mono(a: nat, b: nat)
    requires
        a <= b,
    ensures
        pow256(a) <= pow256(b),
    decreases b,
{
    if a < b {
        lemma_pow256_mono(a, (b - 1) as nat);
    }
}

/// The number of the eight bytes at `p`.
fn read_u64_at(b: &[u8], p: usize) -> (r: u64)
    requires
        p + 8 <= b@.len(),
    ensures
        r == le_value(b@.subrange(p as int, p + 8)),
{
    let mut r: u64 = 0;
    let mut i: usize = 8;
    let n = b.len();
    proof {
        assert(b@.subrange(p + 8, p + 8) =~= Seq::<u8>::empty());
    }
    while i > 0
        invariant
            i <= 8,
            n == b@.len(),
            p + 8 <= b@.len(),
            r == le_value(b@.subrange(p + i, p + 8)),
        decreases i,
    {
        let ghost tail = b@.subrange(p + i, p + 8);
        let ghost s = b@.subrange(p + i - 1, p + 8);
        proof {
            assert(s.drop_first() =~= tail);
            lemma_le_value_bound(tail);
            lemma_pow256_mono((8 - i) as nat, 7);
            reveal_with_fuel(pow256, 8);
            assert(pow256(7) == 72057594037927936);
        }
        r = (b[p + i - 1] as u64) + 256 * r;
        i = i - 1;
    }
    r
}

// ───────────────────────────── What a recording holds ─────────────────────────────

/// Why a recording could not be saved or read back.
#[derive(Debug, Clone, PartialEq, Eq)]
pub enum RecordingError {
    IoError(String),
    InvalidFormat(String),
    UnsupportedVersion(u32),
}

impl RecordingError {
    /// The text of the error: `I/O error: …`, `Invalid format: …` or
    /// `Unsupported version: N`.
    pub fn display_string(&self) -> (r: String)
        ensures
            r@ == match self {
                RecordingError::IoError(m) => "I/O error: "@ + m@,
                RecordingError::InvalidFormat(m) => "Invalid format: "@ + m@,
                RecordingError::UnsupportedVersion(v) => "Unsupported version: "@ + decimal(*v as nat),
            },
    {
        match self {
            RecordingError::IoError(m) => {
                let mut s = string_of("I/O error: ");
                push_str(&mut s, m.as_str());
                s
            },
            RecordingError::InvalidFormat(m) => {
                let mut s = string_of("Invalid format: ");
                push_str(&mut s, m.as_str());
                s
            },
            RecordingError::UnsupportedVersion(v) => {
                let mut s = string_of("Unsupported version: ");
                push_decimal(&mut s, *v as u64);
                s
            },
        }
    }
}

/// An execution step as a recording holds it: its number, instruction
/// pointer, source line, opcode byte (255 for none), stack size,
/// description, and the local variables' names and displayed values.
#[derive(Debug, Clone, PartialEq, Eq)]
pub struct RecordedStep {
    pub step: u64,
    pub ip: u32,
    pub line: u32,
    pub opcode: u8,
    pub stack_size: u32,
    pub description: String,
    pub locals: Vec<(String, String)>,
}

/// A breakpoint as a recording holds it.
#[derive(Debug, Clone, PartialEq, Eq)]
pub struct RecordedBreakpoint {
    pub line: u32,
    pub enabled: bool,
    pub hit_count: u64,
    pub condition: Option<String>,
}

/// A saved debugging session.
#[derive(Debug, Clone, PartialEq, Eq)]
pub struct Recording {
    pub current_file: String,
    pub source_lines: Vec<String>,
    pub steps: Vec<RecordedStep>,
    pub breakpoints: Vec<RecordedBreakpoint>,
}

/// An execution step, its texts as characters.
pub struct StepModel {
    pub step: u64,
    pub ip: u32,
    pub line: u32,
    pub opcode: u8,
    pub stack_size: u32,
    pub description: Seq<char>,
    pub locals: Seq<(Seq<char>, Seq<char>)>,
}

/// A breakpoint, its condition as characters.
pub struct BreakpointModel {
    pub line: u32,
    pub enabled: bool,
    pub hit_count: u64,
    pub condition: Option<Seq<char>>,
}

/// A debugging session, its texts as characters.
pub struct RecordingModel {
    pub file: Seq<char>,
    pub lines: Seq<Seq<char>>,
    pub steps: Seq<StepModel>,
    pub breakpoints: Seq<BreakpointModel>,
}

/// The characters of each pair of strings.
pub open spec fn pair_views(v: Seq<(String, String)>) -> Seq<(Seq<char>, Seq<char>)> {
    v.map_values(|p: (String, String)| (p.0@, p.1@))
}

impl View for RecordedStep {
    type V = StepModel;

    open spec fn view(&self) -> StepModel {
        StepModel {
            step: self.step,
            ip: self.ip,
            line: self.line,
            opcode: self.opcode,
            stack_size: self.stack_size,
            description: self.description@,
            locals: pair_views(self.locals@),
        }
    }
}

impl View for RecordedBreakpoint {
    type V = BreakpointModel;

    open spec fn view(&self) -> BreakpointModel {
        BreakpointModel {
            line: self.line,
            enabled: self.enabled,
            hit_count: self.hit_count,
            condition: match self.condition {
                Some(c) => Some(c@),
                None => None,
            },
        }
    }
}

impl View for Recording {
    type V = RecordingModel;

    open spec fn view(&self) -> RecordingModel {
        RecordingModel {
            file: self.current_file@,
            lines: crate::text::views_of(self.source_lines@),
            steps: self.steps@.map_values(|s: RecordedStep| s@),
            breakpoints: self.breakpoints@.map_values(|b: RecordedBreakpoint| b@),
        }
    }
}

// ───────────────────────────── The bytes of a recording ─────────────────────────────

/// The bytes `TTDR` that open a recording.
pub open spec fn magic() -> Seq<u8> {
    seq![84u8, 84u8, 68u8, 82u8]
}

/// The newest format version this library writes and reads.
pub const RECORDING_VERSION: u32 = 1;

/// A string: its UTF-8 length in four bytes, then its UTF-8 bytes.
pub open spec fn str_bytes(s: Seq<char>) -> Seq<u8> {
    u32_bytes(encode_utf8(s).len() as u32) + encode_utf8(s)
}

/// Strings one after the other.
pub open spec fn strs_bytes(v: Seq<Seq<char>>) -> Seq<u8>
    decreases v.len(),
{
    if v.len() == 0 {
        Seq::empty()
    } else {
        strs_bytes(v.drop_last()) + str_bytes(v.last())
    }
}

/// Name and value pairs one after the other.
pub open spec fn locals_bytes(v: Seq<(Seq<char>, Seq<char>)>) -> Seq<u8>
    decreases v.len(),
{
    if v.len() == 0 {
        Seq::empty()
    } else {
        locals_bytes(v.drop_last()) + str_bytes(v.last().0) + str_bytes(v.last().1)
    }
}

/// The bytes of a step.
pub open spec fn step_bytes(m: StepModel) -> Seq<u8> {
    u64_bytes(m.step) + u32_bytes(m.ip) + u32_bytes(m.line) + seq![m.opcode] + u32_bytes(m.stack_size) + str_bytes(
        m.description,
    ) + u32_bytes(m.locals.len() as u32) + locals_bytes(m.locals)
}

/// Steps one after the other.
pub open spec fn steps_bytes(v: Seq<StepModel>) -> Seq<u8>
    decreases v.len(),
{
    if v.len() == 0 {
        Seq::empty()
    } else {
        steps_bytes(v.drop_last()) + step_bytes(v.last())
    }
}

/// The byte of a flag: 1 or 0.
pub open spec fn flag_byte(b: bool) -> u8 {
    if b {
        1
    } else {
        0
    }
}

/// The bytes of a breakpoint.
pub open spec fn breakpoint_bytes(m: BreakpointModel) -> Seq<u8> {
    u32_bytes(m.line) + seq![flag_byte(m.enabled)] + u64_bytes(m.hit_count) + match m.condition {
        Some(c) => seq![1u8] + str_bytes(c),
        None => seq![0u8],
    }
}

/// Breakpoints one after the other.
pub open spec fn breakpoints_bytes(v: Seq<BreakpointModel>) -> Seq<u8>
    decreases v.len(),
{
    if v.len() == 0 {
        Seq::empty()
    } else {
        breakpoints_bytes(v.drop_last()) + breakpoint_bytes(v.last())
    }
}

/// The bytes of a recording.
pub open spec fn recording_bytes(m: RecordingModel) -> Seq<u8> {
    magic() + u32_bytes(1) + str_bytes(m.file) + u32_bytes(m.lines.len() as u32) + strs_bytes(m.lines) + u32_bytes(
        m.steps.len() as u32,
    ) + steps_bytes(m.steps) + u32_bytes(m.breakpoints.len() as u32) + breakpoints_bytes(m.breakpoints)
}

/// A text fits the format: its UTF-8 length fits four bytes.
pub open spec fn text_fits(s: Seq<char>) -> bool {
    encode_utf8(s).len() < 0x1_0000_0000
}

/// Every length and count of the recording fits four bytes.
pub open spec fn recording_fits(m: RecordingModel) -> bool {
    &&& text_fits(m.file)
    &&& m.lines.len() < 0x1_0000_0000
    &&& forall|i: int| 0 <= i < m.lines.len() ==> text_fits(#[trigger] m.lines[i])
    &&& m.steps.len() < 0x1_0000_0000
    &&& forall|i: int| 0 <= i < m.steps.len() ==> step_fits(#[trigger] m.steps[i])
    &&& m.breakpoints.len() < 0x1_0000_0000
    &&& forall|i: int| 0 <= i < m.breakpoints.len() ==> condition_fits(#[trigger] m.breakpoints[i])
}

/// The breakpoint's condition, if any, fits the format.
pub open spec fn condition_fits(m: BreakpointModel) -> bool {
    match m.condition {
        Some(c) => text_fits(c),
        None => true,
    }
}

/// Every length and count of the step fits four bytes.
pub open spec fn step_fits(m: StepModel) -> bool {
    &&& text_fits(m.description)
    &&& m.locals.len() < 0x1_0000_0000
    &&& forall|i: int| 0 <= i < m.locals.len() ==> text_fits((#[trigger] m.locals[i]).0) && text_fits(m.locals[i].1)
}

// ───────────────────────────── Reading the bytes ─────────────────────────────

/// Why bytes are not a recording: they end too soon, do not open with the
/// magic bytes, have a newer version, or hold a text that is not UTF-8.
pub enum Fault {
    Short,
    BadMagic,
    Version(u32),
    BadText,
}

/// A byte at `p`.
pub open spec fn take_u8(b: Seq<u8>, p: int) -> Result<(u8, int), Fault> {
    if 0 <= p && p + 1 <= b.len() {
        Ok((b[p], p + 1))
    } else {
        Err(Fault::Short)
    }
}

/// A four-byte number at `p`.
pub open spec fn take_u32(b: Seq<u8>, p: int) -> Result<(u32, int), Fault> {
    if 0 <= p && p + 4 <= b.len() {
        Ok((le_value(b.subrange(p, p + 4)) as u32, p + 4))
    } else {
        Err(Fault::Short)
    }
}

/// An eight-byte number at `p`.
pub open spec fn take_u64(b: Seq<u8>, p: int) -> Result<(u64, int), Fault> {
    if 0 <= p && p + 8 <= b.len() {
        Ok((le_value(b.subrange(p, p + 8)) as u64, p + 8))
    } else {
        Err(Fault::Short)
    }
}

/// A string at `p`.
pub open spec fn take_str(b: Seq<u8>, p: int) -> Result<(Seq<char>, int), Fault> {
    match take_u32(b, p) {
        Err(f) => Err(f),
        Ok((n, q)) => if q + n <= b.len() {
            if valid_utf8(b.subrange(q, q + n)) {
                Ok((decode_utf8(b.subrange(q, q + n)), q + n))
            } else {
                Err(Fault::BadText)
            }
        } else {
            Err(Fault::Short)
        },
    }
}

/// `n` strings from `p` on.
pub open spec fn take_strs(b: Seq<u8>, p: int, n: nat) -> Result<(Seq<Seq<char>>, int), Fault>
    decreases n,
{
    if n == 0 {
        Ok((Seq::empty(), p))
    } else {
        match take_strs(b, p, (n - 1) as nat) {
            Err(f) => Err(f),
            Ok((v, q)) => match take_str(b, q) {
                Err(f) => Err(f),
                Ok((s, r)) => Ok((v.push(s), r)),
            },
        }
    }
}

/// `n` name and value pairs from `p` on.
pub open spec fn take_locals(b: Seq<u8>, p: int, n: nat) -> Result<(Seq<(Seq<char>, Seq<char>)>, int), Fault>
    decreases n,
{
    if n == 0 {
        Ok((Seq::empty(), p))
    } else {
        match take_locals(b, p, (n - 1) as nat) {
            Err(f) => Err(f),
            Ok((v, q)) => match take_str(b, q) {
                Err(f) => Err(f),
                Ok((name, r)) => match take_str(b, r) {
                    Err(f) => Err(f),
                    Ok((value, t)) => Ok((v.push((name, value)), t)),
                },
            },
        }
    }
}

/// A step at `p`.
pub open spec fn take_step(b: Seq<u8>, p: int) -> Result<(StepModel, int), Fault> {
    match take_u64(b, p) {
        Err(f) => Err(f),
        Ok((step, p1)) => match take_u32(b, p1) {
            Err(f) => Err(f),
            Ok((ip, p2)) => match take_u32(b, p2) {
                Err(f) => Err(f),
                Ok((line, p3)) => match take_u8(b, p3) {
                    Err(f) => Err(f),
                    Ok((opcode, p4)) => match take_u32(b, p4) {
                        Err(f) => Err(f),
                        Ok((stack_size, p5)) => match take_str(b, p5) {
                            Err(f) => Err(f),
                            Ok((description, p6)) => match take_u32(b, p6) {
                                Err(f) => Err(f),
                                Ok((n, p7)) => match take_locals(b, p7, n as nat) {
                                    Err(f) => Err(f),
                                    Ok((locals, p8)) => Ok(
                                        (
                                            StepModel { step, ip, line, opcode, stack_size, description, locals },
                                            p8,
                                        ),
                                    ),
                                },
                            },
                        },
                    },
                },
            },
        },
    }
}

/// `n` steps from `p` on.
pub open spec fn take_steps(b: Seq<u8>, p: int, n: nat) -> Result<(Seq<StepModel>, int), Fault>
    decreases n,
{
    if n == 0 {
        Ok((Seq::empty(), p))
    } else {
        match take_steps(b, p, (n - 1) as nat) {
            Err(f) => Err(f),
            Ok((v, q)) => match take_step(b, q) {
                Err(f) => Err(f),
                Ok((s, r)) => Ok((v.push(s), r)),
            },
        }
    }
}

/// A breakpoint at `p`; any non-zero flag byte is set.
pub open spec fn take_breakpoint(b: Seq<u8>, p: int) -> Result<(BreakpointModel, int), Fault> {
    match take_u32(b, p) {
        Err(f) => Err(f),
        Ok((line, p1)) => match take_u8(b, p1) {
            Err(f) => Err(f),
            Ok((enabled, p2)) => match take_u64(b, p2) {
                Err(f) => Err(f),
                Ok((hit_count, p3)) => match take_u8(b, p3) {
                    Err(f) => Err(f),
                    Ok((has, p4)) => if has != 0 {
                        match take_str(b, p4) {
                            Err(f) => Err(f),
                            Ok((c, p5)) => Ok(
                                (BreakpointModel { line, enabled: enabled != 0, hit_count, condition: Some(c) }, p5),
                            ),
                        }
                    } else {
                        Ok((BreakpointModel { line, enabled: enabled != 0, hit_count, condition: None }, p4))
                    },
                },
            },
        },
    }
}

/// `n` breakpoints from `p` on.
pub open spec fn take_breakpoints(b: Seq<u8>, p: int, n: nat) -> Result<(Seq<BreakpointModel>, int), Fault>
    decreases n,
{
    if n == 0 {
        Ok((Seq::empty(), p))
    } else {
        match take_breakpoints(b, p, (n - 1) as nat) {
            Err(f) => Err(f),
            Ok((v, q)) => match take_breakpoint(b, q) {
                Err(f) => Err(f),
                Ok((x, r)) => Ok((v.push(x), r)),
            },
        }
    }
}

/// The recording the bytes open with, or why they hold none.  Bytes after
/// the recording are not read.
pub open spec fn parse_recording(b: Seq<u8>) -> Result<RecordingModel, Fault> {
    if b.len() < 4 {
        Err(Fault::Short)
    } else if b.subrange(0, 4) != magic() {
        Err(Fault::BadMagic)
    } else {
        match take_u32(b, 4) {
            Err(f) => Err(f),
            Ok((version, p1)) => if version > 1 {
                Err(Fault::Version(version))
            } else {
                match take_str(b, p1) {
                    Err(f) => Err(f),
                    Ok((file, p2)) => match take_u32(b, p2) {
                        Err(f) => Err(f),
                        Ok((nlines, p3)) => match take_strs(b, p3, nlines as nat) {
                            Err(f) => Err(f),
                            Ok((lines, p4)) => match take_u32(b, p4) {
                                Err(f) => Err(f),
                                Ok((nsteps, p5)) => match take_steps(b, p5, nsteps as nat) {
                                    Err(f) => Err(f),
                                    Ok((steps, p6)) => match take_u32(b, p6) {
                                        Err(f) => Err(f),
                                        Ok((nbps, p7)) => match take_breakpoints(b, p7, nbps as nat) {
                                            Err(f) => Err(f),
                                            Ok((breakpoints, _)) => Ok(RecordingModel { file, lines, steps, breakpoints }),
                                        },
                                    },
                                },
                            },
                        },
                    },
                }
            },
        }
    }
}

/// The error the library gives for a fault: a read past the end is an
/// I/O error (`failed to fill whole buffer`), wrong magic bytes an invalid
/// format (`Invalid recording file`), a newer version an unsupported
/// version, and a text that is not UTF-8 an invalid format.
pub open spec fn fault_error(f: Fault, e: RecordingError) -> bool {
    match f {
        Fault::Short => e matches RecordingError::IoError(m) && m@ == "failed to fill whole buffer"@,
        Fault::BadMagic => e matches RecordingError::InvalidFormat(m) && m@ == "Invalid recording file"@,
        Fault::Version(v) => e == RecordingError::UnsupportedVersion(v),
        Fault::BadText => e is InvalidFormat,
    }
}

// ───────────────────────────── Writing ─────────────────────────────

/// Append a string: its UTF-8 length (cut to four bytes), then its bytes.
fn write_string(out: &mut Vec<u8>, s: &str)
    ensures
        final(out)@ == old(out)@ + str_bytes(s@),
{
    let bytes = s.as_bytes();
    push_u32(out, bytes.len() as u32);
    let ghost mid = out@;
    out.extend_from_slice(bytes);
    assert(out@ =~= mid + bytes@);
    assert(out@ =~= old(out)@ + str_bytes(s@));
}

/// Append a step.
fn write_record(out: &mut Vec<u8>, record: &RecordedStep)
    ensures
        final(out)@ == old(out)@ + step_bytes(record@),
{
    push_u64(out, record.step);
    push_u32(out, record.ip);
    push_u32(out, record.line);
    out.push(record.opcode);
    push_u32(out, record.stack_size);
    write_string(out, record.description.as_str());
    push_u32(out, record.locals.len() as u32);
    let ghost head = out@;
    let ghost pairs = pair_views(record.locals@);
    let mut i: usize = 0;
    while i < record.locals.len()
        invariant
            i <= record.locals@.len(),
            pairs == pair_views(record.locals@),
            out@ == head + locals_bytes(pairs.take(i as int)),
        decreases record.locals@.len() - i,
    {
        let (name, value) = &record.locals[i];
        write_string(out, name.as_str());
        write_string(out, value.as_str());
        proof {
            let t = pairs.take(i as int + 1);
            assert(t.drop_last() =~= pairs.take(i as int));
            assert(t.last() == (name@, value@));
            assert(out@ =~= head + locals_bytes(t));
        }
        i = i + 1;
    }
    proof {
        assert(pairs.take(i as int) =~= pairs);
        assert(pairs.len() == record.locals@.len());
        assert(out@ =~= old(out)@ + step_bytes(record@));
    }
}

/// Append a breakpoint.
fn write_breakpoint(out: &mut Vec<u8>, bp: &RecordedBreakpoint)
    ensures
        final(out)@ == old(out)@ + breakpoint_bytes(bp@),
{
    push_u32(out, bp.line);
    out.push(if bp.enabled { 1u8 } else { 0u8 });
    push_u64(out, bp.hit_count);
    match &bp.condition {
        Some(c) => {
            out.push(1u8);
            write_string(out, c.as_str());
        },
        None => {
            out.push(0u8);
        },
    }
    assert(out@ =~= old(out)@ + breakpoint_bytes(bp@));
}

/// The bytes of a recording: the magic bytes, the format version, the
/// file's name, then the source lines, the steps and the breakpoints, each
/// list after its count.  Lengths and counts are cut to four bytes.
pub fn encode_recording(rec: &Recording) -> (r: Vec<u8>)
    ensures
        r@ == recording_bytes(rec@),
{
    let mut out: Vec<u8> = Vec::new();
    out.push(84u8);
    out.push(84u8);
    out.push(68u8);
    out.push(82u8);
    push_u32(&mut out, RECORDING_VERSION);
    write_string(&mut out, rec.current_file.as_str());
    push_u32(&mut out, rec.source_lines.len() as u32);
    let ghost m = rec@;
    let ghost h1 = out@;
    let mut i: usize = 0;
    while i < rec.source_lines.len()
        invariant
            i <= rec.source_lines@.len(),
            m == rec@,
            out@ == h1 + strs_bytes(m.lines.take(i as int)),
        decreases rec.source_lines@.len() - i,
    {
        write_string(&mut out, rec.source_lines[i].as_str());
        proof {
            let t = m.lines.take(i as int + 1);
            assert(t.drop_last() =~= m.lines.take(i as int));
            assert(out@ =~= h1 + strs_bytes(t));
        }
        i = i + 1;
    }
    assert(m.lines.take(i as int) =~= m.lines);
    push_u32(&mut out, rec.steps.len() as u32);
    let ghost h2 = out@;
    let mut j: usize = 0;
    while j < rec.steps.len()
        invariant
            j <= rec.steps@.len(),
            m == rec@,
            out@ == h2 + steps_bytes(m.steps.take(j as int)),
        decreases rec.steps@.len() - j,
    {
        write_record(&mut out, &rec.steps[j]);
        proof {
            let t = m.steps.take(j as int + 1);
            assert(t.drop_last() =~= m.steps.take(j as int));
            assert(out@ =~= h2 + steps_bytes(t));
        }
        j = j + 1;
    }
    assert(m.steps.take(j as int) =~= m.steps);
    push_u32(&mut out, rec.breakpoints.len() as u32);
    let ghost h3 = out@;
    let mut k: usize = 0;
    while k < rec.breakpoints.len()
        invariant
            k <= rec.breakpoints@.len(),
            m == rec@,
            out@ == h3 + breakpoints_bytes(m.breakpoints.take(k as int)),
        decreases rec.breakpoints@.len() - k,
    {
        write_breakpoint(&mut out, &rec.breakpoints[k]);
        proof {
            let t = m.breakpoints.take(k as int + 1);
            assert(t.drop_last() =~= m.breakpoints.take(k as int));
            assert(out@ =~= h3 + breakpoints_bytes(t));
        }
        k = k + 1;
    }
    assert(m.breakpoints.take(k as int) =~= m.breakpoints);
    assert(out@ =~= recording_bytes(m));
    out
}

// ───────────────────────────── Reading ─────────────────────────────

/// `String::from_utf8`: the string the bytes encode when they are valid
/// UTF-8; otherwise the text of the error, which is not stated here.
#[verifier::external_body]
pub(crate) fn string_from_utf8(bytes: Vec<u8>) -> (r: Result<String, String>)
    ensures
        match r {
            Ok(s) => valid_utf8(bytes@) && s@ == decode_utf8(bytes@),
            Err(_) => !valid_utf8(bytes@),
        },
{
    match String::from_utf8(bytes) {
        Ok(s) => Ok(s),
        Err(e) => Err(e.to_string()),
    }
}

fn short_read() -> (e: RecordingError)
    ensures
        fault_error(Fault::Short, e),
{
    RecordingError::IoError(string_of("failed to fill whole buffer"))
}

fn read_u8(b: &[u8], p: usize) -> (r: Result<(u8, usize), RecordingError>)
    ensures
        match take_u8(b@, p as int) {
            Ok((v, q)) => r matches Ok((v2, q2)) && v2 == v && q2 == q,
            Err(f) => r matches Err(e) && fault_error(f, e),
        },
{
    if p < b.len() {
        Ok((b[p], p + 1))
    } else {
        Err(short_read())
    }
}

fn read_u32(b: &[u8], p: usize) -> (r: Result<(u32, usize), RecordingError>)
    ensures
        match take_u32(b@, p as int) {
            Ok((v, q)) => r matches Ok((v2, q2)) && v2 == v && q2 == q,
            Err(f) => r matches Err(e) && fault_error(f, e),
        },
{
    if b.len() >= 4 && p <= b.len() - 4 {
        let v = read_u32_at(b, p);
        Ok((v, p + 4))
    } else {
        Err(short_read())
    }
}

fn read_u64(b: &[u8], p: usize) -> (r: Result<(u64, usize), RecordingError>)
    ensures
        match take_u64(b@, p as int) {
            Ok((v, q)) => r matches Ok((v2, q2)) && v2 == v && q2 == q,
            Err(f) => r matches Err(e) && fault_error(f, e),
        },
{
    if b.len() >= 8 && p <= b.len() - 8 {
        let v = read_u64_at(b, p);
        Ok((v, p + 8))
    } else {
        Err(short_read())
    }
}

/// A string at `p`: its length, then as many bytes, which must be UTF-8.
fn read_string(b: &[u8], p: usize) -> (r: Result<(String, usize), RecordingError>)
    ensures
        match take_str(b@, p as int) {
            Ok((s, q)) => r matches Ok((x, q2)) && x@ == s && q2 == q,
            Err(f) => r matches Err(e) && fault_error(f, e),
        },
{
    let (n, q) = match read_u32(b, p) {
        Ok(x) => x,
        Err(e) => {
            return Err(e);
        },
    };
    let len = n as usize;
    if len > b.len() - q {
        return Err(short_read());
    }
    let mut bytes: Vec<u8> = Vec::new();
    let mut i: usize = 0;
    let blen = b.len();
    while i < len
        invariant
            blen == b@.len(),
            q + len <= b@.len(),
            i <= len,
            bytes@ == b@.subrange(q as int, q + i),
        decreases len - i,
    {
        bytes.push(b[q + i]);
        assert(b@.subrange(q as int, q + i + 1) =~= b@.subrange(q as int, q + i).push(b@[q + i]));
        i = i + 1;
    }
    match string_from_utf8(bytes) {
        Ok(s) => Ok((s, q + len)),
        Err(m) => Err(RecordingError::InvalidFormat(m)),
    }
}

proof fn lemma_strs_fault(b: Seq<u8>, p: int, k: nat, n: nat, f: Fault)
    requires
        k <= n,
        take_strs(b, p, k) == Err::<(Seq<Seq<char>>, int), Fault>(f),
    ensures
        take_strs(b, p, n) == Err::<(Seq<Seq<char>>, int), Fault>(f),
    decreases n,
{
    if k < n {
        lemma_strs_fault(b, p, k, (n - 1) as nat, f);
    }
}

proof fn lemma_locals_fault(b: Seq<u8>, p: int, k: nat, n: nat, f: Fault)
    requires
        k <= n,
        take_locals(b, p, k) == Err::<(Seq<(Seq<char>, Seq<char>)>, int), Fault>(f),
    ensures
        take_locals(b, p, n) == Err::<(Seq<(Seq<char>, Seq<char>)>, int), Fault>(f),
    decreases n,
{
    if k < n {
        lemma_locals_fault(b, p, k, (n - 1) as nat, f);
    }
}

proof fn lemma_steps_fault(b: Seq<u8>, p: int, k: nat, n: nat, f: Fault)
    requires
        k <= n,
        take_steps(b, p, k) == Err::<(Seq<StepModel>, int), Fault>(f),
    ensures
        take_steps(b, p, n) == Err::<(Seq<StepModel>, int), Fault>(f),
    decreases n,
{
    if k < n {
        lemma_steps_fault(b, p, k, (n - 1) as nat, f);
    }
}

proof fn lemma_breakpoints_fault(b: Seq<u8>, p: int, k: nat, n: nat, f: Fault)
    requires
        k <= n,
        take_breakpoints(b, p, k) == Err::<(Seq<BreakpointModel>, int), Fault>(f),
    ensures
        take_breakpoints(b, p, n) == Err::<(Seq<BreakpointModel>, int), Fault>(f),
    decreases n,
{
    if k < n {
        lemma_breakpoints_fault(b, p, k, (n - 1) as nat, f);
    }
}

/// `n` strings from `p` on.
fn read_strings(b: &[u8], p: usize, n: u32) -> (r: Result<(Vec<String>, usize), RecordingError>)
    ensures
        match take_strs(b@, p as int, n as nat) {
            Ok((v, q)) => r matches Ok((x, q2)) && crate::text::views_of(x@) == v && q2 == q,
            Err(f) => r matches Err(e) && fault_error(f, e),
        },
{
    let mut out: Vec<String> = Vec::new();
    let mut q = p;
    let mut i: u32 = 0;
    assert(crate::text::views_of(out@) =~= Seq::<Seq<char>>::empty());
    while i < n
        invariant
            i <= n,
            take_strs(b@, p as int, i as nat) == Ok::<(Seq<Seq<char>>, int), Fault>((crate::text::views_of(out@), q as int)),
        decreases n - i,
    {
        match read_string(b, q) {
            Ok((s, q2)) => {
                let ghost before = out@;
                let ghost sv = s@;
                out.push(s);
                q = q2;
                assert(crate::text::views_of(out@) =~= crate::text::views_of(before).push(sv));
            },
            Err(e) => {
                proof {
                    let f = choose|f: Fault| take_str(b@, q as int) == Err::<(Seq<char>, int), Fault>(f) && fault_error(f, e);
                    lemma_strs_fault(b@, p as int, (i + 1) as nat, n as nat, f);
                }
                return Err(e);
            },
        }
        i = i + 1;
    }
    Ok((out, q))
}

/// A step at `p`.
fn read_record(b: &[u8], p: usize) -> (r: Result<(RecordedStep, usize), RecordingError>)
    ensures
        match take_step(b@, p as int) {
            Ok((m, q)) => r matches Ok((x, q2)) && x@ == m && q2 == q,
            Err(f) => r matches Err(e) && fault_error(f, e),
        },
{
    let (step, p1) = match read_u64(b, p) {
        Ok(x) => x,
        Err(e) => {
            return Err(e);
        },
    };
    let (ip, p2) = match read_u32(b, p1) {
        Ok(x) => x,
        Err(e) => {
            return Err(e);
        },
    };
    let (line, p3) = match read_u32(b, p2) {
        Ok(x) => x,
        Err(e) => {
            return Err(e);
        },
    };
    let (opcode, p4) = match read_u8(b, p3) {
        Ok(x) => x,
        Err(e) => {
            return Err(e);
        },
    };
    let (stack_size, p5) = match read_u32(b, p4) {
        Ok(x) => x,
        Err(e) => {
            return Err(e);
        },
    };
    let (description, p6) = match read_string(b, p5) {
        Ok(x) => x,
        Err(e) => {
            return Err(e);
        },
    };
    let (n, p7) = match read_u32(b, p6) {
        Ok(x) => x,
        Err(e) => {
            return Err(e);
        },
    };
    let mut locals: Vec<(String, String)> = Vec::new();
    let mut q = p7;
    let mut i: u32 = 0;
    assert(pair_views(locals@) =~= Seq::<(Seq<char>, Seq<char>)>::empty());
    let ghost whole = match take_locals(b@, p7 as int, n as nat) {
        Err(f) => Err(f),
        Ok((ls, p8)) => Ok(
            (StepModel { step, ip, line, opcode, stack_size, description: description@, locals: ls }, p8),
        ),
    };
    assert(take_step(b@, p as int) == whole);
    while i < n
        invariant
            i <= n,
            take_step(b@, p as int) == whole,
            whole == match take_locals(b@, p7 as int, n as nat) {
                Err(f) => Err(f),
                Ok((ls, p8)) => Ok(
                    (StepModel { step, ip, line, opcode, stack_size, description: description@, locals: ls }, p8),
                ),
            },
            take_locals(b@, p7 as int, i as nat) == Ok::<(Seq<(Seq<char>, Seq<char>)>, int), Fault>(
                (pair_views(locals@), q as int),
            ),
        decreases n - i,
    {
        let (name, q1) = match read_string(b, q) {
            Ok(x) => x,
            Err(e) => {
                proof {
                    let f = choose|f: Fault| take_str(b@, q as int) == Err::<(Seq<char>, int), Fault>(f) && fault_error(f, e);
                    lemma_locals_fault(b@, p7 as int, (i + 1) as nat, n as nat, f);
                }
                return Err(e);
            },
        };
        let (value, q2) = match read_string(b, q1) {
            Ok(x) => x,
            Err(e) => {
                proof {
                    let f = choose|f: Fault| take_str(b@, q1 as int) == Err::<(Seq<char>, int), Fault>(f) && fault_error(f, e);
                    lemma_locals_fault(b@, p7 as int, (i + 1) as nat, n as nat, f);
                }
                return Err(e);
            },
        };
        let ghost before = locals@;
        let ghost pv = (name@, value@);
        locals.push((name, value));
        assert(pair_views(locals@) =~= pair_views(before).push(pv));
        q = q2;
        i = i + 1;
    }
    Ok((RecordedStep { step, ip, line, opcode, stack_size, description, locals }, q))
}

/// A breakpoint at `p`.
fn read_breakpoint(b: &[u8], p: usize) -> (r: Result<(RecordedBreakpoint, usize), RecordingError>)
    ensures
        match take_breakpoint(b@, p as int) {
            Ok((m, q)) => r matches Ok((x, q2)) && x@ == m && q2 == q,
            Err(f) => r matches Err(e) && fault_error(f, e),
        },
{
    let (line, p1) = match read_u32(b, p) {
        Ok(x) => x,
        Err(e) => {
            return Err(e);
        },
    };
    let (enabled, p2) = match read_u8(b, p1) {
        Ok(x) => x,
        Err(e) => {
            return Err(e);
        },
    };
    let (hit_count, p3) = match read_u64(b, p2) {
        Ok(x) => x,
        Err(e) => {
            return Err(e);
        },
    };
    let (has, p4) = match read_u8(b, p3) {
        Ok(x) => x,
        Err(e) => {
            return Err(e);
        },
    };
    if has != 0 {
        let (c, p5) = match read_string(b, p4) {
            Ok(x) => x,
            Err(e) => {
                return Err(e);
            },
        };
        Ok((RecordedBreakpoint { line, enabled: enabled != 0, hit_count, condition: Some(c) }, p5))
    } else {
        Ok((RecordedBreakpoint { line, enabled: enabled != 0, hit_count, condition: None }, p4))
    }
}

/// Read a recording back from its bytes: refused when the bytes do not open
/// with `TTDR`, have a version newer than this library's, end too soon, or
/// hold a text that is not UTF-8.  Bytes after the recording are not read.
pub fn decode_recording(b: &[u8]) -> (r: Result<Recording, RecordingError>)
    ensures
        match parse_recording(b@) {
            Ok(m) => r matches Ok(rec) && rec@ == m,
            Err(f) => r matches Err(e) && fault_error(f, e),
        },
{
    if b.len() < 4 {
        return Err(short_read());
    }
    if !(b[0] == 84u8 && b[1] == 84u8 && b[2] == 68u8 && b[3] == 82u8) {
        proof {
            if b@.subrange(0, 4) == magic() {
                assert(b@.subrange(0, 4)[0] == b@[0]);
                assert(b@.subrange(0, 4)[1] == b@[1]);
                assert(b@.subrange(0, 4)[2] == b@[2]);
                assert(b@.subrange(0, 4)[3] == b@[3]);
            }
        }
        return Err(RecordingError::InvalidFormat(string_of("Invalid recording file")));
    }
    assert(b@.subrange(0, 4) =~= magic());
    let (version, p1) = match read_u32(b, 4) {
        Ok(x) => x,
        Err(e) => {
            return Err(e);
        },
    };
    if version > RECORDING_VERSION {
        return Err(RecordingError::UnsupportedVersion(version));
    }
    let (current_file, p2) = match read_string(b, p1) {
        Ok(x) => x,
        Err(e) => {
            return Err(e);
        },
    };
    let (nlines, p3) = match read_u32(b, p2) {
        Ok(x) => x,
        Err(e) => {
            return Err(e);
        },
    };
    let (source_lines, p4) = match read_strings(b, p3, nlines) {
        Ok(x) => x,
        Err(e) => {
            return Err(e);
        },
    };
    let (nsteps, p5) = match read_u32(b, p4) {
        Ok(x) => x,
        Err(e) => {
            return Err(e);
        },
    };
    let mut steps: Vec<RecordedStep> = Vec::new();
    let mut q = p5;
    let mut i: u32 = 0;
    assert(steps@.map_values(|s: RecordedStep| s@) =~= Seq::<StepModel>::empty());
    let ghost rest1 = match take_steps(b@, p5 as int, nsteps as nat) {
        Err(f) => Err(f),
        Ok((sts, p6)) => match take_u32(b@, p6) {
            Err(f) => Err(f),
            Ok((nbps, p7)) => match take_breakpoints(b@, p7, nbps as nat) {
                Err(f) => Err(f),
                Ok((bps, _)) => Ok(
                    RecordingModel { file: current_file@, lines: crate::text::views_of(source_lines@), steps: sts, breakpoints: bps },
                ),
            },
        },
    };
    assert(parse_recording(b@) == rest1);
    while i < nsteps
        invariant
            i <= nsteps,
            parse_recording(b@) == rest1,
            rest1 == match take_steps(b@, p5 as int, nsteps as nat) {
                Err(f) => Err(f),
                Ok((sts, p6)) => match take_u32(b@, p6) {
                    Err(f) => Err(f),
                    Ok((nbps, p7)) => match take_breakpoints(b@, p7, nbps as nat) {
                        Err(f) => Err(f),
                        Ok((bps, _)) => Ok(
                            RecordingModel { file: current_file@, lines: crate::text::views_of(source_lines@), steps: sts, breakpoints: bps },
                        ),
                    },
                },
            },
            take_steps(b@, p5 as int, i as nat) == Ok::<(Seq<StepModel>, int), Fault>(
                (steps@.map_values(|s: RecordedStep| s@), q as int),
            ),
        decreases nsteps - i,
    {
        let (st, q2) = match read_record(b, q) {
            Ok(x) => x,
            Err(e) => {
                proof {
                    let f = choose|f: Fault| take_step(b@, q as int) == Err::<(StepModel, int), Fault>(f) && fault_error(f, e);
                    lemma_steps_fault(b@, p5 as int, (i + 1) as nat, nsteps as nat, f);
                }
                return Err(e);
            },
        };
        let ghost before = steps@;
        let ghost sv = st@;
        steps.push(st);
        assert(steps@.map_values(|s: RecordedStep| s@) =~= before.map_values(|s: RecordedStep| s@).push(sv));
        q = q2;
        i = i + 1;
    }
    let (nbps, p6) = match read_u32(b, q) {
        Ok(x) => x,
        Err(e) => {
            return Err(e);
        },
    };
    let mut breakpoints: Vec<RecordedBreakpoint> = Vec::new();
    let mut t = p6;
    let mut j: u32 = 0;
    assert(breakpoints@.map_values(|x: RecordedBreakpoint| x@) =~= Seq::<BreakpointModel>::empty());
    let ghost rest2 = match take_breakpoints(b@, p6 as int, nbps as nat) {
        Err(f) => Err(f),
        Ok((bps, _)) => Ok(
            RecordingModel {
                file: current_file@,
                lines: crate::text::views_of(source_lines@),
                steps: steps@.map_values(|s: RecordedStep| s@),
                breakpoints: bps,
            },
        ),
    };
    assert(parse_recording(b@) == rest2);
    while j < nbps
        invariant
            j <= nbps,
            parse_recording(b@) == rest2,
            rest2 == match take_breakpoints(b@, p6 as int, nbps as nat) {
                Err(f) => Err(f),
                Ok((bps, _)) => Ok(
                    RecordingModel {
                        file: current_file@,
                        lines: crate::text::views_of(source_lines@),
                        steps: steps@.map_values(|s: RecordedStep| s@),
                        breakpoints: bps,
                    },
                ),
            },
            take_breakpoints(b@, p6 as int, j as nat) == Ok::<(Seq<BreakpointModel>, int), Fault>(
                (breakpoints@.map_values(|x: RecordedBreakpoint| x@), t as int),
            ),
        decreases nbps - j,
    {
        let (bp, t2) = match read_breakpoint(b, t) {
            Ok(x) => x,
            Err(e) => {
                proof {
                    let f = choose|f: Fault| take_breakpoint(b@, t as int) == Err::<(BreakpointModel, int), Fault>(f) && fault_error(f, e);
                    lemma_breakpoints_fault(b@, p6 as int, (j + 1) as nat, nbps as nat, f);
                }
                return Err(e);
            },
        };
        let ghost before = breakpoints@;
        let ghost bv = bp@;
        breakpoints.push(bp);
        assert(breakpoints@.map_values(|x: RecordedBreakpoint| x@) =~= before.map_values(|x: RecordedBreakpoint| x@).push(bv));
        t = t2;
        j = j + 1;
    }
    Ok(Recording { current_file, source_lines, steps, breakpoints })
}

// ───────────────────────────── Reading back what was written ─────────────────────────────

/// The bytes `x` stand in `b` from `p` on.
pub open spec fn holds_at(b: Seq<u8>, p: int, x: Seq<u8>) -> bool {
    &&& 0 <= p
    &&& p + x.len() <= b.len()
    &&& b.subrange(p, p + x.len()) == x
}

proof fn lemma_holds_split(b: Seq<u8>, p: int, x: Seq<u8>, y: Seq<u8>)
    requires
        holds_at(b, p, x + y),
    ensures
        holds_at(b, p, x),
        holds_at(b, p + x.len(), y),
{
    let xy = x + y;
    assert forall|i: int| 0 <= i < x.len() implies b.subrange(p, p + x.len())[i] == x[i] by {
        assert(b.subrange(p, p + xy.len())[i] == xy[i]);
    }
    assert(b.subrange(p, p + x.len()) =~= x);
    assert forall|i: int| 0 <= i < y.len() implies b.subrange(p + x.len(), p + x.len() + y.len())[i] == y[i] by {
        assert(b.subrange(p, p + xy.len())[x.len() + i] == xy[x.len() + i]);
    }
    assert(b.subrange(p + x.len(), p + x.len() + y.len()) =~= y);
}

proof fn lemma_take_u32(b: Seq<u8>, p: int, n: u32)
    requires
        holds_at(b, p, u32_bytes(n)),
    ensures
        u32_bytes(n).len() == 4,
        take_u32(b, p) == Ok::<(u32, int), Fault>((n, p + 4)),
{
    reveal_with_fuel(pow256, 5);
    lemma_le_roundtrip(n as nat, 4);
}

proof fn lemma_take_u64(b: Seq<u8>, p: int, n: u64)
    requires
        holds_at(b, p, u64_bytes(n)),
    ensures
        u64_bytes(n).len() == 8,
        take_u64(b, p) == Ok::<(u64, int), Fault>((n, p + 8)),
{
    reveal_with_fuel(pow256, 9);
    lemma_le_roundtrip(n as nat, 8);
}

proof fn lemma_take_u8(b: Seq<u8>, p: int, x: u8)
    requires
        holds_at(b, p, seq![x]),
    ensures
        take_u8(b, p) == Ok::<(u8, int), Fault>((x, p + 1)),
{
    assert(b.subrange(p, p + 1)[0] == b[p]);
}

proof fn lemma_take_str(b: Seq<u8>, p: int, s: Seq<char>)
    requires
        text_fits(s),
        holds_at(b, p, str_bytes(s)),
    ensures
        take_str(b, p) == Ok::<(Seq<char>, int), Fault>((s, p + str_bytes(s).len())),
{
    let e = encode_utf8(s);
    lemma_holds_split(b, p, u32_bytes(e.len() as u32), e);
    lemma_take_u32(b, p, e.len() as u32);
    vstd::utf8::encode_utf8_valid_utf8(s);
    vstd::utf8::encode_utf8_decode_utf8(s);
}

proof fn lemma_take_strs(b: Seq<u8>, p: int, v: Seq<Seq<char>>)
    requires
        forall|i: int| 0 <= i < v.len() ==> text_fits(#[trigger] v[i]),
        holds_at(b, p, strs_bytes(v)),
    ensures
        take_strs(b, p, v.len()) == Ok::<(Seq<Seq<char>>, int), Fault>((v, p + strs_bytes(v).len())),
    decreases v.len(),
{
    if v.len() > 0 {
        let init = v.drop_last();
        lemma_holds_split(b, p, strs_bytes(init), str_bytes(v.last()));
        assert forall|i: int| 0 <= i < init.len() implies text_fits(#[trigger] init[i]) by {
            assert(init[i] == v[i]);
        }
        lemma_take_strs(b, p, init);
        lemma_take_str(b, p + strs_bytes(init).len(), v.last());
        assert(init.push(v.last()) =~= v);
        assert((v.len() - 1) as nat == init.len());
    } else {
        assert(v =~= Seq::<Seq<char>>::empty());
    }
}

proof fn lemma_take_locals(b: Seq<u8>, p: int, v: Seq<(Seq<char>, Seq<char>)>)
    requires
        forall|i: int| 0 <= i < v.len() ==> text_fits((#[trigger] v[i]).0) && text_fits(v[i].1),
        holds_at(b, p, locals_bytes(v)),
    ensures
        take_locals(b, p, v.len()) == Ok::<(Seq<(Seq<char>, Seq<char>)>, int), Fault>((v, p + locals_bytes(v).len())),
    decreases v.len(),
{
    if v.len() > 0 {
        let init = v.drop_last();
        let last = v.last();
        lemma_holds_split(b, p, locals_bytes(init) + str_bytes(last.0), str_bytes(last.1));
        lemma_holds_split(b, p, locals_bytes(init), str_bytes(last.0));
        assert forall|i: int| 0 <= i < init.len() implies text_fits((#[trigger] init[i]).0) && text_fits(init[i].1) by {
            assert(init[i] == v[i]);
        }
        assert(text_fits(v[v.len() - 1].0) && text_fits(v[v.len() - 1].1));
        lemma_take_locals(b, p, init);
        lemma_take_str(b, p + locals_bytes(init).len(), last.0);
        lemma_take_str(b, p + locals_bytes(init).len() + str_bytes(last.0).len(), last.1);
        assert(init.push(last) =~= v);
        assert((v.len() - 1) as nat == init.len());
    } else {
        assert(v =~= Seq::<(Seq<char>, Seq<char>)>::empty());
    }
}

proof fn lemma_take_step(b: Seq<u8>, p: int, m: StepModel)
    requires
        step_fits(m),
        holds_at(b, p, step_bytes(m)),
    ensures
        take_step(b, p) == Ok::<(StepModel, int), Fault>((m, p + step_bytes(m).len())),
{
    let a = u64_bytes(m.step);
    let bb = u32_bytes(m.ip);
    let c = u32_bytes(m.line);
    let d = seq![m.opcode];
    let e = u32_bytes(m.stack_size);
    let f = str_bytes(m.description);
    let g = u32_bytes(m.locals.len() as u32);
    let h = locals_bytes(m.locals);
    reveal_with_fuel(pow256, 9);
    lemma_le_roundtrip(m.step as nat, 8);
    lemma_le_roundtrip(m.ip as nat, 4);
    lemma_le_roundtrip(m.line as nat, 4);
    lemma_le_roundtrip(m.stack_size as nat, 4);
    lemma_le_roundtrip(m.locals.len() as u32 as nat, 4);
    lemma_holds_split(b, p, a + bb + c + d + e + f + g, h);
    lemma_holds_split(b, p, a + bb + c + d + e + f, g);
    lemma_holds_split(b, p, a + bb + c + d + e, f);
    lemma_holds_split(b, p, a + bb + c + d, e);
    lemma_holds_split(b, p, a + bb + c, d);
    lemma_holds_split(b, p, a + bb, c);
    lemma_holds_split(b, p, a, bb);
    let p1 = p + 8;
    let p2 = p1 + 4;
    let p3 = p2 + 4;
    let p4 = p3 + 1;
    let p5 = p4 + 4;
    let p6 = p5 + f.len();
    let p7 = p6 + 4;
    lemma_take_u64(b, p, m.step);
    lemma_take_u32(b, p1, m.ip);
    lemma_take_u32(b, p2, m.line);
    lemma_take_u8(b, p3, m.opcode);
    lemma_take_u32(b, p4, m.stack_size);
    lemma_take_str(b, p5, m.description);
    lemma_take_u32(b, p6, m.locals.len() as u32);
    lemma_take_locals(b, p7, m.locals);
    assert((m.locals.len() as u32) as nat == m.locals.len());
}

proof fn lemma_take_steps(b: Seq<u8>, p: int, v: Seq<StepModel>)
    requires
        forall|i: int| 0 <= i < v.len() ==> step_fits(#[trigger] v[i]),
        holds_at(b, p, steps_bytes(v)),
    ensures
        take_steps(b, p, v.len()) == Ok::<(Seq<StepModel>, int), Fault>((v, p + steps_bytes(v).len())),
    decreases v.len(),
{
    if v.len() > 0 {
        let init = v.drop_last();
        lemma_holds_split(b, p, steps_bytes(init), step_bytes(v.last()));
        assert forall|i: int| 0 <= i < init.len() implies step_fits(#[trigger] init[i]) by {
            assert(init[i] == v[i]);
        }
        assert(step_fits(v[v.len() - 1]));
        lemma_take_steps(b, p, init);
        lemma_take_step(b, p + steps_bytes(init).len(), v.last());
        assert(init.push(v.last()) =~= v);
        assert((v.len() - 1) as nat == init.len());
    } else {
        assert(v =~= Seq::<StepModel>::empty());
    }
}

proof fn lemma_take_breakpoint(b: Seq<u8>, p: int, m: BreakpointModel)
    requires
        condition_fits(m),
        holds_at(b, p, breakpoint_bytes(m)),
    ensures
        take_breakpoint(b, p) == Ok::<(BreakpointModel, int), Fault>((m, p + breakpoint_bytes(m).len())),
{
    let a = u32_bytes(m.line);
    let e = seq![flag_byte(m.enabled)];
    let h = u64_bytes(m.hit_count);
    let tail = match m.condition {
        Some(c) => seq![1u8] + str_bytes(c),
        None => seq![0u8],
    };
    reveal_with_fuel(pow256, 9);
    lemma_le_roundtrip(m.line as nat, 4);
    lemma_le_roundtrip(m.hit_count as nat, 8);
    lemma_holds_split(b, p, a + e + h, tail);
    lemma_holds_split(b, p, a + e, h);
    lemma_holds_split(b, p, a, e);
    lemma_take_u32(b, p, m.line);
    lemma_take_u8(b, p + 4, flag_byte(m.enabled));
    lemma_take_u64(b, p + 5, m.hit_count);
    match m.condition {
        Some(c) => {
            lemma_holds_split(b, p + 13, seq![1u8], str_bytes(c));
            lemma_take_u8(b, p + 13, 1u8);
            lemma_take_str(b, p + 14, c);
        },
        None => {
            lemma_take_u8(b, p + 13, 0u8);
        },
    }
}

proof fn lemma_take_breakpoints(b: Seq<u8>, p: int, v: Seq<BreakpointModel>)
    requires
        forall|i: int| 0 <= i < v.len() ==> condition_fits(#[trigger] v[i]),
        holds_at(b, p, breakpoints_bytes(v)),
    ensures
        take_breakpoints(b, p, v.len()) == Ok::<(Seq<BreakpointModel>, int), Fault>((v, p + breakpoints_bytes(v).len())),
    decreases v.len(),
{
    if v.len() > 0 {
        let init = v.drop_last();
        lemma_holds_split(b, p, breakpoints_bytes(init), breakpoint_bytes(v.last()));
        assert forall|i: int| 0 <= i < init.len() implies condition_fits(#[trigger] init[i]) by {
            assert(init[i] == v[i]);
        }
        assert(condition_fits(v[v.len() - 1]));
        lemma_take_breakpoints(b, p, init);
        lemma_take_breakpoint(b, p + breakpoints_bytes(init).len(), v.last());
        assert(init.push(v.last()) =~= v);
        assert((v.len() - 1) as nat == init.len());
    } else {
        assert(v =~= Seq::<BreakpointModel>::empty());
    }
}

/// Where each part of a recording's bytes lies, and what reading it gives.
proof fn lemma_recording_parts(b: Seq<u8>, m: RecordingModel)
    requires
        recording_fits(m),
        holds_at(b, 0, recording_bytes(m)),
    ensures
        b.subrange(0, 4) == magic(),
        take_u32(b, 4) == Ok::<(u32, int), Fault>((1, 8)),
        take_str(b, 8) == Ok::<(Seq<char>, int), Fault>((m.file, 8 + str_bytes(m.file).len() as int)),
        ({
            let p2: int = 8 + str_bytes(m.file).len() as int;
            let p3: int = p2 + 4;
            let p4: int = p3 + strs_bytes(m.lines).len() as int;
            let p5: int = p4 + 4;
            let p6: int = p5 + steps_bytes(m.steps).len() as int;
            let p7: int = p6 + 4;
            &&& take_u32(b, p2) == Ok::<(u32, int), Fault>((m.lines.len() as u32, p3))
            &&& take_strs(b, p3, m.lines.len()) == Ok::<(Seq<Seq<char>>, int), Fault>((m.lines, p4))
            &&& take_u32(b, p4) == Ok::<(u32, int), Fault>((m.steps.len() as u32, p5))
            &&& take_steps(b, p5, m.steps.len()) == Ok::<(Seq<StepModel>, int), Fault>((m.steps, p6))
            &&& take_u32(b, p6) == Ok::<(u32, int), Fault>((m.breakpoints.len() as u32, p7))
            &&& take_breakpoints(b, p7, m.breakpoints.len()) == Ok::<(Seq<BreakpointModel>, int), Fault>(
                (m.breakpoints, p7 + breakpoints_bytes(m.breakpoints).len()),
            )
        }),
{
    let a0 = magic();
    let a1 = u32_bytes(1);
    let a2 = str_bytes(m.file);
    let a3 = u32_bytes(m.lines.len() as u32);
    let a4 = strs_bytes(m.lines);
    let a5 = u32_bytes(m.steps.len() as u32);
    let a6 = steps_bytes(m.steps);
    let a7 = u32_bytes(m.breakpoints.len() as u32);
    let a8 = breakpoints_bytes(m.breakpoints);
    reveal_with_fuel(pow256, 5);
    lemma_le_roundtrip(1, 4);
    lemma_le_roundtrip(m.lines.len() as u32 as nat, 4);
    lemma_le_roundtrip(m.steps.len() as u32 as nat, 4);
    lemma_le_roundtrip(m.breakpoints.len() as u32 as nat, 4);
    lemma_holds_split(b, 0, a0 + a1 + a2 + a3 + a4 + a5 + a6 + a7, a8);
    lemma_holds_split(b, 0, a0 + a1 + a2 + a3 + a4 + a5 + a6, a7);
    lemma_holds_split(b, 0, a0 + a1 + a2 + a3 + a4 + a5, a6);
    lemma_holds_split(b, 0, a0 + a1 + a2 + a3 + a4, a5);
    lemma_holds_split(b, 0, a0 + a1 + a2 + a3, a4);
    lemma_holds_split(b, 0, a0 + a1 + a2, a3);
    lemma_holds_split(b, 0, a0 + a1, a2);
    lemma_holds_split(b, 0, a0, a1);
    lemma_take_u32(b, 4, 1);
    let p2: int = 8 + a2.len() as int;
    let p3: int = p2 + 4;
    let p4: int = p3 + a4.len();
    let p5: int = p4 + 4;
    let p6: int = p5 + a6.len();
    let p7: int = p6 + 4;
    lemma_take_str(b, 8, m.file);
    lemma_take_u32(b, p2, m.lines.len() as u32);
    lemma_take_strs(b, p3, m.lines);
    lemma_take_u32(b, p4, m.steps.len() as u32);
    lemma_take_steps(b, p5, m.steps);
    lemma_take_u32(b, p6, m.breakpoints.len() as u32);
    lemma_take_breakpoints(b, p7, m.breakpoints);
}

proof fn lemma_parse_from_parts(b: Seq<u8>, m: RecordingModel)
    requires
        b.len() >= 4,
        recording_fits(m),
        b.subrange(0, 4) == magic(),
        take_u32(b, 4) == Ok::<(u32, int), Fault>((1, 8)),
        take_str(b, 8) == Ok::<(Seq<char>, int), Fault>((m.file, 8 + str_bytes(m.file).len() as int)),
        ({
            let p2: int = 8 + str_bytes(m.file).len() as int;
            let p3: int = p2 + 4;
            let p4: int = p3 + strs_bytes(m.lines).len() as int;
            let p5: int = p4 + 4;
            let p6: int = p5 + steps_bytes(m.steps).len() as int;
            let p7: int = p6 + 4;
            &&& take_u32(b, p2) == Ok::<(u32, int), Fault>((m.lines.len() as u32, p3))
            &&& take_strs(b, p3, m.lines.len()) == Ok::<(Seq<Seq<char>>, int), Fault>((m.lines, p4))
            &&& take_u32(b, p4) == Ok::<(u32, int), Fault>((m.steps.len() as u32, p5))
            &&& take_steps(b, p5, m.steps.len()) == Ok::<(Seq<StepModel>, int), Fault>((m.steps, p6))
            &&& take_u32(b, p6) == Ok::<(u32, int), Fault>((m.breakpoints.len() as u32, p7))
            &&& take_breakpoints(b, p7, m.breakpoints.len()) == Ok::<(Seq<BreakpointModel>, int), Fault>(
                (m.breakpoints, p7 + breakpoints_bytes(m.breakpoints).len()),
            )
        }),
    ensures
        parse_recording(b) == Ok::<RecordingModel, Fault>(m),
{
    assert((m.lines.len() as u32) as nat == m.lines.len());
    assert((m.steps.len() as u32) as nat == m.steps.len());
    assert((m.breakpoints.len() as u32) as nat == m.breakpoints.len());
}

/// Reading back the bytes of a recording, whatever follows them, gives the
/// A text read back: the bytes written for a text, followed by any bytes,
/// give the text back and stop where those bytes begin.
pub proof fn lemma_text_roundtrip(s: Seq<char>, rest: Seq<u8>)
    requires
        text_fits(s),
    ensures
        take_str(str_bytes(s) + rest, 0) == Ok::<(Seq<char>, int), Fault>((s, str_bytes(s).len() as int)),
{
    let b = str_bytes(s) + rest;
    assert(b.subrange(0, str_bytes(s).len() as int) =~= str_bytes(s));
    lemma_take_str(b, 0, s);
}

/// recording, when its lengths and counts fit the format.
pub proof fn lemma_recording_roundtrip(m: RecordingModel, rest: Seq<u8>)
    requires
        recording_fits(m),
    ensures
        parse_recording(recording_bytes(m) + rest) == Ok::<RecordingModel, Fault>(m),
{
    let b = recording_bytes(m) + rest;
    assert(b.subrange(0, recording_bytes(m).len() as int) =~= recording_bytes(m));
    lemma_recording_parts(b, m);
    lemma_parse_from_parts(b, m);
}

} // verus!
