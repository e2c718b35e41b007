//! Source Map V3 encoding and decoding with Base64 VLQ, and Rust-style
//! rendering of errors and warnings.
use vstd::prelude::*;
use crate::text::{push_char, decimal};
use crate::error::Error;
use crate::json::{JsonValue, parse_json, json_parse_outcome};

verus! {

// ───────────────────────────── Base64 digits ─────────────────────────────

/// The Base64 alphabet character for a sextet `d < 64`.
pub open spec fn base64_char(d: nat) -> char {
    if d < 26 {
        (65 + d) as char
    } else if d < 52 {
        (97 + (d - 26)) as char
    } else if d < 62 {
        (48 + (d - 52)) as char
    } else if d == 62 {
        '+'
    } else {
        '/'
    }
}

/// The sextet that a Base64 alphabet character stands for; `None` for any
/// other character.
pub open spec fn base64_value(c: char) -> Option<u8> {
    let n = c as u32;
    if 65 <= n <= 90 {
        Some((n - 65) as u8)
    } else if 97 <= n <= 122 {
        Some((n - 97 + 26) as u8)
    } else if 48 <= n <= 57 {
        Some((n - 48 + 52) as u8)
    } else if c == '+' {
        Some(62u8)
    } else if c == '/' {
        Some(63u8)
    } else {
        None
    }
}

/// Every sextet's character reads back as that sextet.
pub proof fn lemma_base64_value_of_char(d: nat)
    requires
        d < 64,
    ensures
        base64_value(base64_char(d)) == Some(d as u8),
{
}

pub(crate) fn base64_encode_digit(d: u8) -> (c: char)
    requires
        d < 64,
    ensures
        c == base64_char(d as nat),
{
    if d < 26 {
        (65 + d) as char
    } else if d < 52 {
        (97 + (d - 26)) as char
    } else if d < 62 {
        (48 + (d - 52)) as char
    } else if d == 62 {
        '+'
    } else {
        '/'
    }
}

pub(crate) fn base64_decode_char(c: char) -> (r: Option<u8>)
    ensures
        r == base64_value(c),
{
    let n = c as u32;
    if 65 <= n && n <= 90 {
        Some((n - 65) as u8)
    } else if 97 <= n && n <= 122 {
        Some((n - 97 + 26) as u8)
    } else if 48 <= n && n <= 57 {
        Some((n - 48 + 52) as u8)
    } else if c == '+' {
        Some(62u8)
    } else if c == '/' {
        Some(63u8)
    } else {
        None
    }
}

// ───────────────────────────── VLQ ─────────────────────────────

/// The unsigned number that a signed value is sent as: its magnitude
/// doubled, plus one when it is negative.
pub open spec fn zigzag(v: int) -> int {
    if v < 0 {
        -2 * v + 1
    } else {
        2 * v
    }
}

/// The VLQ sextets of `u`: five bits at a time, least significant first,
/// each but the last with the continuation bit (32) set.
pub open spec fn vlq_digits(u: nat) -> Seq<nat>
    decreases u,
{
    if u < 32 {
        seq![u]
    } else {
        seq![(u % 32 + 32) as nat] + vlq_digits(u / 32)
    }
}

/// The characters of a sequence of sextets.
pub open spec fn vlq_chars(ds: Seq<nat>) -> Seq<char> {
    ds.map_values(|d: nat| base64_char(d))
}

/// The Base64 VLQ text of a signed value.
pub open spec fn vlq_encoding(v: int) -> Seq<char> {
    vlq_chars(vlq_digits(zigzag(v) as nat))
}

/// The signed value of a finished VLQ accumulator.
pub open spec fn unzigzag(acc: u64) -> i64 {
    if acc % 2 == 1 {
        (-((acc / 2) as int)) as i64
    } else {
        (acc / 2) as i64
    }
}

/// The values decoded from `s`, given the accumulator and bit position of a
/// value already begun.  Decoding stops at the first character outside the
/// Base64 alphabet; a value left unfinished at the end is dropped.
pub open spec fn vlq_decode_from(s: Seq<char>, acc: u64, shift: u64) -> Seq<i64>
    decreases s.len(),
{
    if s.len() == 0 {
        seq![]
    } else {
        match base64_value(s[0]) {
            None => seq![],
            Some(d) => {
                let acc2 = acc | (((d % 32) as u64) << shift);
                if d >= 32 {
                    vlq_decode_from(s.drop_first(), acc2, (shift + 5) as u64)
                } else {
                    seq![unzigzag(acc2)] + vlq_decode_from(s.drop_first(), 0, 0)
                }
            }
        }
    }
}

/// The values that a VLQ text decodes to.
pub open spec fn vlq_decode(s: Seq<char>) -> Seq<i64> {
    vlq_decode_from(s, 0, 0)
}

/// Every sextet that decoding reads lands below bit 64 of the accumulator:
/// no run of continuation sextets is so long that its bit position overflows.
pub open spec fn vlq_shifts_fit(s: Seq<char>, shift: u64) -> bool
    decreases s.len(),
{
    if s.len() == 0 {
        true
    } else {
        match base64_value(s[0]) {
            None => true,
            Some(d) => shift < 64 && if d >= 32 {
                vlq_shifts_fit(s.drop_first(), (shift + 5) as u64)
            } else {
                vlq_shifts_fit(s.drop_first(), 0)
            },
        }
    }
}

/// The texts that decoding accepts.
pub open spec fn vlq_decodable(s: Seq<char>) -> bool {
    vlq_shifts_fit(s, 0)
}

proof fn lemma_vlq_chars_add(a: Seq<nat>, b: Seq<nat>)
    ensures
        vlq_chars(a + b) == vlq_chars(a) + vlq_chars(b),
{
    assert(vlq_chars(a + b) =~= vlq_chars(a) + vlq_chars(b));
}

proof fn lemma_digits_bounded(u: nat)
    ensures
        forall|i: int| 0 <= i < vlq_digits(u).len() ==> #[trigger] vlq_digits(u)[i] < 64,
        vlq_digits(u).len() >= 1,
    decreases u,
{
    if u >= 32 {
        lemma_digits_bounded(u / 32);
        let t = vlq_digits(u / 32);
        assert forall|i: int| 0 <= i < vlq_digits(u).len() implies #[trigger] vlq_digits(u)[i] < 64 by {
            if i > 0 {
                assert(vlq_digits(u)[i] == t[i - 1]);
            }
        }
    }
}

proof fn lemma_shift_step(acc: u64, u: u64, s: u64)
    by (bit_vector)
    requires
        s < 64,
        u >= 32,
        (u << s) >> s == u,
        acc >> s == 0,
    ensures
        s + 5 < 64,
        (acc | ((u % 32) << s)) | ((u / 32) << ((s + 5) as u64)) == acc | (u << s),
        ((u / 32) << ((s + 5) as u64)) >> ((s + 5) as u64) == u / 32,
        (acc | ((u % 32) << s)) >> ((s + 5) as u64) == 0,
{
}

proof fn lemma_decode_digits(u: u64, acc: u64, shift: u64, rest: Seq<char>)
    requires
        shift < 64,
        (u << shift) >> shift == u,
        acc >> shift == 0,
    ensures
        vlq_decode_from(vlq_chars(vlq_digits(u as nat)) + rest, acc, shift) == seq![unzigzag(
            acc | (u << shift),
        )] + vlq_decode_from(rest, 0, 0),
        vlq_shifts_fit(vlq_chars(vlq_digits(u as nat)) + rest, shift) == vlq_shifts_fit(rest, 0),
    decreases u,
{
    let s = vlq_chars(vlq_digits(u as nat)) + rest;
    lemma_digits_bounded(u as nat);
    if u < 32 {
        assert(vlq_digits(u as nat) =~= seq![u as nat]);
        lemma_base64_value_of_char(u as nat);
        assert(s[0] == base64_char(u as nat));
        assert(s.drop_first() =~= rest);
        let d = u as u8;
        assert((d % 32) as u64 == u);
    } else {
        let d = (u % 32 + 32) as nat;
        let tail = vlq_digits((u / 32) as nat);
        assert(vlq_digits(u as nat) == seq![d] + tail);
        lemma_vlq_chars_add(seq![d], tail);
        lemma_base64_value_of_char(d);
        assert(vlq_chars(seq![d]) =~= seq![base64_char(d)]);
        assert(s[0] == base64_char(d));
        assert(s.drop_first() =~= vlq_chars(tail) + rest);
        assert(((d as u8) % 32) as u64 == u % 32);
        lemma_shift_step(acc, u, shift);
        lemma_decode_digits(u / 32, acc | ((u % 32) << shift), (shift + 5) as u64, rest);
        assert(tail == vlq_digits((u / 32) as u64 as nat));
    }
}

/// Decoding the encoding of `v`, followed by any text, gives back `v` and then
/// what that text decodes to; so encodings can be concatenated.
pub proof fn lemma_vlq_concat(v: i64, rest: Seq<char>)
    requires
        v != i64::MIN,
    ensures
        vlq_decode(vlq_encoding(v as int) + rest) == seq![v] + vlq_decode(rest),
        vlq_decodable(vlq_encoding(v as int) + rest) == vlq_decodable(rest),
{
    let u = zigzag(v as int) as u64;
    assert((u << 0u64) >> 0u64 == u) by (bit_vector);
    assert(0u64 >> 0u64 == 0) by (bit_vector);
    assert(0u64 | (u << 0u64) == u) by (bit_vector);
    assert(zigzag(v as int) as u64 as nat == zigzag(v as int) as nat);
    lemma_decode_digits(u, 0, 0, rest);
    assert(unzigzag(u) == v);
}

/// Decoding the encoding of `v` gives back exactly `v`.
pub proof fn lemma_vlq_roundtrip(v: i64)
    requires
        v != i64::MIN,
    ensures
        vlq_decode(vlq_encoding(v as int)) == seq![v],
        vlq_decodable(vlq_encoding(v as int)),
{
    lemma_vlq_concat(v, seq![]);
    assert(vlq_encoding(v as int) + Seq::<char>::empty() =~= vlq_encoding(v as int));
}

/// Base64 VLQ encoder/decoder for source maps.
pub struct VlqEncoder;

impl VlqEncoder {
    /// Encode a signed integer as a Base64 VLQ string.
    ///
    /// The smallest `i64` has no magnitude in `i64` and is left out.
    pub fn encode_vlq(value: i64) -> (s: String)
        requires
            value != i64::MIN,
        ensures
            s@ == vlq_encoding(value as int),
    {
        let mut vlq: u64 = if value < 0 {
            ((-value) as u64) * 2 + 1
        } else {
            (value as u64) * 2
        };
        let ghost target = vlq_encoding(value as int);
        assert(vlq as nat == zigzag(value as int));
        let mut result = String::new();
        proof {
            lemma_digits_bounded(vlq as nat);
        }
        loop
            invariant_except_break
                result@ + vlq_chars(vlq_digits(vlq as nat)) == target,
            ensures
                result@ == target,
            decreases vlq,
        {
            let ghost before = vlq;
            let low = (vlq % 32) as u8;
            vlq = vlq / 32;
            let digit = if vlq > 0 {
                low + 32
            } else {
                low
            };
            push_char(&mut result, base64_encode_digit(digit));
            proof {
                if vlq > 0 {
                    assert(vlq_digits(before as nat) == seq![digit as nat] + vlq_digits(vlq as nat));
                    lemma_vlq_chars_add(seq![digit as nat], vlq_digits(vlq as nat));
                    assert(vlq_chars(seq![digit as nat]) =~= seq![base64_char(digit as nat)]);
                    assert(result@ + vlq_chars(vlq_digits(vlq as nat)) =~= target);
                } else {
                    assert(vlq_digits(before as nat) =~= seq![digit as nat]);
                    assert(vlq_chars(seq![digit as nat]) =~= seq![base64_char(digit as nat)]);
                    assert(result@ =~= target);
                }
            }
            if vlq == 0 {
                break;
            }
        }
        result
    }

    /// Decode a Base64 VLQ string into a vector of signed integers.
    ///
    /// Decoding stops at the first character outside the Base64 alphabet.
    pub fn decode_vlq(input: &str) -> (values: Vec<i64>)
        requires
            vlq_decodable(input@),
        ensures
            values@ == vlq_decode(input@),
    {
        match try_decode_vlq(input) {
            Some(v) => v,
            None => Vec::new(),
        }
    }
}

/// Decodes a Base64 VLQ text, or gives `None` where a run of continuation
/// sextets reaches past bit 64.
pub fn try_decode_vlq(input: &str) -> (r: Option<Vec<i64>>)
    ensures
        r is Some <==> vlq_decodable(input@),
        (r matches Some(values) ==> values@ == vlq_decode(input@)),
{
    let cs = crate::text::chars_of(input);
    let mut values: Vec<i64> = Vec::new();
    let mut shift: u64 = 0;
    let mut accum: u64 = 0;
    let mut i: usize = 0;
    assert(cs@.skip(0) =~= cs@);
    loop
        invariant_except_break
            i <= cs.len(),
            cs@ == input@,
            vlq_shifts_fit(cs@.skip(i as int), shift) == vlq_decodable(input@),
            vlq_shifts_fit(cs@.skip(i as int), shift) ==> values@ + vlq_decode_from(
                cs@.skip(i as int),
                accum,
                shift,
            ) == vlq_decode(input@),
        ensures
            vlq_decodable(input@),
            values@ == vlq_decode(input@),
        decreases cs.len() - i,
    {
        if i >= cs.len() {
            assert(cs@.skip(i as int) =~= Seq::<char>::empty());
            assert(values@ + Seq::<i64>::empty() =~= values@);
            break;
        }
        let ghost rest = cs@.skip(i as int);
        assert(rest[0] == cs@[i as int]);
        assert(rest.drop_first() =~= cs@.skip(i as int + 1));
        let digit = match base64_decode_char(cs[i]) {
            Some(d) => d,
            None => {
                assert(values@ + Seq::<i64>::empty() =~= values@);
                break;
            },
        };
        if shift >= 64 {
            return None;
        }
        let has_continuation = digit >= 32;
        let value_bits = (digit % 32) as u64;
        accum = accum | (value_bits << shift);
        if has_continuation {
            shift = shift + 5;
        } else {
            let is_negative = accum % 2 == 1;
            let magnitude = (accum / 2) as i64;
            values.push(
                if is_negative {
                    -magnitude
                } else {
                    magnitude
                },
            );
            accum = 0;
            shift = 0;
            assert(values@ + vlq_decode_from(cs@.skip(i as int + 1), 0, 0) =~= values@.drop_last() + (
            seq![values@.last()] + vlq_decode_from(cs@.skip(i as int + 1), 0, 0)));
        }
        i = i + 1;
    }
    Some(values)
}

// ───────────────────────────── Source Map V3 ─────────────────────────────

/// Result of a source map lookup – the original position in source code.
#[derive(Debug, Clone, PartialEq, Eq)]
pub struct OriginalPosition {
    /// Original source file path.
    pub source: String,
    /// Original line (0-indexed).
    pub line: u32,
    /// Original column (0-indexed).
    pub column: u32,
    /// Original symbol name, if any.
    pub name: Option<String>,
}

/// One decoded mapping segment: a generated position and, when the segment
/// has them, the original source, line, column and name it maps to.
#[derive(Debug, Clone, Copy, PartialEq, Eq, Structural)]
pub struct DecodedSegment {
    pub gen_line: u32,
    pub gen_column: u32,
    pub source_idx: Option<u32>,
    pub orig_line: Option<u32>,
    pub orig_column: Option<u32>,
    pub name_idx: Option<u32>,
}

/// A Source Map V3 encoder/decoder.
#[derive(Debug, Clone)]
pub struct SourceMapV3 {
    /// Version number (always 3).
    pub version: u32,
    /// Name of the generated file.
    pub file: Option<String>,
    /// Source root prefix.
    pub source_root: Option<String>,
    /// Source file paths.
    pub sources: Vec<String>,
    /// Optional inline source contents.
    pub sources_content: Vec<Option<String>>,
    /// Symbol names referenced by mappings.
    pub names: Vec<String>,
    /// VLQ-encoded mappings string.
    pub mappings: String,
    /// Decoded mapping segments for lookup.
    pub decoded_segments: Vec<DecodedSegment>,
}

/// Whether a segment lies on generated line `line` at or before `column`.
pub open spec fn seg_candidate(seg: DecodedSegment, line: u32, column: u32) -> bool {
    seg.gen_line == line && seg.gen_column <= column
}

/// Segment `i` is the one a lookup of (`line`, `column`) picks: a candidate
/// with the largest column, the first of them.
pub open spec fn is_best_segment(segs: Seq<DecodedSegment>, i: int, line: u32, column: u32) -> bool {
    &&& 0 <= i < segs.len()
    &&& seg_candidate(segs[i], line, column)
    &&& forall|j: int|
        0 <= j < segs.len() && seg_candidate(#[trigger] segs[j], line, column) ==> segs[j].gen_column
            <= segs[i].gen_column
    &&& forall|j: int|
        0 <= j < i && seg_candidate(#[trigger] segs[j], line, column) ==> segs[j].gen_column
            < segs[i].gen_column
}

impl SourceMapV3 {
    /// The decoded mapping segments, in the order they were added or read.
    pub open spec fn segments(&self) -> Seq<DecodedSegment> {
        self.decoded_segments@
    }

    /// The original position that a segment maps to, when it has a source
    /// that exists, a line and a column; the name is kept when its index
    /// exists.
    pub open spec fn position_of(&self, seg: DecodedSegment) -> Option<(Seq<char>, u32, u32, Option<Seq<char>>)> {
        match (seg.source_idx, seg.orig_line, seg.orig_column) {
            (Some(src), Some(l), Some(c)) => if src < self.sources@.len() {
                Some(
                    (
                        self.sources@[src as int]@,
                        l,
                        c,
                        match seg.name_idx {
                            Some(n) => if n < self.names@.len() {
                                Some(self.names@[n as int]@)
                            } else {
                                None
                            },
                            None => None,
                        },
                    ),
                )
            } else {
                None
            },
            _ => None,
        }
    }

    /// Create a new, empty source map.
    pub fn new() -> (r: Self)
        ensures
            r.version == 3,
            r.file is None,
            r.source_root is None,
            r.sources@.len() == 0,
            r.sources_content@.len() == 0,
            r.names@.len() == 0,
            r.mappings@.len() == 0,
            r.segments().len() == 0,
    {
        SourceMapV3 {
            version: 3,
            file: None,
            source_root: None,
            sources: Vec::new(),
            sources_content: Vec::new(),
            names: Vec::new(),
            mappings: String::new(),
            decoded_segments: Vec::new(),
        }
    }

    /// Add a source file and return its index.
    pub fn add_source(&mut self, path: &str) -> (idx: u32)
        ensures
            idx == old(self).sources@.len() as u32,
            final(self).sources@.len() == old(self).sources@.len() + 1,
            final(self).sources@.drop_last() == old(self).sources@,
            final(self).sources@.last()@ == path@,
            final(self).sources_content@ == old(self).sources_content@.push(None),
            final(self).version == old(self).version,
            final(self).file == old(self).file,
            final(self).source_root == old(self).source_root,
            final(self).names == old(self).names,
            final(self).mappings == old(self).mappings,
            final(self).segments() == old(self).segments(),
    {
        let idx = self.sources.len() as u32;
        self.sources.push(crate::text::string_of(path));
        self.sources_content.push(None);
        assert(self.sources@.drop_last() =~= old(self).sources@);
        idx
    }

    /// Add a name and return its index.
    pub fn add_name(&mut self, name: &str) -> (idx: u32)
        ensures
            idx == old(self).names@.len() as u32,
            final(self).names@.len() == old(self).names@.len() + 1,
            final(self).names@.drop_last() == old(self).names@,
            final(self).names@.last()@ == name@,
            final(self).version == old(self).version,
            final(self).file == old(self).file,
            final(self).source_root == old(self).source_root,
            final(self).sources == old(self).sources,
            final(self).sources_content == old(self).sources_content,
            final(self).mappings == old(self).mappings,
            final(self).segments() == old(self).segments(),
    {
        let idx = self.names.len() as u32;
        self.names.push(crate::text::string_of(name));
        assert(self.names@.drop_last() =~= old(self).names@);
        idx
    }

    /// Add a mapping segment.
    pub fn add_mapping(
        &mut self,
        gen_line: u32,
        gen_column: u32,
        source_idx: u32,
        orig_line: u32,
        orig_column: u32,
        name_idx: Option<u32>,
    )
        ensures
            final(self).segments() == old(self).segments().push(
                DecodedSegment {
                    gen_line,
                    gen_column,
                    source_idx: Some(source_idx),
                    orig_line: Some(orig_line),
                    orig_column: Some(orig_column),
                    name_idx,
                },
            ),
            final(self).version == old(self).version,
            final(self).file == old(self).file,
            final(self).source_root == old(self).source_root,
            final(self).sources == old(self).sources,
            final(self).sources_content == old(self).sources_content,
            final(self).names == old(self).names,
            final(self).mappings == old(self).mappings,
    {
        self.decoded_segments.push(
            DecodedSegment {
                gen_line,
                gen_column,
                source_idx: Some(source_idx),
                orig_line: Some(orig_line),
                orig_column: Some(orig_column),
                name_idx,
            },
        );
    }

    /// Look up the original position for a generated line/column (both 0-indexed).
    ///
    /// The segment used is the one on that line with the largest column not
    /// past `gen_column` (the first such when several share it).
    pub fn lookup(&self, gen_line: u32, gen_column: u32) -> (r: Option<OriginalPosition>)
        ensures
            (forall|j: int|
                0 <= j < self.segments().len() ==> !seg_candidate(
                    #[trigger] self.segments()[j],
                    gen_line,
                    gen_column,
                )) ==> r is None,
            forall|i: int|
                is_best_segment(self.segments(), i, gen_line, gen_column) ==> match self.position_of(
                    self.segments()[i],
                ) {
                    None => r is None,
                    Some(p) => r matches Some(pos) && pos.source@ == p.0 && pos.line == p.1
                        && pos.column == p.2 && match (pos.name, p.3) {
                        (Some(a), Some(b)) => a@ == b,
                        (None, None) => true,
                        _ => false,
                    },
                },
    {
        let segs = &self.decoded_segments;
        let mut best: Option<usize> = None;
        let mut k: usize = 0;
        while k < segs.len()
            invariant
                k <= segs.len(),
                segs@ == self.segments(),
                match best {
                    None => forall|j: int| 0 <= j < k ==> !seg_candidate(#[trigger] segs@[j], gen_line, gen_column),
                    Some(b) => is_best_segment(segs@.take(k as int), b as int, gen_line, gen_column),
                },
            decreases segs.len() - k,
        {
            let seg = segs[k];
            if seg.gen_line == gen_line && seg.gen_column <= gen_column {
                match best {
                    Some(b) => {
                        if seg.gen_column > segs[b].gen_column {
                            best = Some(k);
                        }
                    },
                    None => {
                        best = Some(k);
                    },
                }
            }
            proof {
                let t = segs@.take(k as int + 1);
                assert(forall|j: int| 0 <= j < k ==> t[j] == segs@.take(k as int)[j]);
                assert(t[k as int] == seg);
            }
            k = k + 1;
        }
        assert(segs@.take(k as int) =~= segs@);
        match best {
            None => None,
            Some(b) => {
                let seg = segs[b];
                proof {
                    assert forall|i: int| is_best_segment(self.segments(), i, gen_line, gen_column) implies i == b by {
                        if i < b {
                            assert(seg_candidate(segs@[i], gen_line, gen_column));
                        } else if i > b {
                            assert(seg_candidate(segs@[b as int], gen_line, gen_column));
                        }
                    }
                }
                self.position_at(seg)
            },
        }
    }

    fn position_at(&self, seg: DecodedSegment) -> (r: Option<OriginalPosition>)
        ensures
            match self.position_of(seg) {
                None => r is None,
                Some(p) => r matches Some(pos) && pos.source@ == p.0 && pos.line == p.1 && pos.column
                    == p.2 && match (pos.name, p.3) {
                    (Some(a), Some(b)) => a@ == b,
                    (None, None) => true,
                    _ => false,
                },
            },
    {
        let src = match seg.source_idx {
            Some(x) => x,
            None => return None,
        };
        let line = match seg.orig_line {
            Some(x) => x,
            None => return None,
        };
        let column = match seg.orig_column {
            Some(x) => x,
            None => return None,
        };
        if src as usize >= self.sources.len() {
            return None;
        }
        let source = crate::text::string_of(self.sources[src as usize].as_str());
        let name = match seg.name_idx {
            Some(n) => if (n as usize) < self.names.len() {
                Some(crate::text::string_of(self.names[n as usize].as_str()))
            } else {
                None
            },
            None => None,
        };
        Some(OriginalPosition { source, line, column, name })
    }
}

// ───────────────────────────── Encoding ─────────────────────────────

/// Segment `a` does not come after segment `b` in generated order.
pub open spec fn seg_le(a: DecodedSegment, b: DecodedSegment) -> bool {
    a.gen_line < b.gen_line || (a.gen_line == b.gen_line && a.gen_column <= b.gen_column)
}

/// `x` inserted into sorted `s` after every segment that does not come after it.
pub open spec fn insert_sorted(s: Seq<DecodedSegment>, x: DecodedSegment) -> Seq<DecodedSegment>
    decreases s.len(),
{
    if s.len() == 0 {
        seq![x]
    } else if seg_le(s.last(), x) {
        s.push(x)
    } else {
        insert_sorted(s.drop_last(), x).push(s.last())
    }
}

/// The segments stably sorted by generated line, then generated column.
pub open spec fn sort_segments(s: Seq<DecodedSegment>) -> Seq<DecodedSegment>
    decreases s.len(),
{
    if s.len() == 0 {
        seq![]
    } else {
        insert_sorted(sort_segments(s.drop_last()), s.last())
    }
}

fn insert_segment(v: &mut Vec<DecodedSegment>, x: DecodedSegment)
    ensures
        final(v)@ == insert_sorted(old(v)@, x),
    decreases old(v)@.len(),
{
    let n = v.len();
    if n == 0 {
        v.push(x);
    } else {
        let last = v[n - 1];
        if last.gen_line < x.gen_line || (last.gen_line == x.gen_line && last.gen_column <= x.gen_column) {
            v.push(x);
        } else {
            let ghost before = v@;
            let l = v.pop().unwrap();
            assert(v@ == before.drop_last());
            insert_segment(v, x);
            v.push(l);
        }
    }
}

fn sorted_segments(segs: &Vec<DecodedSegment>) -> (r: Vec<DecodedSegment>)
    ensures
        r@ == sort_segments(segs@),
{
    let mut sorted: Vec<DecodedSegment> = Vec::new();
    let mut i: usize = 0;
    while i < segs.len()
        invariant
            i <= segs.len(),
            sorted@ == sort_segments(segs@.take(i as int)),
        decreases segs.len() - i,
    {
        assert(segs@.take(i as int + 1).drop_last() =~= segs@.take(i as int));
        insert_segment(&mut sorted, segs[i]);
        i = i + 1;
    }
    assert(segs@.take(i as int) =~= segs@);
    sorted
}

/// The running values that each field of a mapping segment is written
/// relative to.
pub struct MappingCursor {
    pub gen_line: u32,
    pub gen_col: i64,
    pub source: i64,
    pub orig_line: i64,
    pub orig_col: i64,
    pub name: i64,
    pub first_in_line: bool,
}

/// The cursor before the first segment.
pub open spec fn start_cursor() -> MappingCursor {
    MappingCursor {
        gen_line: 0,
        gen_col: 0,
        source: 0,
        orig_line: 0,
        orig_col: 0,
        name: 0,
        first_in_line: true,
    }
}

/// The cursor moved to the segment's generated line: a new line starts the
/// generated column afresh.
pub open spec fn cursor_at_line(seg: DecodedSegment, c: MappingCursor) -> MappingCursor {
    if c.gen_line < seg.gen_line {
        MappingCursor { gen_line: seg.gen_line, gen_col: 0, first_in_line: true, ..c }
    } else {
        c
    }
}

/// The VLQ of the source, original line, original column and (when there
/// is one) name of a segment, each relative to the cursor; nothing for a
/// segment without a source position.
pub open spec fn fields_text(seg: DecodedSegment, c: MappingCursor) -> Seq<char> {
    match (seg.source_idx, seg.orig_line, seg.orig_column) {
        (Some(src), Some(ol), Some(oc)) => vlq_encoding(src - c.source) + vlq_encoding(ol - c.orig_line)
            + vlq_encoding(oc - c.orig_col) + match seg.name_idx {
            Some(ni) => vlq_encoding(ni - c.name),
            None => seq![],
        },
        _ => seq![],
    }
}

/// The cursor after the source position fields of a segment.
pub open spec fn fields_cursor(seg: DecodedSegment, c: MappingCursor) -> MappingCursor {
    match (seg.source_idx, seg.orig_line, seg.orig_column) {
        (Some(src), Some(ol), Some(oc)) => MappingCursor {
            source: src as i64,
            orig_line: ol as i64,
            orig_col: oc as i64,
            name: match seg.name_idx {
                Some(ni) => ni as i64,
                None => c.name,
            },
            ..c
        },
        _ => c,
    }
}

/// The `;` written for each generated line passed before a segment.
pub open spec fn breaks_text(seg: DecodedSegment, c: MappingCursor) -> Seq<char> {
    if c.gen_line < seg.gen_line {
        crate::text::repeat_spec(';', (seg.gen_line - c.gen_line) as nat)
    } else {
        seq![]
    }
}

/// The text written for one segment: a `;` for each generated line passed, a
/// `,` before all but the first segment of a line, then the VLQ of each field
/// relative to the cursor.
pub open spec fn segment_text(seg: DecodedSegment, c: MappingCursor) -> Seq<char> {
    let c1 = cursor_at_line(seg, c);
    let comma = if c1.first_in_line {
        seq![]
    } else {
        seq![',']
    };
    breaks_text(seg, c) + comma + vlq_encoding(seg.gen_column - c1.gen_col) + fields_text(seg, c1)
}

/// The cursor after writing one segment.
pub open spec fn cursor_after(seg: DecodedSegment, c: MappingCursor) -> MappingCursor {
    let c1 = cursor_at_line(seg, c);
    fields_cursor(seg, MappingCursor { gen_col: seg.gen_column as i64, first_in_line: false, ..c1 })
}

/// The mappings text of segments written in order from cursor `c`.
pub open spec fn mappings_text_from(segs: Seq<DecodedSegment>, c: MappingCursor) -> Seq<char>
    decreases segs.len(),
{
    if segs.len() == 0 {
        seq![]
    } else {
        segment_text(segs[0], c) + mappings_text_from(segs.drop_first(), cursor_after(segs[0], c))
    }
}

/// The mappings text of a map's segments: sorted, then written in order.
pub open spec fn mappings_text(segs: Seq<DecodedSegment>) -> Seq<char> {
    mappings_text_from(sort_segments(segs), start_cursor())
}

/// Every running value of the cursor is a `u32`.
pub open spec fn cursor_bounded(c: MappingCursor) -> bool {
    &&& 0 <= c.gen_col <= u32::MAX
    &&& 0 <= c.source <= u32::MAX
    &&& 0 <= c.orig_line <= u32::MAX
    &&& 0 <= c.orig_col <= u32::MAX
    &&& 0 <= c.name <= u32::MAX
}

fn push_vlq(s: &mut String, v: i64)
    requires
        v != i64::MIN,
    ensures
        final(s)@ == old(s)@ + vlq_encoding(v as int),
{
    let t = VlqEncoder::encode_vlq(v);
    crate::text::push_str(s, t.as_str());
}

fn write_fields(result: &mut String, seg: DecodedSegment, cur: &mut MappingCursor)
    requires
        cursor_bounded(*old(cur)),
    ensures
        final(result)@ == old(result)@ + fields_text(seg, *old(cur)),
        *final(cur) == fields_cursor(seg, *old(cur)),
        cursor_bounded(*final(cur)),
{
    let ghost start = result@;
    match (seg.source_idx, seg.orig_line, seg.orig_column) {
        (Some(src), Some(ol), Some(oc)) => {
            let src_i = src as i64;
            let ol_i = ol as i64;
            let oc_i = oc as i64;
            push_vlq(result, src_i - cur.source);
            push_vlq(result, ol_i - cur.orig_line);
            push_vlq(result, oc_i - cur.orig_col);
            match seg.name_idx {
                Some(ni) => {
                    let ni_i = ni as i64;
                    push_vlq(result, ni_i - cur.name);
                    cur.name = ni_i;
                },
                None => {},
            }
            cur.source = src_i;
            cur.orig_line = ol_i;
            cur.orig_col = oc_i;
            assert(result@ =~= start + fields_text(seg, *old(cur)));
        },
        _ => {},
    }
}

fn write_segment(result: &mut String, seg: DecodedSegment, cur: &mut MappingCursor)
    requires
        cursor_bounded(*old(cur)),
    ensures
        final(result)@ == old(result)@ + segment_text(seg, *old(cur)),
        *final(cur) == cursor_after(seg, *old(cur)),
        cursor_bounded(*final(cur)),
{
    let ghost c = *cur;
    let ghost start = result@;
    if cur.gen_line < seg.gen_line {
        crate::text::push_repeat(result, ';', (seg.gen_line - cur.gen_line) as usize);
        cur.gen_line = seg.gen_line;
        cur.gen_col = 0;
        cur.first_in_line = true;
    }
    let ghost c1 = *cur;
    assert(c1 == cursor_at_line(seg, c));
    assert(result@ == start + breaks_text(seg, c));
    if !cur.first_in_line {
        push_char(result, ',');
    }
    cur.first_in_line = false;
    let gen_col = seg.gen_column as i64;
    push_vlq(result, gen_col - cur.gen_col);
    cur.gen_col = gen_col;
    let ghost mid = result@;
    write_fields(result, seg, cur);
    assert(result@ =~= start + segment_text(seg, c));
}

impl SourceMapV3 {
    fn encode_mappings(&self) -> (r: String)
        ensures
            r@ == mappings_text(self.segments()),
    {
        let sorted = sorted_segments(&self.decoded_segments);
        let mut result = String::new();
        let mut cur = MappingCursor {
            gen_line: 0,
            gen_col: 0,
            source: 0,
            orig_line: 0,
            orig_col: 0,
            name: 0,
            first_in_line: true,
        };
        let ghost target = mappings_text(self.segments());
        let mut i: usize = 0;
        assert(sorted@.skip(0) =~= sorted@);
        assert(result@ =~= Seq::<char>::empty());
        while i < sorted.len()
            invariant
                i <= sorted.len(),
                sorted@ == sort_segments(self.segments()),
                target == mappings_text(self.segments()),
                cursor_bounded(cur),
                result@ + mappings_text_from(sorted@.skip(i as int), cur) == target,
            decreases sorted.len() - i,
        {
            let seg = sorted[i];
            let ghost c = cur;
            let ghost start = result@;
            assert(sorted@.skip(i as int)[0] == seg);
            assert(sorted@.skip(i as int).drop_first() =~= sorted@.skip(i as int + 1));
            write_segment(&mut result, seg, &mut cur);
            assert(start + mappings_text_from(sorted@.skip(i as int), c) =~= result@
                + mappings_text_from(sorted@.skip(i as int + 1), cur));
            i = i + 1;
        }
        assert(sorted@.skip(i as int) =~= Seq::<DecodedSegment>::empty());
        assert(result@ + Seq::<char>::empty() =~= result@);
        result
    }
}

// ───────────────────────────── JSON text ─────────────────────────────

/// A character escaped for a JSON string: backslash and quote get a
/// backslash, and a newline becomes `\n` when `newlines` is set.
pub open spec fn escape_char(c: char, newlines: bool) -> Seq<char> {
    if c == '\\' {
        seq!['\\', '\\']
    } else if c == '"' {
        seq!['\\', '"']
    } else if newlines && c == '\n' {
        seq!['\\', 'n']
    } else {
        seq![c]
    }
}

/// A text escaped character by character.
pub open spec fn escaped(s: Seq<char>, newlines: bool) -> Seq<char>
    decreases s.len(),
{
    if s.len() == 0 {
        seq![]
    } else {
        escaped(s.drop_last(), newlines) + escape_char(s.last(), newlines)
    }
}

/// A text escaped and put in double quotes.
pub open spec fn quoted(s: Seq<char>, newlines: bool) -> Seq<char> {
    seq!['"'] + escaped(s, newlines) + seq!['"']
}

/// Texts joined with a separator between each two.
pub open spec fn join(items: Seq<Seq<char>>, sep: Seq<char>) -> Seq<char>
    decreases items.len(),
{
    if items.len() == 0 {
        seq![]
    } else if items.len() == 1 {
        items[0]
    } else {
        join(items.drop_last(), sep) + sep + items.last()
    }
}

/// Each string quoted, with backslashes and quotes escaped.
pub open spec fn quoted_all(v: Seq<String>) -> Seq<Seq<char>> {
    v.map_values(|x: String| quoted(x@, false))
}

/// An inline source content as JSON: a quoted string or `null`.
pub open spec fn content_item(c: Option<String>) -> Seq<char> {
    match c {
        Some(t) => quoted(t@, true),
        None => "null"@,
    }
}

/// Each inline source content as JSON.
pub open spec fn content_items(v: Seq<Option<String>>) -> Seq<Seq<char>> {
    v.map_values(|c: Option<String>| content_item(c))
}

fn push_escaped(s: &mut String, t: &str, newlines: bool)
    ensures
        final(s)@ == old(s)@ + escaped(t@, newlines),
{
    let cs = crate::text::chars_of(t);
    let ghost start = s@;
    let mut i: usize = 0;
    while i < cs.len()
        invariant
            i <= cs.len(),
            cs@ == t@,
            s@ == start + escaped(cs@.take(i as int), newlines),
        decreases cs.len() - i,
    {
        let c = cs[i];
        if c == '\\' {
            push_char(s, '\\');
            push_char(s, '\\');
        } else if c == '"' {
            push_char(s, '\\');
            push_char(s, '"');
        } else if newlines && c == '\n' {
            push_char(s, '\\');
            push_char(s, 'n');
        } else {
            push_char(s, c);
        }
        assert(cs@.take(i as int + 1).drop_last() =~= cs@.take(i as int));
        assert(s@ =~= start + escaped(cs@.take(i as int + 1), newlines));
        i = i + 1;
    }
    assert(cs@.take(i as int) =~= cs@);
}

fn push_quoted(s: &mut String, t: &str, newlines: bool)
    ensures
        final(s)@ == old(s)@ + quoted(t@, newlines),
{
    push_char(s, '"');
    push_escaped(s, t, newlines);
    push_char(s, '"');
    assert(final(s)@ =~= old(s)@ + quoted(t@, newlines));
}

fn push_quoted_list(s: &mut String, items: &Vec<String>)
    ensures
        final(s)@ == old(s)@ + join(quoted_all(items@), ", "@),
{
    let ghost start = s@;
    let mut i: usize = 0;
    assert(quoted_all(items@.take(0)) =~= Seq::<Seq<char>>::empty());
    while i < items.len()
        invariant
            i <= items.len(),
            s@ == start + join(quoted_all(items@.take(i as int)), ", "@),
        decreases items.len() - i,
    {
        let ghost before = s@;
        if i > 0 {
            crate::text::push_str(s, ", ");
        }
        push_quoted(s, items[i].as_str(), false);
        let ghost q = quoted_all(items@.take(i as int + 1));
        assert(q.drop_last() =~= quoted_all(items@.take(i as int)));
        assert(q.last() == quoted(items@[i as int]@, false));
        assert(s@ =~= start + join(q, ", "@));
        i = i + 1;
    }
    assert(items@.take(i as int) =~= items@);
}

fn push_content_list(s: &mut String, items: &Vec<Option<String>>)
    ensures
        final(s)@ == old(s)@ + join(content_items(items@), ", "@),
{
    let ghost start = s@;
    let mut i: usize = 0;
    assert(content_items(items@.take(0)) =~= Seq::<Seq<char>>::empty());
    while i < items.len()
        invariant
            i <= items.len(),
            s@ == start + join(content_items(items@.take(i as int)), ", "@),
        decreases items.len() - i,
    {
        if i > 0 {
            crate::text::push_str(s, ", ");
        }
        match &items[i] {
            Some(t) => push_quoted(s, t.as_str(), true),
            None => crate::text::push_str(s, "null"),
        }
        let ghost q = content_items(items@.take(i as int + 1));
        assert(q.drop_last() =~= content_items(items@.take(i as int)));
        assert(q.last() == content_item(items@[i as int]));
        assert(s@ =~= start + join(q, ", "@));
        i = i + 1;
    }
    assert(items@.take(i as int) =~= items@);
}

impl SourceMapV3 {
    /// The map as Source Map V3 JSON text.  The version written is always 3;
    /// the file name and source root are written as they are.
    pub open spec fn json_text(&self) -> Seq<char> {
        "{\n"@ + "  \"version\": 3,\n"@ + match self.file {
            Some(f) => "  \"file\": \""@ + f@ + "\",\n"@,
            None => seq![],
        } + match self.source_root {
            Some(r) => "  \"sourceRoot\": \""@ + r@ + "\",\n"@,
            None => seq![],
        } + "  \"sources\": ["@ + join(quoted_all(self.sources@), ", "@) + "],\n"@
            + "  \"sourcesContent\": ["@ + join(content_items(self.sources_content@), ", "@)
            + "],\n"@ + "  \"names\": ["@ + join(quoted_all(self.names@), ", "@) + "],\n"@
            + "  \"mappings\": \""@ + mappings_text(self.segments()) + "\"\n"@ + "}"@
    }

    /// Encode the source map as a JSON string (Source Map V3 format).
    pub fn encode(&self) -> (r: String)
        ensures
            r@ == self.json_text(),
    {
        let mappings_str = self.encode_mappings();
        let mut json = crate::text::string_of("{\n");
        crate::text::push_str(&mut json, "  \"version\": 3,\n");
        let ghost a = json@;
        match &self.file {
            Some(f) => {
                crate::text::push_str(&mut json, "  \"file\": \"");
                crate::text::push_str(&mut json, f.as_str());
                crate::text::push_str(&mut json, "\",\n");
            },
            None => {},
        }
        let ghost b = json@;
        match &self.source_root {
            Some(r) => {
                crate::text::push_str(&mut json, "  \"sourceRoot\": \"");
                crate::text::push_str(&mut json, r.as_str());
                crate::text::push_str(&mut json, "\",\n");
            },
            None => {},
        }
        let ghost c = json@;
        crate::text::push_str(&mut json, "  \"sources\": [");
        push_quoted_list(&mut json, &self.sources);
        crate::text::push_str(&mut json, "],\n");
        crate::text::push_str(&mut json, "  \"sourcesContent\": [");
        push_content_list(&mut json, &self.sources_content);
        crate::text::push_str(&mut json, "],\n");
        crate::text::push_str(&mut json, "  \"names\": [");
        push_quoted_list(&mut json, &self.names);
        crate::text::push_str(&mut json, "],\n");
        crate::text::push_str(&mut json, "  \"mappings\": \"");
        crate::text::push_str(&mut json, mappings_str.as_str());
        crate::text::push_str(&mut json, "\"\n");
        crate::text::push_str(&mut json, "}");
        assert(json@ =~= self.json_text());
        json
    }
}

// ───────────────────────────── Decoding mappings ─────────────────────────────

/// The running values that decoded segment fields are added to.
#[derive(Clone, Copy)]
pub struct DecodeCursor {
    pub gen_line: u32,
    pub gen_col: i64,
    pub source: i64,
    pub orig_line: i64,
    pub orig_col: i64,
    pub name: i64,
}

/// The cursor before the mappings text.
pub open spec fn zero_cursor() -> DecodeCursor {
    DecodeCursor { gen_line: 0, gen_col: 0, source: 0, orig_line: 0, orig_col: 0, name: 0 }
}

/// `x` is a value of `i64`.
pub open spec fn in_i64(x: int) -> bool {
    i64::MIN <= x <= i64::MAX
}

/// A segment text decodes, and every running value it adds to stays in `i64`.
pub open spec fn segment_fits(t: Seq<char>, c: DecodeCursor) -> bool {
    &&& vlq_decodable(t)
    &&& {
        let f = vlq_decode(t);
        f.len() == 0 || (in_i64(c.gen_col + f[0]) && (f.len() >= 4 ==> (in_i64(c.source + f[1])
            && in_i64(c.orig_line + f[2]) && in_i64(c.orig_col + f[3]) && (f.len() >= 5 ==> in_i64(
            c.name + f[4],
        )))))
    }
}

/// The segment that a segment text stands for: none when it holds no value;
/// a generated column alone when it holds fewer than four; otherwise also
/// the source, original line and column, and the name when there is a fifth.
pub open spec fn segment_out(t: Seq<char>, c: DecodeCursor) -> Seq<DecodedSegment> {
    let f = vlq_decode(t);
    if f.len() == 0 {
        seq![]
    } else {
        let col = ((c.gen_col + f[0]) as i64) as u32;
        if f.len() >= 4 {
            seq![
                DecodedSegment {
                    gen_line: c.gen_line,
                    gen_column: col,
                    source_idx: Some(((c.source + f[1]) as i64) as u32),
                    orig_line: Some(((c.orig_line + f[2]) as i64) as u32),
                    orig_column: Some(((c.orig_col + f[3]) as i64) as u32),
                    name_idx: if f.len() >= 5 {
                        Some(((c.name + f[4]) as i64) as u32)
                    } else {
                        None
                    },
                },
            ]
        } else {
            seq![
                DecodedSegment {
                    gen_line: c.gen_line,
                    gen_column: col,
                    source_idx: None,
                    orig_line: None,
                    orig_column: None,
                    name_idx: None,
                },
            ]
        }
    }
}

/// The cursor after a segment text.
pub open spec fn segment_next(t: Seq<char>, c: DecodeCursor) -> DecodeCursor {
    let f = vlq_decode(t);
    if f.len() == 0 {
        c
    } else {
        let c1 = DecodeCursor { gen_col: (c.gen_col + f[0]) as i64, ..c };
        if f.len() >= 4 {
            DecodeCursor {
                source: (c.source + f[1]) as i64,
                orig_line: (c.orig_line + f[2]) as i64,
                orig_col: (c.orig_col + f[3]) as i64,
                name: if f.len() >= 5 {
                    (c.name + f[4]) as i64
                } else {
                    c.name
                },
                ..c1
            }
        } else {
            c1
        }
    }
}

/// The cursor at the start of the next generated line.
pub open spec fn next_line(c: DecodeCursor) -> DecodeCursor {
    DecodeCursor { gen_line: (c.gen_line + 1) as u32, gen_col: 0, ..c }
}

/// The segments of `m`, given the text `pending` of a segment begun and the
/// cursor: `;` ends a generated line, `,` ends a segment, and an empty
/// segment is skipped.
pub open spec fn segments_from(m: Seq<char>, pending: Seq<char>, c: DecodeCursor) -> Seq<DecodedSegment>
    decreases m.len(),
{
    let out = if pending.len() == 0 {
        seq![]
    } else {
        segment_out(pending, c)
    };
    let next = if pending.len() == 0 {
        c
    } else {
        segment_next(pending, c)
    };
    if m.len() == 0 {
        out
    } else if m[0] == ';' {
        out + segments_from(m.drop_first(), seq![], next_line(next))
    } else if m[0] == ',' {
        out + segments_from(m.drop_first(), seq![], next)
    } else {
        segments_from(m.drop_first(), pending.push(m[0]), c)
    }
}

/// Every segment of `m` fits, and the generated line count stays in `u32`.
pub open spec fn mappings_fit_from(m: Seq<char>, pending: Seq<char>, c: DecodeCursor) -> bool
    decreases m.len(),
{
    let fits = pending.len() == 0 || segment_fits(pending, c);
    let next = if pending.len() == 0 {
        c
    } else {
        segment_next(pending, c)
    };
    if m.len() == 0 {
        fits && c.gen_line < u32::MAX
    } else if m[0] == ';' {
        fits && c.gen_line < u32::MAX && mappings_fit_from(m.drop_first(), seq![], next_line(next))
    } else if m[0] == ',' {
        fits && mappings_fit_from(m.drop_first(), seq![], next)
    } else {
        mappings_fit_from(m.drop_first(), pending.push(m[0]), c)
    }
}

/// The segments that a mappings text decodes to.
pub open spec fn decoded_mappings(m: Seq<char>) -> Seq<DecodedSegment> {
    segments_from(m, seq![], zero_cursor())
}

/// The mappings texts that decode without an arithmetic overflow.
pub open spec fn mappings_decodable(m: Seq<char>) -> bool {
    mappings_fit_from(m, seq![], zero_cursor())
}

fn add_checked(a: i64, b: i64) -> (r: Option<i64>)
    ensures
        r is Some <==> in_i64(a + b),
        r matches Some(x) ==> x == a + b,
{
    a.checked_add(b)
}

/// Decodes one pending segment text into `out`, moving the cursor; gives
/// `false`, touching neither, where it does not fit.
fn flush_segment(pending: &Vec<char>, cur: &mut DecodeCursor, out: &mut Vec<DecodedSegment>) -> (ok: bool)
    ensures
        ok == (pending@.len() == 0 || segment_fits(pending@, *old(cur))),
        ok ==> final(out)@ == old(out)@ + (if pending@.len() == 0 {
            seq![]
        } else {
            segment_out(pending@, *old(cur))
        }),
        ok ==> *final(cur) == (if pending@.len() == 0 {
            *old(cur)
        } else {
            segment_next(pending@, *old(cur))
        }),
{
    if pending.len() == 0 {
        assert(out@ + Seq::<DecodedSegment>::empty() =~= out@);
        return true;
    }
    let text = crate::text::string_from_chars(pending);
    let fields = match try_decode_vlq(text.as_str()) {
        Some(f) => f,
        None => return false,
    };
    if fields.len() == 0 {
        assert(out@ + Seq::<DecodedSegment>::empty() =~= out@);
        return true;
    }
    let gen_col = match add_checked(cur.gen_col, fields[0]) {
        Some(x) => x,
        None => return false,
    };
    if fields.len() >= 4 {
        let source = match add_checked(cur.source, fields[1]) {
            Some(x) => x,
            None => return false,
        };
        let orig_line = match add_checked(cur.orig_line, fields[2]) {
            Some(x) => x,
            None => return false,
        };
        let orig_col = match add_checked(cur.orig_col, fields[3]) {
            Some(x) => x,
            None => return false,
        };
        let name = if fields.len() >= 5 {
            match add_checked(cur.name, fields[4]) {
                Some(x) => Some(x),
                None => return false,
            }
        } else {
            None
        };
        out.push(
            DecodedSegment {
                gen_line: cur.gen_line,
                gen_column: gen_col as u32,
                source_idx: Some(source as u32),
                orig_line: Some(orig_line as u32),
                orig_column: Some(orig_col as u32),
                name_idx: match name {
                    Some(n) => Some(n as u32),
                    None => None,
                },
            },
        );
        cur.gen_col = gen_col;
        cur.source = source;
        cur.orig_line = orig_line;
        cur.orig_col = orig_col;
        match name {
            Some(n) => {
                cur.name = n;
            },
            None => {},
        }
    } else {
        out.push(
            DecodedSegment {
                gen_line: cur.gen_line,
                gen_column: gen_col as u32,
                source_idx: None,
                orig_line: None,
                orig_column: None,
                name_idx: None,
            },
        );
        cur.gen_col = gen_col;
    }
    true
}

/// Decodes a mappings text, or gives `None` where a running value would
/// leave `i64`, a VLQ run would overflow, or the line count would leave `u32`.
pub fn try_decode_mappings(mappings: &str) -> (r: Option<Vec<DecodedSegment>>)
    ensures
        r is Some <==> mappings_decodable(mappings@),
        (r matches Some(v) ==> v@ == decoded_mappings(mappings@)),
{
    let cs = crate::text::chars_of(mappings);
    let mut out: Vec<DecodedSegment> = Vec::new();
    let mut pending: Vec<char> = Vec::new();
    let mut cur = DecodeCursor { gen_line: 0, gen_col: 0, source: 0, orig_line: 0, orig_col: 0, name: 0 };
    let mut i: usize = 0;
    assert(cs@.skip(0) =~= cs@);
    assert(out@ + decoded_mappings(mappings@) =~= decoded_mappings(mappings@));
    while i < cs.len()
        invariant
            i <= cs.len(),
            cs@ == mappings@,
            mappings_fit_from(cs@.skip(i as int), pending@, cur) == mappings_decodable(mappings@),
            mappings_fit_from(cs@.skip(i as int), pending@, cur) ==> out@ + segments_from(
                cs@.skip(i as int),
                pending@,
                cur,
            ) == decoded_mappings(mappings@),
        decreases cs.len() - i,
    {
        let c = cs[i];
        let ghost rest = cs@.skip(i as int);
        assert(rest[0] == c);
        assert(rest.drop_first() =~= cs@.skip(i as int + 1));
        if c == ';' || c == ',' {
            let ghost c0 = cur;
            let ghost o0 = out@;
            let ghost p0 = pending@;
            let ok = flush_segment(&pending, &mut cur, &mut out);
            if !ok {
                return None;
            }
            if c == ';' {
                if cur.gen_line == u32::MAX {
                    return None;
                }
                cur.gen_line = cur.gen_line + 1;
                cur.gen_col = 0;
            }
            pending = Vec::new();
            assert(pending@ =~= Seq::<char>::empty());
            proof {
                if mappings_fit_from(cs@.skip(i as int + 1), pending@, cur) {
                    assert(out@ + segments_from(cs@.skip(i as int + 1), pending@, cur) =~= o0
                        + segments_from(rest, p0, c0));
                }
            }
        } else {
            pending.push(c);
        }
        i = i + 1;
    }
    let ghost o0 = out@;
    let ghost c0 = cur;
    assert(cs@.skip(i as int) =~= Seq::<char>::empty());
    let ok = flush_segment(&pending, &mut cur, &mut out);
    if !ok || cur.gen_line == u32::MAX {
        return None;
    }
    Some(out)
}

// ───────────────────────────── Reading JSON ─────────────────────────────

/// The view of an optional string.
pub open spec fn opt_view(o: Option<String>) -> Option<Seq<char>> {
    match o {
        Some(t) => Some(t@),
        None => None,
    }
}

/// The version a document declares: its `version` member when that is an
/// integer that fits in `u64`, cut to `u32`; 3 when there is none.
pub open spec fn doc_version(doc: JsonValue) -> u32 {
    match doc.get_spec("version"@) {
        Some(v) => match v.u64_spec() {
            Some(n) => n as u32,
            None => 3,
        },
        None => 3,
    }
}

/// The text of a string member.
pub open spec fn doc_str(doc: JsonValue, key: Seq<char>) -> Option<Seq<char>> {
    match doc.get_spec(key) {
        Some(v) => v.str_spec(),
        None => None,
    }
}

/// The strings among `items`, in order.
pub open spec fn strings_of(items: Seq<JsonValue>) -> Seq<Seq<char>>
    decreases items.len(),
{
    if items.len() == 0 {
        seq![]
    } else {
        let init = strings_of(items.drop_last());
        match items.last().str_spec() {
            Some(t) => init.push(t),
            None => init,
        }
    }
}

/// The strings of an array member; none when the member is not an array.
pub open spec fn doc_strings(doc: JsonValue, key: Seq<char>) -> Seq<Seq<char>> {
    match doc.get_spec(key) {
        Some(JsonValue::Array(items)) => strings_of(items@),
        _ => seq![],
    }
}

/// Each item of an array member as an optional string.
pub open spec fn doc_optional_strings(doc: JsonValue, key: Seq<char>) -> Seq<Option<Seq<char>>> {
    match doc.get_spec(key) {
        Some(JsonValue::Array(items)) => items@.map_values(|v: JsonValue| v.str_spec()),
        _ => seq![],
    }
}

/// The mappings text of a document; empty when there is none.
pub open spec fn doc_mappings(doc: JsonValue) -> Seq<char> {
    match doc_str(doc, "mappings"@) {
        Some(m) => m,
        None => seq![],
    }
}

/// Reading a document of a version other than 3 is refused.
pub open spec fn version_refused(r: Result<SourceMapV3, Error>, version: u32) -> bool {
    r matches Err(Error::InternalError(m)) && m@ == "Unsupported source map version: "@ + decimal(
        version as nat,
    )
}

/// `r` is what reading `doc` gives.
pub open spec fn read_from_doc(doc: JsonValue, r: Result<SourceMapV3, Error>) -> bool {
    if doc_version(doc) != 3 {
        version_refused(r, doc_version(doc))
    } else {
        r matches Ok(map) && map.version == 3 && opt_view(map.file) == doc_str(doc, "file"@)
            && opt_view(map.source_root) == doc_str(doc, "sourceRoot"@) && crate::text::views_of(
            map.sources@,
        ) == doc_strings(doc, "sources"@) && map.sources_content@.map_values(
            |c: Option<String>| opt_view(c),
        ) == doc_optional_strings(doc, "sourcesContent"@) && crate::text::views_of(map.names@)
            == doc_strings(doc, "names"@) && map.mappings@ == doc_mappings(doc) && map.segments()
            == decoded_mappings(doc_mappings(doc))
    }
}

/// The documents whose reading does not overflow: of a version other than 3,
/// or with a mappings text that decodes.
pub open spec fn doc_readable(doc: JsonValue) -> bool {
    doc_version(doc) == 3 ==> mappings_decodable(doc_mappings(doc))
}

pub(crate) fn str_member(doc: &JsonValue, key: &str) -> (r: Option<String>)
    ensures
        opt_view(r) == doc_str(*doc, key@),
{
    match doc.get(key) {
        Some(v) => match v.as_str() {
            Some(t) => Some(crate::text::string_of(t)),
            None => None,
        },
        None => None,
    }
}

pub(crate) fn string_members(doc: &JsonValue, key: &str) -> (r: Vec<String>)
    ensures
        crate::text::views_of(r@) == doc_strings(*doc, key@),
{
    let mut out: Vec<String> = Vec::new();
    match doc.get(key) {
        Some(v) => match v.as_array() {
            Some(items) => {
                let mut i: usize = 0;
                while i < items.len()
                    invariant
                        i <= items.len(),
                        crate::text::views_of(out@) == strings_of(items@.take(i as int)),
                    decreases items.len() - i,
                {
                    assert(items@.take(i as int + 1).drop_last() =~= items@.take(i as int));
                    match items[i].as_str() {
                        Some(t) => {
                            out.push(crate::text::string_of(t));
                            assert(crate::text::views_of(out@) =~= crate::text::views_of(
                                out@.drop_last(),
                            ).push(out@.last()@));
                        },
                        None => {},
                    }
                    i = i + 1;
                }
                assert(items@.take(i as int) =~= items@);
            },
            None => {
                assert(crate::text::views_of(out@) =~= Seq::<Seq<char>>::empty());
            },
        },
        None => {
            assert(crate::text::views_of(out@) =~= Seq::<Seq<char>>::empty());
        },
    }
    out
}

pub(crate) fn optional_string_members(doc: &JsonValue, key: &str) -> (r: Vec<Option<String>>)
    ensures
        r@.map_values(|c: Option<String>| opt_view(c)) == doc_optional_strings(*doc, key@),
{
    let mut out: Vec<Option<String>> = Vec::new();
    match doc.get(key) {
        Some(v) => match v.as_array() {
            Some(items) => {
                let mut i: usize = 0;
                while i < items.len()
                    invariant
                        i <= items.len(),
                        out@.map_values(|c: Option<String>| opt_view(c)) == items@.take(
                            i as int,
                        ).map_values(|v: JsonValue| v.str_spec()),
                    decreases items.len() - i,
                {
                    let item = match items[i].as_str() {
                        Some(t) => Some(crate::text::string_of(t)),
                        None => None,
                    };
                    assert(opt_view(item) == items@[i as int].str_spec());
                    let ghost before = out@;
                    out.push(item);
                    assert(out@.map_values(|c: Option<String>| opt_view(c)) =~= before.map_values(
                        |c: Option<String>| opt_view(c),
                    ).push(opt_view(item)));
                    assert(items@.take(i as int + 1).map_values(|v: JsonValue| v.str_spec())
                        =~= items@.take(i as int).map_values(|v: JsonValue| v.str_spec()).push(
                        items@[i as int].str_spec(),
                    ));
                    assert(out@.map_values(|c: Option<String>| opt_view(c)) =~= items@.take(
                        i as int + 1,
                    ).map_values(|v: JsonValue| v.str_spec()));
                    i = i + 1;
                }
                assert(items@.take(i as int) =~= items@);
            },
            None => {
                assert(out@.map_values(|c: Option<String>| opt_view(c)) =~= Seq::<Option<Seq<char>>>::empty());
            },
        },
        None => {
            assert(out@.map_values(|c: Option<String>| opt_view(c)) =~= Seq::<Option<Seq<char>>>::empty());
        },
    }
    out
}

impl SourceMapV3 {
    fn decode_mappings_str(mappings: &str) -> (r: Vec<DecodedSegment>)
        requires
            mappings_decodable(mappings@),
        ensures
            r@ == decoded_mappings(mappings@),
    {
        match try_decode_mappings(mappings) {
            Some(v) => v,
            None => Vec::new(),
        }
    }

    /// Read a source map from a parsed JSON document.
    pub fn from_json_value(doc: &JsonValue) -> (r: Result<SourceMapV3, Error>)
        requires
            doc_readable(*doc),
        ensures
            read_from_doc(*doc, r),
    {
        let version: u32 = match doc.get("version") {
            Some(v) => match v.as_u64() {
                Some(n) => n as u32,
                None => 3,
            },
            None => 3,
        };
        if version != 3 {
            let mut m = crate::text::string_of("Unsupported source map version: ");
            crate::text::push_decimal(&mut m, version as u64);
            return Err(Error::InternalError(m));
        }
        let file = str_member(doc, "file");
        let source_root = str_member(doc, "sourceRoot");
        let sources = string_members(doc, "sources");
        let sources_content = optional_string_members(doc, "sourcesContent");
        let names = string_members(doc, "names");
        let mappings = match str_member(doc, "mappings") {
            Some(m) => m,
            None => String::new(),
        };
        let decoded_segments = Self::decode_mappings_str(mappings.as_str());
        Ok(SourceMapV3 { version, file, source_root, sources, sources_content, names, mappings, decoded_segments })
    }

    /// Decode a Source Map V3 JSON string.
    pub fn decode(json: &str) -> (r: Result<SourceMapV3, Error>)
        requires
            (json_parse_outcome(json@) matches Ok(doc) ==> doc_readable(doc)),
        ensures
            match json_parse_outcome(json@) {
                Err(e) => r matches Err(Error::InternalError(m)) && m@ == "Invalid source map JSON: "@ + e,
                Ok(doc) => read_from_doc(doc, r),
            },
    {
        match parse_json(json) {
            Ok(doc) => Self::from_json_value(&doc),
            Err(e) => {
                let mut m = crate::text::string_of("Invalid source map JSON: ");
                crate::text::push_str(&mut m, e.as_str());
                Err(Error::InternalError(m))
            },
        }
    }

    /// Decode a Source Map V3 JSON string, or give `None` where its mappings
    /// text would overflow while decoding.
    pub fn decode_checked(json: &str) -> (r: Option<Result<SourceMapV3, Error>>)
        ensures
            match json_parse_outcome(json@) {
                Err(e) => r matches Some(Err(Error::InternalError(m))) && m@ == "Invalid source map JSON: "@ + e,
                Ok(doc) => if doc_readable(doc) {
                    r matches Some(x) && read_from_doc(doc, x)
                } else {
                    r is None
                },
            },
    {
        match parse_json(json) {
            Ok(doc) => {
                let version: u32 = match doc.get("version") {
                    Some(v) => match v.as_u64() {
                        Some(n) => n as u32,
                        None => 3,
                    },
                    None => 3,
                };
                if version == 3 {
                    let mappings = match str_member(&doc, "mappings") {
                        Some(m) => m,
                        None => String::new(),
                    };
                    if try_decode_mappings(mappings.as_str()).is_none() {
                        return None;
                    }
                }
                Some(Self::decode(json))
            },
            Err(e) => {
                let mut m = crate::text::string_of("Invalid source map JSON: ");
                crate::text::push_str(&mut m, e.as_str());
                Some(Err(Error::InternalError(m)))
            },
        }
    }
}

// ───────────────────────────── Diagnostics ─────────────────────────────

/// An error with full source location for diagnostic rendering.
#[derive(Debug, Clone)]
pub struct DiagnosticError {
    pub message: String,
    pub source_file: String,
    pub source_code: String,
    pub line: usize,
    pub column: usize,
    pub length: usize,
    pub hint: Option<String>,
    pub notes: Vec<String>,
}

/// A warning with full source location for diagnostic rendering.
#[derive(Debug, Clone)]
pub struct DiagnosticWarning {
    pub message: String,
    pub source_file: String,
    pub source_code: String,
    pub line: usize,
    pub column: usize,
    pub length: usize,
    pub hint: Option<String>,
    pub notes: Vec<String>,
}

/// Diagnostic – either an error or a warning.
#[derive(Debug, Clone)]
pub enum Diagnostic {
    Error(DiagnosticError),
    Warning(DiagnosticWarning),
}

/// Renders rich, Rust-style diagnostic messages.
pub struct DiagnosticRenderer;

/// The width of the line-number gutter: the digits of the line, and at least two.
pub open spec fn render_width(line: usize) -> nat {
    let d = decimal(line as nat).len();
    if d > 2 {
        d
    } else {
        2
    }
}

/// The help lines of the notes, each indented to the gutter.
pub open spec fn notes_text(notes: Seq<String>, w: nat) -> Seq<char>
    decreases notes.len(),
{
    if notes.len() == 0 {
        seq![]
    } else {
        notes_text(notes.drop_last(), w) + crate::text::repeat_spec(' ', w) + " = help: "@
            + notes.last()@ + "\n"@
    }
}

/// The header, location and empty gutter lines of a diagnostic.
pub open spec fn render_head(
    severity: Seq<char>,
    message: Seq<char>,
    source_file: Seq<char>,
    line: usize,
    column: usize,
    w: nat,
) -> Seq<char> {
    let blank = crate::text::repeat_spec(' ', w);
    severity + ": "@ + message + "\n"@ + blank + "--> "@ + source_file + ":"@ + decimal(line as nat)
        + ":"@ + decimal(column as nat) + "\n"@ + blank + " |\n"@
}

/// The numbered source line and the row of carets under the marked span.
pub open spec fn render_source(
    src_line: Seq<char>,
    line: usize,
    column: usize,
    length: usize,
    hint: Option<Seq<char>>,
    w: nat,
) -> Seq<char> {
    crate::text::pad_left_spec(decimal(line as nat), w) + " | "@ + src_line + "\n"@
        + crate::text::repeat_spec(' ', w) + " | "@ + crate::text::repeat_spec(
        ' ',
        (if column == 0 {
            0
        } else {
            column - 1
        }) as nat,
    ) + crate::text::repeat_spec(
        '^',
        (if length > 0 {
            length
        } else {
            1
        }) as nat,
    ) + match hint {
        Some(h) => " "@ + h,
        None => seq![],
    } + "\n"@
}

/// The rendering of a diagnostic: a header with severity and message, the
/// location, an empty gutter line, then (when the line exists in the source)
/// the numbered source line and a row of carets under the marked span with
/// the hint, then (when there are notes) a gutter line and one help line per
/// note.
pub open spec fn render_text(
    severity: Seq<char>,
    message: Seq<char>,
    source_file: Seq<char>,
    source_code: Seq<char>,
    line: usize,
    column: usize,
    length: usize,
    hint: Option<Seq<char>>,
    notes: Seq<String>,
) -> Seq<char> {
    let lines = crate::text::lines_spec(source_code);
    let idx: int = if line == 0 {
        0
    } else {
        line - 1
    };
    let w = render_width(line);
    let source = if idx < lines.len() {
        render_source(lines[idx], line, column, length, hint, w)
    } else {
        seq![]
    };
    let notes_part = if notes.len() == 0 {
        seq![]
    } else {
        crate::text::repeat_spec(' ', w) + " |\n"@ + notes_text(notes, w)
    };
    render_head(severity, message, source_file, line, column, w) + source + notes_part
}

impl DiagnosticError {
    /// The rendering of this error.
    pub open spec fn rendered(self) -> Seq<char> {
        render_text(
            "error"@,
            self.message@,
            self.source_file@,
            self.source_code@,
            self.line,
            self.column,
            self.length,
            opt_view(self.hint),
            self.notes@,
        )
    }
}

impl DiagnosticWarning {
    /// The rendering of this warning.
    pub open spec fn rendered(self) -> Seq<char> {
        render_text(
            "warning"@,
            self.message@,
            self.source_file@,
            self.source_code@,
            self.line,
            self.column,
            self.length,
            opt_view(self.hint),
            self.notes@,
        )
    }
}

impl Diagnostic {
    /// The rendering of this diagnostic.
    pub open spec fn rendered(self) -> Seq<char> {
        match self {
            Diagnostic::Error(e) => e.rendered(),
            Diagnostic::Warning(w) => w.rendered(),
        }
    }
}

#[verifier::spinoff_prover]
#[verifier::rlimit(40)]
fn push_source_part(
    out: &mut String,
    src_line: &str,
    line: usize,
    column: usize,
    length: usize,
    hint: &Option<String>,
    width: usize,
)
    ensures
        final(out)@ == old(out)@ + render_source(src_line@, line, column, length, opt_view(*hint), width as nat),
{
    let ghost start = out@;
    let num = crate::text::decimal_string(line as u64);
    crate::text::push_padded(out, num.as_str(), width);
    crate::text::push_str(out, " | ");
    crate::text::push_str(out, src_line);
    crate::text::push_str(out, "\n");
    crate::text::push_repeat(out, ' ', width);
    crate::text::push_str(out, " | ");
    crate::text::push_repeat(out, ' ', column.saturating_sub(1));
    let underline_len = if length > 0 {
        length
    } else {
        1
    };
    crate::text::push_repeat(out, '^', underline_len);
    match hint {
        Some(h) => {
            crate::text::push_str(out, " ");
            crate::text::push_str(out, h.as_str());
        },
        None => {},
    }
    crate::text::push_str(out, "\n");
    assert(out@ =~= start + render_source(src_line@, line, column, length, opt_view(*hint), width as nat));
}

fn push_head(
    out: &mut String,
    severity: &str,
    message: &str,
    source_file: &str,
    line: usize,
    column: usize,
    width: usize,
)
    ensures
        final(out)@ == old(out)@ + render_head(severity@, message@, source_file@, line, column, width as nat),
{
    let ghost start = out@;
    crate::text::push_str(out, severity);
    crate::text::push_str(out, ": ");
    crate::text::push_str(out, message);
    crate::text::push_str(out, "\n");
    crate::text::push_repeat(out, ' ', width);
    crate::text::push_str(out, "--> ");
    crate::text::push_str(out, source_file);
    crate::text::push_str(out, ":");
    crate::text::push_decimal(out, line as u64);
    crate::text::push_str(out, ":");
    crate::text::push_decimal(out, column as u64);
    crate::text::push_str(out, "\n");
    crate::text::push_repeat(out, ' ', width);
    crate::text::push_str(out, " |\n");
    assert(out@ =~= start + render_head(severity@, message@, source_file@, line, column, width as nat));
}

fn push_notes(out: &mut String, notes: &Vec<String>, width: usize)
    ensures
        final(out)@ == old(out)@ + notes_text(notes@, width as nat),
{
    let ghost start = out@;
    let mut i: usize = 0;
    assert(notes@.take(0) =~= Seq::<String>::empty());
    while i < notes.len()
        invariant
            i <= notes.len(),
            out@ == start + notes_text(notes@.take(i as int), width as nat),
        decreases notes.len() - i,
    {
        crate::text::push_repeat(out, ' ', width);
        crate::text::push_str(out, " = help: ");
        crate::text::push_str(out, notes[i].as_str());
        crate::text::push_str(out, "\n");
        assert(notes@.take(i as int + 1).drop_last() =~= notes@.take(i as int));
        assert(out@ =~= start + notes_text(notes@.take(i as int + 1), width as nat));
        i = i + 1;
    }
    assert(notes@.take(i as int) =~= notes@);
}

impl DiagnosticRenderer {
    /// Render a diagnostic error as a multi-line string.
    pub fn render_error(error: &DiagnosticError) -> (r: String)
        ensures
            r@ == error.rendered(),
    {
        Self::render_impl(
            "error",
            error.message.as_str(),
            error.source_file.as_str(),
            error.source_code.as_str(),
            error.line,
            error.column,
            error.length,
            &error.hint,
            &error.notes,
        )
    }

    /// Render a diagnostic warning as a multi-line string.
    pub fn render_warning(warning: &DiagnosticWarning) -> (r: String)
        ensures
            r@ == warning.rendered(),
    {
        Self::render_impl(
            "warning",
            warning.message.as_str(),
            warning.source_file.as_str(),
            warning.source_code.as_str(),
            warning.line,
            warning.column,
            warning.length,
            &warning.hint,
            &warning.notes,
        )
    }

    /// Render a `Diagnostic` enum value.
    pub fn render(diagnostic: &Diagnostic) -> (r: String)
        ensures
            r@ == diagnostic.rendered(),
    {
        match diagnostic {
            Diagnostic::Error(e) => Self::render_error(e),
            Diagnostic::Warning(w) => Self::render_warning(w),
        }
    }

    fn render_impl(
        severity: &str,
        message: &str,
        source_file: &str,
        source_code: &str,
        line: usize,
        column: usize,
        length: usize,
        hint: &Option<String>,
        notes: &Vec<String>,
    ) -> (r: String)
        ensures
            r@ == render_text(
                severity@,
                message@,
                source_file@,
                source_code@,
                line,
                column,
                length,
                opt_view(*hint),
                notes@,
            ),
    {
        let lines = crate::text::split_lines(source_code);
        let ghost ls = crate::text::lines_spec(source_code@);
        assert(lines@.len() == ls.len());
        let line_idx = line.saturating_sub(1);
        let num = crate::text::decimal_string(line as u64);
        let digits = num.as_str().unicode_len();
        let width: usize = if digits > 2 {
            digits
        } else {
            2
        };
        let mut out = String::new();
        push_head(&mut out, severity, message, source_file, line, column, width);
        let ghost c = out@;
        if line_idx < lines.len() {
            assert(lines@[line_idx as int]@ == ls[line_idx as int]);
            push_source_part(&mut out, lines[line_idx].as_str(), line, column, length, hint, width);
        }
        let ghost d = out@;
        if notes.len() > 0 {
            crate::text::push_repeat(&mut out, ' ', width);
            crate::text::push_str(&mut out, " |\n");
            push_notes(&mut out, notes, width);
        }
        assert(out@ =~= render_text(
            severity@,
            message@,
            source_file@,
            source_code@,
            line,
            column,
            length,
            opt_view(*hint),
            notes@,
        ));
        out
    }
}

// ───────────────────────────── Round trip of the mappings text ─────────────────────────────

/// A segment that the mappings text carries whole: its source, original line
/// and column are all given (a name may be too) or none of them and no name
/// is, and its generated line is below the last `u32`.
pub open spec fn carried_whole(seg: DecodedSegment) -> bool {
    &&& seg.gen_line < u32::MAX
    &&& ((seg.source_idx is Some && seg.orig_line is Some && seg.orig_column is Some) || (seg.source_idx is None
        && seg.orig_line is None && seg.orig_column is None && seg.name_idx is None))
}

/// Whether `t` holds neither of the separators `,` and `;`.
pub open spec fn no_separator(t: Seq<char>) -> bool {
    forall|i: int| 0 <= i < t.len() ==> #[trigger] t[i] != ',' && t[i] != ';'
}

/// The encoder's and the decoder's running values agree.
pub open spec fn cursors_agree(e: MappingCursor, d: DecodeCursor) -> bool {
    &&& d.gen_line == e.gen_line
    &&& d.gen_col == e.gen_col
    &&& d.source == e.source
    &&& d.orig_line == e.orig_line
    &&& d.orig_col == e.orig_col
    &&& d.name == e.name
}

/// The segments the decoder emits for a finished segment text.
pub open spec fn flushed(p: Seq<char>, d: DecodeCursor) -> Seq<DecodedSegment> {
    if p.len() == 0 {
        seq![]
    } else {
        segment_out(p, d)
    }
}

/// The decoder's cursor after a finished segment text.
pub open spec fn flushed_cursor(p: Seq<char>, d: DecodeCursor) -> DecodeCursor {
    if p.len() == 0 {
        d
    } else {
        segment_next(p, d)
    }
}

/// The decoder's cursor `k` generated lines further on.
pub open spec fn lines_on(d: DecodeCursor, k: nat) -> DecodeCursor {
    DecodeCursor { gen_line: (d.gen_line + k) as u32, gen_col: 0, ..d }
}

/// The text of a segment after its line breaks and comma.
pub open spec fn body_text(seg: DecodedSegment, c: MappingCursor) -> Seq<char> {
    vlq_encoding(seg.gen_column - c.gen_col) + fields_text(seg, c)
}

proof fn lemma_vlq_no_separator(v: int)
    ensures
        no_separator(vlq_encoding(v)),
        vlq_encoding(v).len() > 0,
{
    let ds = vlq_digits(zigzag(v) as nat);
    lemma_digits_bounded(zigzag(v) as nat);
    assert forall|i: int| 0 <= i < vlq_encoding(v).len() implies #[trigger] vlq_encoding(v)[i] != ',' && vlq_encoding(
        v,
    )[i] != ';' by {
        assert(ds[i] < 64);
        lemma_base64_value_of_char(ds[i]);
        assert(vlq_encoding(v)[i] == base64_char(ds[i]));
    }
}

proof fn lemma_no_separator_add(a: Seq<char>, b: Seq<char>)
    requires
        no_separator(a),
        no_separator(b),
    ensures
        no_separator(a + b),
{
    assert forall|i: int| 0 <= i < (a + b).len() implies #[trigger] (a + b)[i] != ',' && (a + b)[i] != ';' by {
        if i < a.len() {
            assert((a + b)[i] == a[i]);
        } else {
            assert((a + b)[i] == b[i - a.len()]);
        }
    }
}

/// Text without separators only adds to the segment being read.
proof fn lemma_read_chunk(t: Seq<char>, r: Seq<char>, p: Seq<char>, d: DecodeCursor)
    requires
        no_separator(t),
    ensures
        segments_from(t + r, p, d) == segments_from(r, p + t, d),
        mappings_fit_from(t + r, p, d) == mappings_fit_from(r, p + t, d),
    decreases t.len(),
{
    if t.len() == 0 {
        assert(t + r =~= r);
        assert(p + t =~= p);
    } else {
        assert(t[0] != ',' && t[0] != ';');
        assert((t + r)[0] == t[0]);
        assert((t + r).drop_first() =~= t.drop_first() + r);
        assert(p.push(t[0]) + t.drop_first() =~= p + t);
        lemma_read_chunk(t.drop_first(), r, p.push(t[0]), d);
    }
}

/// `k` line breaks end the segment being read and move `k` lines on.
proof fn lemma_read_breaks(k: nat, r: Seq<char>, p: Seq<char>, d: DecodeCursor)
    requires
        k >= 1,
        flushed_cursor(p, d).gen_line == d.gen_line,
        d.gen_line + k <= u32::MAX,
    ensures
        segments_from(crate::text::repeat_spec(';', k) + r, p, d) == flushed(p, d) + segments_from(
            r,
            seq![],
            lines_on(flushed_cursor(p, d), k),
        ),
        mappings_fit_from(crate::text::repeat_spec(';', k) + r, p, d) == ((p.len() == 0 || segment_fits(p, d))
            && mappings_fit_from(r, seq![], lines_on(flushed_cursor(p, d), k))),
    decreases k,
{
    let m = crate::text::repeat_spec(';', k) + r;
    assert(m[0] == ';');
    let rest = crate::text::repeat_spec(';', (k - 1) as nat) + r;
    assert(m.drop_first() =~= rest);
    let n1 = next_line(flushed_cursor(p, d));
    if k == 1 {
        assert(rest =~= r);
        assert(n1 == lines_on(flushed_cursor(p, d), 1));
    } else {
        lemma_read_breaks((k - 1) as nat, r, seq![], n1);
        assert(lines_on(n1, (k - 1) as nat) == lines_on(flushed_cursor(p, d), k));
        assert(flushed(seq![], n1) =~= seq![]);
    }
}

/// The segment text after the line breaks and comma decodes to the segment,
/// and leaves the decoder's running values where the encoder's go.
proof fn lemma_body(seg: DecodedSegment, c: MappingCursor, d: DecodeCursor)
    requires
        carried_whole(seg),
        cursor_bounded(c),
        cursors_agree(c, d),
        d.gen_line == seg.gen_line,
    ensures
        body_text(seg, c).len() > 0,
        no_separator(body_text(seg, c)),
        segment_fits(body_text(seg, c), d),
        segment_out(body_text(seg, c), d) == seq![seg],
        cursors_agree(
            fields_cursor(seg, MappingCursor { gen_col: seg.gen_column as i64, first_in_line: false, ..c }),
            segment_next(body_text(seg, c), d),
        ),
{
    let a = (seg.gen_column - c.gen_col) as i64;
    assert(a as int == seg.gen_column - c.gen_col);
    lemma_vlq_no_separator(a as int);
    let ft = fields_text(seg, c);
    let b = body_text(seg, c);
    match (seg.source_idx, seg.orig_line, seg.orig_column) {
        (Some(src), Some(ol), Some(oc)) => {
            let x1 = (src - c.source) as i64;
            let x2 = (ol - c.orig_line) as i64;
            let x3 = (oc - c.orig_col) as i64;
            lemma_vlq_no_separator(x1 as int);
            lemma_vlq_no_separator(x2 as int);
            lemma_vlq_no_separator(x3 as int);
            let tail = match seg.name_idx {
                Some(ni) => vlq_encoding(ni - c.name),
                None => seq![],
            };
            let tv: Seq<i64> = match seg.name_idx {
                Some(ni) => seq![(ni - c.name) as i64],
                None => seq![],
            };
            match seg.name_idx {
                Some(ni) => {
                    lemma_vlq_no_separator(ni - c.name);
                    lemma_vlq_roundtrip((ni - c.name) as i64);
                },
                None => {
                    assert(no_separator(tail));
                    assert(vlq_decode(tail) =~= seq![]);
                },
            }
            assert(vlq_decode(tail) == tv);
            assert(vlq_decodable(tail));
            let t3 = vlq_encoding(x3 as int) + tail;
            let t2 = vlq_encoding(x2 as int) + t3;
            let t1 = vlq_encoding(x1 as int) + t2;
            assert(ft =~= t1);
            assert(b =~= vlq_encoding(a as int) + t1);
            lemma_vlq_concat(x3, tail);
            lemma_vlq_concat(x2, t3);
            lemma_vlq_concat(x1, t2);
            lemma_vlq_concat(a, t1);
            lemma_no_separator_add(vlq_encoding(x3 as int), tail);
            lemma_no_separator_add(vlq_encoding(x2 as int), t3);
            lemma_no_separator_add(vlq_encoding(x1 as int), t2);
            lemma_no_separator_add(vlq_encoding(a as int), t1);
            let f = vlq_decode(b);
            assert(f =~= seq![a, x1, x2, x3] + tv);
            assert(f[0] == a && f[1] == x1 && f[2] == x2 && f[3] == x3);
        },
        _ => {
            assert(ft =~= seq![]);
            assert(b =~= vlq_encoding(a as int));
            lemma_vlq_roundtrip(a);
            let f = vlq_decode(b);
            assert(f =~= seq![a]);
        },
    }
}

/// Decoding the text written for `segs` from the encoder's cursor `e`, with
/// the decoder holding the text `p` of the segment before and cursor `d`,
/// emits that segment and then `segs`.
proof fn lemma_text_decodes(segs: Seq<DecodedSegment>, e: MappingCursor, p: Seq<char>, d: DecodeCursor)
    requires
        cursor_bounded(e),
        e.gen_line < u32::MAX,
        forall|i: int| 0 <= i < segs.len() ==> carried_whole(#[trigger] segs[i]) && segs[i].gen_line >= e.gen_line,
        forall|i: int, j: int| 0 <= i < j < segs.len() ==> #[trigger] segs[i].gen_line <= #[trigger] segs[j].gen_line,
        p.len() == 0 <==> e.first_in_line,
        cursors_agree(e, flushed_cursor(p, d)),
        d.gen_line == e.gen_line,
        p.len() > 0 ==> segment_fits(p, d),
    ensures
        segments_from(mappings_text_from(segs, e), p, d) == flushed(p, d) + segs,
        mappings_fit_from(mappings_text_from(segs, e), p, d),
    decreases segs.len(),
{
    if segs.len() == 0 {
        assert(flushed(p, d) + segs =~= flushed(p, d));
    } else {
        let seg = segs[0];
        let rest = segs.drop_first();
        let c1 = cursor_at_line(seg, e);
        let e2 = cursor_after(seg, e);
        let body = body_text(seg, c1);
        let rest_text = mappings_text_from(rest, e2);
        let nx = flushed_cursor(p, d);
        assert(mappings_text_from(segs, e) == segment_text(seg, e) + rest_text);
        if e.gen_line < seg.gen_line {
            let k = (seg.gen_line - e.gen_line) as nat;
            let d2 = lines_on(nx, k);
            assert(cursors_agree(c1, d2));
            lemma_body(seg, c1, d2);
            assert(segment_text(seg, e) + rest_text =~= crate::text::repeat_spec(';', k) + (body + rest_text));
            lemma_read_breaks(k, body + rest_text, p, d);
            lemma_read_chunk(body, rest_text, seq![], d2);
            assert(Seq::<char>::empty() + body =~= body);
            lemma_text_decodes(rest, e2, body, d2);
            assert(flushed(body, d2) == seq![seg]);
            assert(flushed(p, d) + segs =~= flushed(p, d) + (seq![seg] + rest));
        } else if e.first_in_line {
            assert(c1 == e);
            assert(p.len() == 0);
            lemma_body(seg, c1, d);
            assert(segment_text(seg, e) + rest_text =~= body + rest_text);
            lemma_read_chunk(body, rest_text, p, d);
            assert(p + body =~= body);
            lemma_text_decodes(rest, e2, body, d);
            assert(flushed(p, d) =~= seq![]);
            assert(flushed(p, d) + segs =~= seq![seg] + rest);
        } else {
            assert(c1 == e);
            let d2 = segment_next(p, d);
            lemma_body(seg, c1, d2);
            let m = segment_text(seg, e) + rest_text;
            assert(m =~= seq![','] + (body + rest_text));
            assert(m[0] == ',');
            assert(m.drop_first() =~= body + rest_text);
            lemma_read_chunk(body, rest_text, seq![], d2);
            assert(Seq::<char>::empty() + body =~= body);
            lemma_text_decodes(rest, e2, body, d2);
            assert(flushed(body, d2) == seq![seg]);
            assert(flushed(p, d) + segs =~= flushed(p, d) + (seq![seg] + rest));
        }
    }
}

/// The segments are in generated order.
pub open spec fn segments_sorted(s: Seq<DecodedSegment>) -> bool {
    forall|i: int, j: int| 0 <= i < j < s.len() ==> seg_le(#[trigger] s[i], #[trigger] s[j])
}

proof fn lemma_insert_sorted_all(s: Seq<DecodedSegment>, x: DecodedSegment, f: spec_fn(DecodedSegment) -> bool)
    requires
        forall|i: int| 0 <= i < s.len() ==> f(#[trigger] s[i]),
        f(x),
    ensures
        insert_sorted(s, x).len() == s.len() + 1,
        forall|i: int| 0 <= i < insert_sorted(s, x).len() ==> f(#[trigger] insert_sorted(s, x)[i]),
    decreases s.len(),
{
    if s.len() > 0 && !seg_le(s.last(), x) {
        lemma_insert_sorted_all(s.drop_last(), x, f);
        let t = insert_sorted(s.drop_last(), x);
        assert forall|i: int| 0 <= i < t.push(s.last()).len() implies f(#[trigger] t.push(s.last())[i]) by {
            if i < t.len() {
                assert(t.push(s.last())[i] == t[i]);
            }
        }
    }
}

proof fn lemma_insert_sorted_sorted(s: Seq<DecodedSegment>, x: DecodedSegment)
    requires
        segments_sorted(s),
    ensures
        segments_sorted(insert_sorted(s, x)),
    decreases s.len(),
{
    if s.len() == 0 {
    } else if seg_le(s.last(), x) {
        let t = s.push(x);
        assert forall|i: int, j: int| 0 <= i < j < t.len() implies seg_le(#[trigger] t[i], #[trigger] t[j]) by {
            if j == s.len() {
                if i < s.len() - 1 {
                    assert(seg_le(s[i], s[s.len() - 1]));
                }
            } else {
                assert(t[i] == s[i] && t[j] == s[j]);
            }
        }
    } else {
        let d = s.drop_last();
        let l = s.last();
        assert(segments_sorted(d)) by {
            assert forall|i: int, j: int| 0 <= i < j < d.len() implies seg_le(#[trigger] d[i], #[trigger] d[j]) by {
                assert(d[i] == s[i] && d[j] == s[j]);
            }
        }
        lemma_insert_sorted_sorted(d, x);
        let below = |y: DecodedSegment| seg_le(y, l);
        assert forall|i: int| 0 <= i < d.len() implies below(#[trigger] d[i]) by {
            assert(seg_le(s[i], s[s.len() - 1]));
        }
        lemma_insert_sorted_all(d, x, below);
        let t = insert_sorted(d, x);
        let u = t.push(l);
        assert forall|i: int, j: int| 0 <= i < j < u.len() implies seg_le(#[trigger] u[i], #[trigger] u[j]) by {
            if j == t.len() {
                assert(below(t[i]));
            } else {
                assert(u[i] == t[i] && u[j] == t[j]);
            }
        }
    }
}

proof fn lemma_sort_segments(s: Seq<DecodedSegment>, f: spec_fn(DecodedSegment) -> bool)
    requires
        forall|i: int| 0 <= i < s.len() ==> f(#[trigger] s[i]),
    ensures
        sort_segments(s).len() == s.len(),
        segments_sorted(sort_segments(s)),
        forall|i: int| 0 <= i < sort_segments(s).len() ==> f(#[trigger] sort_segments(s)[i]),
    decreases s.len(),
{
    if s.len() > 0 {
        let d = s.drop_last();
        assert forall|i: int| 0 <= i < d.len() implies f(#[trigger] d[i]) by {
            assert(d[i] == s[i]);
        }
        lemma_sort_segments(d, f);
        lemma_insert_sorted_all(sort_segments(d), s.last(), f);
        lemma_insert_sorted_sorted(sort_segments(d), s.last());
    }
}

/// A string member `key` of `doc` holding `o`'s text, or no such member
/// where `o` is none.
pub open spec fn string_member_is(doc: JsonValue, key: Seq<char>, o: Option<Seq<char>>) -> bool {
    match o {
        Some(t) => doc.get_spec(key) matches Some(JsonValue::String(x)) && x@ == t,
        None => doc.get_spec(key) is None,
    }
}

/// The items are the strings `v`, in order.
pub open spec fn items_are_strings(items: Seq<JsonValue>, v: Seq<String>) -> bool {
    items.len() == v.len() && forall|i: int|
        0 <= i < v.len() ==> ((#[trigger] items[i]) matches JsonValue::String(x) && x@ == v[i]@)
}

/// The items are the optional texts `v`, in order: a string for a text,
/// null for none.
pub open spec fn items_are_contents(items: Seq<JsonValue>, v: Seq<Option<String>>) -> bool {
    items.len() == v.len() && forall|i: int|
        0 <= i < items.len() ==> (#[trigger] items[i]).str_spec() == opt_view(v[i]) && (v[i] is None
            ==> items[i] is Null)
}

/// The array member `key` of `doc` holds the strings `v`, in order.
pub open spec fn strings_member_is(doc: JsonValue, key: Seq<char>, v: Seq<String>) -> bool {
    match doc.get_spec(key) {
        Some(JsonValue::Array(items)) => items_are_strings(items@, v),
        _ => false,
    }
}

/// The document `doc` holds what [`SourceMapV3::encode`] writes for `sm`:
/// the number 3 as its `version`; the map's file and source root as
/// strings, where it has them; its sources and names as arrays of strings;
/// its sources' contents as an array of strings and nulls; and its mappings
/// text.
pub open spec fn spells_encoding(doc: JsonValue, sm: SourceMapV3) -> bool {
    &&& doc.get_spec("version"@) matches Some(v) && v.u64_spec() == Some(3u64)
    &&& string_member_is(doc, "file"@, opt_view(sm.file))
    &&& string_member_is(doc, "sourceRoot"@, opt_view(sm.source_root))
    &&& strings_member_is(doc, "sources"@, sm.sources@)
    &&& strings_member_is(doc, "names"@, sm.names@)
    &&& match doc.get_spec("sourcesContent"@) {
        Some(JsonValue::Array(items)) => items_are_contents(items@, sm.sources_content@),
        _ => false,
    }
    &&& string_member_is(doc, "mappings"@, Some(mappings_text(sm.segments())))
}

/// The strings among items that are all strings are those strings.
proof fn lemma_strings_of_all(items: Seq<JsonValue>, v: Seq<String>)
    requires
        items_are_strings(items, v),
    ensures
        strings_of(items) == crate::text::views_of(v),
    decreases items.len(),
{
    if items.len() > 0 {
        let n = items.len() - 1;
        assert forall|i: int| 0 <= i < n implies ((#[trigger] items.drop_last()[i]) matches JsonValue::String(x) && x@ == v.drop_last()[i]@) by {
            assert(items.drop_last()[i] == items[i]);
        }
        lemma_strings_of_all(items.drop_last(), v.drop_last());
        assert(items[n] matches JsonValue::String(x) && x@ == v[n]@);
        assert(crate::text::views_of(v) =~= crate::text::views_of(v.drop_last()).push(v[n]@));
    }
}

/// Reading the document that [`SourceMapV3::encode`] writes for a map
/// whose segments each carry a whole source position or none (on a
/// generated line below the last `u32`) succeeds, and gives back the map's
/// file, source root, sources, their contents and names, version 3, and its
/// segments stably sorted by generated line and column.
pub proof fn lemma_encode_decode(sm: SourceMapV3, doc: JsonValue, r: Result<SourceMapV3, Error>)
    requires
        forall|i: int| 0 <= i < sm.segments().len() ==> carried_whole(#[trigger] sm.segments()[i]),
        spells_encoding(doc, sm),
        read_from_doc(doc, r),
    ensures
        doc_readable(doc),
        r matches Ok(m) && m.version == 3 && opt_view(m.file) == opt_view(sm.file) && opt_view(m.source_root)
            == opt_view(sm.source_root) && crate::text::views_of(m.sources@) == crate::text::views_of(sm.sources@)
            && m.sources_content@.map_values(|c: Option<String>| opt_view(c)) == sm.sources_content@.map_values(
            |c: Option<String>| opt_view(c),
        ) && crate::text::views_of(m.names@) == crate::text::views_of(sm.names@) && m.segments() == sort_segments(
            sm.segments(),
        ),
{
    lemma_mappings_roundtrip(sm.segments());
    assert(doc_version(doc) == 3);
    assert(doc_mappings(doc) == mappings_text(sm.segments()));
    let srcs = doc.get_spec("sources"@)->0->Array_0@;
    lemma_strings_of_all(srcs, sm.sources@);
    let nms = doc.get_spec("names"@)->0->Array_0@;
    lemma_strings_of_all(nms, sm.names@);
    let cs = doc.get_spec("sourcesContent"@)->0->Array_0@;
    assert(cs.map_values(|v: JsonValue| v.str_spec()) =~= sm.sources_content@.map_values(|c: Option<String>| opt_view(c)));
}

/// Decoding the mappings text of segments that it carries whole (each with a
/// full source position or none, on a generated line below the last `u32`)
/// succeeds and gives back the segments, stably sorted by generated line and
/// then generated column.
pub proof fn lemma_mappings_roundtrip(segs: Seq<DecodedSegment>)
    requires
        forall|i: int| 0 <= i < segs.len() ==> carried_whole(#[trigger] segs[i]),
    ensures
        mappings_decodable(mappings_text(segs)),
        decoded_mappings(mappings_text(segs)) == sort_segments(segs),
{
    let whole = |x: DecodedSegment| carried_whole(x);
    assert forall|i: int| 0 <= i < segs.len() implies whole(#[trigger] segs[i]) by {}
    lemma_sort_segments(segs, whole);
    let t = sort_segments(segs);
    assert forall|i: int| 0 <= i < t.len() implies carried_whole(#[trigger] t[i]) && t[i].gen_line >= 0 by {
        assert(whole(t[i]));
    }
    assert forall|i: int, j: int| 0 <= i < j < t.len() implies #[trigger] t[i].gen_line <= #[trigger] t[j].gen_line by {
        assert(seg_le(t[i], t[j]));
    }
    lemma_text_decodes(t, start_cursor(), seq![], zero_cursor());
    assert(flushed(seq![], zero_cursor()) + t =~= t);
}

} // verus!
