//! Source Map v3 support for mapping compiled JavaScript back to original
//! source locations.
use vstd::prelude::*;
use crate::diagnostics::{
    base64_value, base64_char, vlq_digits, vlq_chars, vlq_encoding, zigzag, in_i64, opt_view,
    doc_str, doc_strings, doc_optional_strings, doc_mappings, VlqEncoder, str_member,
    string_members, optional_string_members, lemma_base64_value_of_char,
};
use crate::json::{JsonValue, parse_json, json_parse_outcome};
use crate::text::{decimal, push_char, push_str, string_of, views_of, chars_of, string_from_chars};
use crate::debugger::server::{trimmed, starts_with, trim_text, has_prefix};
use crate::durable::{StrMap, str_entries, empty_entries, str_map_new, str_map_get, str_map_insert};

verus! {

// ───────────────────────────── Base64 ─────────────────────────────

/// The sextet of a Base64 alphabet character.
pub fn base64_char_to_int(ch: char) -> (r: Option<u8>)
    ensures
        r == base64_value(ch),
{
    let n = ch as u32;
    if 65 <= n && n <= 90 {
        Some((n - 65) as u8)
    } else if 97 <= n && n <= 122 {
        Some((n - 97 + 26) as u8)
    } else if 48 <= n && n <= 57 {
        Some((n - 48 + 52) as u8)
    } else if ch == '+' {
        Some(62u8)
    } else if ch == '/' {
        Some(63u8)
    } else {
        None
    }
}

/// The Base64 alphabet character of a sextet; `None` past 63.
pub fn int_to_base64_char(val: u8) -> (r: Option<char>)
    ensures
        val < 64 ==> r == Some(base64_char(val as nat)),
        val >= 64 ==> r is None,
{
    if val < 26 {
        Some((65 + val) as char)
    } else if val < 52 {
        Some((97 + (val - 26)) as char)
    } else if val < 62 {
        Some((48 + (val - 52)) as char)
    } else if val == 62 {
        Some('+')
    } else if val == 63 {
        Some('/')
    } else {
        None
    }
}

/// Every sextet's character reads back as that sextet.
pub proof fn lemma_base64_roundtrip(val: u8)
    requires
        val < 64,
    ensures
        base64_value(base64_char(val as nat)) == Some(val),
{
    lemma_base64_value_of_char(val as nat);
}

// ───────────────────────────── VLQ ─────────────────────────────

/// The signed value of a finished accumulator: the sign in bit 0, the
/// magnitude above it.
pub open spec fn signed_of(x: i64) -> i64 {
    if x & 1 != 0 {
        (-((x >> 1u64) as int)) as i64
    } else {
        x >> 1u64
    }
}

/// The accumulator after adding a sextet's five value bits at `shift`.
pub open spec fn add_bits(value: i64, d: u8, shift: u64) -> int {
    value + (((d % 32) as i64) << shift)
}

/// The values decoded from `s`, given the value and bit position of a value
/// already begun; a value left unfinished at the end is dropped.
pub open spec fn vlq_values_from(s: Seq<char>, value: i64, shift: u64) -> Seq<i64>
    decreases s.len(),
{
    if s.len() == 0 {
        seq![]
    } else {
        match base64_value(s[0]) {
            None => seq![],
            Some(d) => {
                let v2 = add_bits(value, d, shift) as i64;
                if d >= 32 {
                    vlq_values_from(s.drop_first(), v2, (shift + 5) as u64)
                } else {
                    seq![signed_of(v2)] + vlq_values_from(s.drop_first(), 0, 0)
                }
            },
        }
    }
}

/// Every sextet read before the first character outside the alphabet stays
/// below bit 64, and the value it is added to stays in `i64`.
pub open spec fn vlq_values_fit(s: Seq<char>, value: i64, shift: u64) -> bool
    decreases s.len(),
{
    if s.len() == 0 {
        true
    } else {
        match base64_value(s[0]) {
            None => true,
            Some(d) => shift < 64 && in_i64(add_bits(value, d, shift)) && if d >= 32 {
                vlq_values_fit(s.drop_first(), add_bits(value, d, shift) as i64, (shift + 5) as u64)
            } else {
                vlq_values_fit(s.drop_first(), 0, 0)
            },
        }
    }
}

/// The first character of `s` outside the Base64 alphabet.
pub open spec fn first_invalid(s: Seq<char>) -> Option<char>
    decreases s.len(),
{
    if s.len() == 0 {
        None
    } else if base64_value(s[0]) is None {
        Some(s[0])
    } else {
        first_invalid(s.drop_first())
    }
}

/// What decoding a VLQ text gives: its values, or the error naming the first
/// character outside the alphabet.
pub open spec fn vlq_result(s: Seq<char>) -> Result<Seq<i64>, Seq<char>> {
    match first_invalid(s) {
        Some(ch) => Err("Invalid VLQ character: "@ + seq![ch]),
        None => Ok(vlq_values_from(s, 0, 0)),
    }
}

/// The texts that decoding reads without an arithmetic overflow.
pub open spec fn vlq_readable(s: Seq<char>) -> bool {
    vlq_values_fit(s, 0, 0)
}

proof fn lemma_signed_of_bounds(x: i64)
    by (bit_vector)
    ensures
        -0x4000_0000_0000_0000 <= (x >> 1u64) < 0x4000_0000_0000_0000,
{
}

/// Decodes a VLQ text; `None` where reading it would overflow.
fn vlq_values(input: &str) -> (r: Option<Result<Vec<i64>, String>>)
    ensures
        r is Some <==> vlq_readable(input@),
        (r matches Some(Ok(v)) ==> vlq_result(input@) == Ok::<Seq<i64>, Seq<char>>(v@)),
        (r matches Some(Err(e)) ==> vlq_result(input@) == Err::<Seq<i64>, Seq<char>>(e@)),
{
    let cs = crate::text::chars_of(input);
    let mut result: Vec<i64> = Vec::new();
    let mut shift: u64 = 0;
    let mut value: i64 = 0;
    let mut i: usize = 0;
    assert(cs@.skip(0) =~= cs@);
    while i < cs.len()
        invariant
            i <= cs.len(),
            cs@ == input@,
            vlq_values_fit(cs@.skip(i as int), value, shift) == vlq_readable(input@),
            first_invalid(cs@.skip(i as int)) == first_invalid(input@),
            vlq_values_fit(cs@.skip(i as int), value, shift) ==> first_invalid(input@) is None
                ==> result@ + vlq_values_from(cs@.skip(i as int), value, shift) == vlq_values_from(
                input@,
                0,
                0,
            ),
        decreases cs.len() - i,
    {
        let ch = cs[i];
        let ghost rest = cs@.skip(i as int);
        assert(rest[0] == ch);
        assert(rest.drop_first() =~= cs@.skip(i as int + 1));
        let digit = match base64_char_to_int(ch) {
            Some(d) => d,
            None => {
                assert(first_invalid(rest) == Some(ch));
                let mut msg = string_of("Invalid VLQ character: ");
                push_char(&mut msg, ch);
                assert(msg@ =~= "Invalid VLQ character: "@ + seq![ch]);
                return Some(Err(msg));
            },
        };
        if shift >= 64 {
            return None;
        }
        let bits: i64 = ((digit % 32) as i64) << shift;
        let sum = match value.checked_add(bits) {
            Some(x) => x,
            None => return None,
        };
        value = sum;
        if digit >= 32 {
            shift = shift + 5;
        } else {
            let is_negative = (value & 1) != 0;
            proof {
                lemma_signed_of_bounds(value);
            }
            let abs_value = value >> 1u64;
            result.push(
                if is_negative {
                    -abs_value
                } else {
                    abs_value
                },
            );
            value = 0;
            shift = 0;
            assert(result@ + vlq_values_from(cs@.skip(i as int + 1), 0, 0) =~= result@.drop_last() + (
            seq![result@.last()] + vlq_values_from(cs@.skip(i as int + 1), 0, 0)));
        }
        i = i + 1;
    }
    assert(cs@.skip(i as int) =~= Seq::<char>::empty());
    assert(result@ + Seq::<i64>::empty() =~= result@);
    Some(Ok(result))
}

/// Decode a base64-VLQ encoded string into a sequence of values
pub fn decode_vlq(input: &str) -> (r: Result<Vec<i64>, String>)
    requires
        vlq_readable(input@),
    ensures
        match r {
            Ok(v) => vlq_result(input@) == Ok::<Seq<i64>, Seq<char>>(v@),
            Err(e) => vlq_result(input@) == Err::<Seq<i64>, Seq<char>>(e@),
        },
{
    match vlq_values(input) {
        Some(r) => r,
        None => Ok(Vec::new()),
    }
}

/// The values whose encoding doubles their magnitude within `i64`.
pub open spec fn vlq_encodable(v: i64) -> bool {
    -0x4000_0000_0000_0000 < v < 0x4000_0000_0000_0000
}

/// The concatenated encodings of a sequence of values.
pub open spec fn vlq_encoding_all(values: Seq<i64>) -> Seq<char>
    decreases values.len(),
{
    if values.len() == 0 {
        seq![]
    } else {
        vlq_encoding_all(values.drop_last()) + vlq_encoding(values.last() as int)
    }
}

/// Encode values as VLQ string
pub fn encode_vlq(values: &[i64]) -> (r: String)
    requires
        forall|i: int| 0 <= i < values@.len() ==> vlq_encodable(#[trigger] values@[i]),
    ensures
        r@ == vlq_encoding_all(values@),
{
    let mut result = String::new();
    let mut i: usize = 0;
    while i < values.len()
        invariant
            i <= values.len(),
            forall|j: int| 0 <= j < values@.len() ==> vlq_encodable(#[trigger] values@[j]),
            result@ == vlq_encoding_all(values@.take(i as int)),
        decreases values.len() - i,
    {
        let v = values[i];
        assert(vlq_encodable(values@[i as int]));
        let t = VlqEncoder::encode_vlq(v);
        push_str(&mut result, t.as_str());
        assert(values@.take(i as int + 1).drop_last() =~= values@.take(i as int));
        i = i + 1;
    }
    assert(values@.take(i as int) =~= values@);
    result
}

proof fn lemma_digits_all_valid(u: nat)
    ensures
        forall|i: int| 0 <= i < vlq_chars(vlq_digits(u)).len() ==> base64_value(
            #[trigger] vlq_chars(vlq_digits(u))[i],
        ) is Some,
    decreases u,
{
    if u >= 32 {
        lemma_digits_all_valid(u / 32);
        let head = seq![(u % 32 + 32) as nat];
        let tail = vlq_digits(u / 32);
        assert(vlq_chars(head + tail) =~= vlq_chars(head) + vlq_chars(tail));
        lemma_base64_value_of_char((u % 32 + 32) as nat);
        assert forall|i: int| 0 <= i < vlq_chars(vlq_digits(u)).len() implies base64_value(
            #[trigger] vlq_chars(vlq_digits(u))[i],
        ) is Some by {
            if i > 0 {
                assert(vlq_chars(vlq_digits(u))[i] == vlq_chars(tail)[i - 1]);
            }
        }
    } else {
        lemma_base64_value_of_char(u);
    }
}

proof fn lemma_first_invalid_prefix(a: Seq<char>, rest: Seq<char>)
    requires
        forall|i: int| 0 <= i < a.len() ==> base64_value(#[trigger] a[i]) is Some,
    ensures
        first_invalid(a + rest) == first_invalid(rest),
    decreases a.len(),
{
    if a.len() > 0 {
        assert((a + rest)[0] == a[0]);
        assert((a + rest).drop_first() =~= a.drop_first() + rest);
        assert forall|i: int| 0 <= i < a.drop_first().len() implies base64_value(
            #[trigger] a.drop_first()[i],
        ) is Some by {
            assert(a.drop_first()[i] == a[i + 1]);
        }
        lemma_first_invalid_prefix(a.drop_first(), rest);
    } else {
        assert(a + rest =~= rest);
    }
}

proof fn lemma_values_digits(u: i64, acc: i64, shift: u64, rest: Seq<char>)
    requires
        shift < 64,
        0 <= acc,
        (u << shift) >> shift == u,
        (u << shift) >= 0,
        acc >> shift == 0,
        acc + (u << shift) <= i64::MAX,
        0 <= u,
    ensures
        vlq_values_from(vlq_chars(vlq_digits(u as nat)) + rest, acc, shift) == seq![signed_of(
            (acc + (u << shift)) as i64,
        )] + vlq_values_from(rest, 0, 0),
        vlq_values_fit(vlq_chars(vlq_digits(u as nat)) + rest, acc, shift) == vlq_values_fit(rest, 0, 0),
    decreases u,
{
    let s = vlq_chars(vlq_digits(u as nat)) + rest;
    if u < 32 {
        assert(vlq_digits(u as nat) =~= seq![u as nat]);
        lemma_base64_value_of_char(u as nat);
        assert(s[0] == base64_char(u as nat));
        assert(s.drop_first() =~= rest);
        let d = u as u8;
        assert((d % 32) as i64 == u);
    } else {
        let d = (u % 32 + 32) as nat;
        let tail = vlq_digits((u / 32) as nat);
        assert(vlq_digits(u as nat) == seq![d] + tail);
        assert(vlq_chars(seq![d] + tail) =~= vlq_chars(seq![d]) + vlq_chars(tail));
        lemma_base64_value_of_char(d);
        assert(vlq_chars(seq![d]) =~= seq![base64_char(d)]);
        assert(s[0] == base64_char(d));
        assert(s.drop_first() =~= vlq_chars(tail) + rest);
        assert(((d as u8) % 32) as i64 == u % 32);
        crate::debugger::sourcemap::lemma_i64_step(acc, u, shift);
        let acc2 = (acc + (((u % 32) as i64) << shift)) as i64;
        lemma_values_digits((u / 32) as i64, acc2, (shift + 5) as u64, rest);
        assert(tail == vlq_digits(((u / 32) as i64) as nat));
    }
}

proof fn lemma_i64_step(acc: i64, u: i64, s: u64)
    by (bit_vector)
    requires
        s < 64,
        u >= 32,
        0 <= acc,
        (u << s) >> s == u,
        (u << s) >= 0,
        acc >> s == 0,
        acc + (u << s) <= 0x7fff_ffff_ffff_ffff,
    ensures
        s + 5 < 64,
        ((acc + (((u % 32) as i64) << s)) as i64) + ((((u / 32) as i64) << ((s + 5) as u64)) as i64)
            == acc + (u << s),
        (((u / 32) as i64) << ((s + 5) as u64)) >> ((s + 5) as u64) == (u / 32) as i64,
        (((u / 32) as i64) << ((s + 5) as u64)) >= 0,
        ((acc + (((u % 32) as i64) << s)) as i64) >> ((s + 5) as u64) == 0,
        0 <= acc + (((u % 32) as i64) << s) <= 0x7fff_ffff_ffff_ffff,
{
}

/// Decoding the encoding of an encodable value, followed by any text, gives
/// back the value and then what that text decodes to.
pub proof fn lemma_vlq_values_concat(v: i64, rest: Seq<char>)
    requires
        vlq_encodable(v),
    ensures
        vlq_values_from(vlq_encoding(v as int) + rest, 0, 0) == seq![v] + vlq_values_from(rest, 0, 0),
        vlq_values_fit(vlq_encoding(v as int) + rest, 0, 0) == vlq_values_fit(rest, 0, 0),
        first_invalid(vlq_encoding(v as int) + rest) == first_invalid(rest),
{
    let u = zigzag(v as int) as i64;
    assert(u as nat == zigzag(v as int) as nat);
    assert(u >= 0 ==> (u << 0u64) >> 0u64 == u && (u << 0u64) == u) by (bit_vector);
    assert(0i64 >> 0u64 == 0) by (bit_vector);
    lemma_values_digits(u, 0, 0, rest);
    assert(u >= 0 ==> ((u & 1 != 0) == (u % 2 == 1) && (u >> 1u64) == u / 2)) by (bit_vector);
    assert(signed_of(u) == v);
    lemma_digits_all_valid(zigzag(v as int) as nat);
    lemma_first_invalid_prefix(vlq_encoding(v as int), rest);
}

/// Encoding values within the encodable range and decoding the text gives
/// back exactly those values.
pub proof fn lemma_vlq_roundtrip(values: Seq<i64>)
    requires
        forall|i: int| 0 <= i < values.len() ==> vlq_encodable(#[trigger] values[i]),
    ensures
        vlq_readable(vlq_encoding_all(values)),
        vlq_result(vlq_encoding_all(values)) == Ok::<Seq<i64>, Seq<char>>(values),
    decreases values.len(),
{
    lemma_roundtrip_with_rest(values, seq![]);
    assert(vlq_encoding_all(values) + Seq::<char>::empty() =~= vlq_encoding_all(values));
    assert(values + Seq::<i64>::empty() =~= values);
}

proof fn lemma_roundtrip_with_rest(values: Seq<i64>, rest: Seq<char>)
    requires
        forall|i: int| 0 <= i < values.len() ==> vlq_encodable(#[trigger] values[i]),
        first_invalid(rest) is None,
        vlq_values_fit(rest, 0, 0),
    ensures
        vlq_values_fit(vlq_encoding_all(values) + rest, 0, 0),
        first_invalid(vlq_encoding_all(values) + rest) is None,
        vlq_values_from(vlq_encoding_all(values) + rest, 0, 0) == values + vlq_values_from(rest, 0, 0),
    decreases values.len(),
{
    if values.len() > 0 {
        let last = values.last();
        let init = values.drop_last();
        assert(vlq_encodable(values[values.len() - 1]));
        lemma_vlq_values_concat(last, rest);
        let rest2 = vlq_encoding(last as int) + rest;
        assert forall|i: int| 0 <= i < init.len() implies vlq_encodable(#[trigger] init[i]) by {
            assert(init[i] == values[i]);
        }
        lemma_roundtrip_with_rest(init, rest2);
        assert(vlq_encoding_all(values) + rest =~= vlq_encoding_all(init) + rest2);
        assert(values + vlq_values_from(rest, 0, 0) =~= init + (seq![last] + vlq_values_from(rest, 0, 0)));
    } else {
        assert(vlq_encoding_all(values) + rest =~= rest);
        assert(values + vlq_values_from(rest, 0, 0) =~= vlq_values_from(rest, 0, 0));
    }
}

// ───────────────────────────── Source maps ─────────────────────────────

/// A parsed source map (v3 format)
#[derive(Debug, Clone)]
pub struct SourceMap {
    /// Source map version (always 3)
    pub version: u32,
    /// Generated file name
    pub file: Option<String>,
    /// Source root prefix
    pub source_root: Option<String>,
    /// Original source file names
    pub sources: Vec<String>,
    /// Optional source contents (for inline source maps)
    pub sources_content: Vec<Option<String>>,
    /// Symbolic names referenced in mappings
    pub names: Vec<String>,
    /// Decoded mappings: generated_line → Vec<Mapping>
    pub mappings: Vec<Vec<Mapping>>,
}

/// A single mapping entry
#[derive(Debug, Clone, Copy)]
pub struct Mapping {
    /// Column in the generated file
    pub generated_column: u32,
    /// Index into `sources`
    pub source_index: u32,
    /// Line in the original source (0-based)
    pub original_line: u32,
    /// Column in the original source (0-based)
    pub original_column: u32,
    /// Optional index into `names`
    pub name_index: Option<u32>,
}

/// Result of looking up a generated position
#[derive(Debug, Clone)]
pub struct OriginalPosition {
    pub source: String,
    pub line: u32,
    pub column: u32,
    pub name: Option<String>,
}

/// Result of looking up an original position
#[derive(Debug, Clone)]
pub struct GeneratedPosition {
    pub line: u32,
    pub column: u32,
}

/// The running values that mapping fields are added to.
#[derive(Clone, Copy)]
pub struct LineCursor {
    pub gen_col: i64,
    pub source: i64,
    pub orig_line: i64,
    pub orig_col: i64,
    pub name: i64,
}

/// The line being built and the cursor after one pending segment text, or
/// the error of its VLQ text.  An empty text, or one without values, leaves
/// both as they are; fewer than four values move only the generated column.
pub open spec fn flush_line(pending: Seq<char>, line: Seq<Mapping>, c: LineCursor) -> Result<
    (Seq<Mapping>, LineCursor),
    Seq<char>,
> {
    if pending.len() == 0 {
        Ok((line, c))
    } else {
        match vlq_result(pending) {
            Err(e) => Err(e),
            Ok(f) => if f.len() == 0 {
                Ok((line, c))
            } else {
                let gc = (c.gen_col + f[0]) as i64;
                if f.len() >= 4 {
                    let src = (c.source + f[1]) as i64;
                    let ol = (c.orig_line + f[2]) as i64;
                    let oc = (c.orig_col + f[3]) as i64;
                    let nm = if f.len() >= 5 {
                        (c.name + f[4]) as i64
                    } else {
                        c.name
                    };
                    Ok(
                        (
                            line.push(
                                Mapping {
                                    generated_column: gc as u32,
                                    source_index: src as u32,
                                    original_line: ol as u32,
                                    original_column: oc as u32,
                                    name_index: if f.len() >= 5 {
                                        Some(nm as u32)
                                    } else {
                                        None
                                    },
                                },
                            ),
                            LineCursor { gen_col: gc, source: src, orig_line: ol, orig_col: oc, name: nm },
                        ),
                    )
                } else {
                    Ok((line, LineCursor { gen_col: gc, ..c }))
                }
            },
        }
    }
}

/// A pending segment text reads without an overflow.
pub open spec fn flush_fits(pending: Seq<char>, c: LineCursor) -> bool {
    pending.len() == 0 || (vlq_readable(pending) && match vlq_result(pending) {
        Err(_) => true,
        Ok(f) => f.len() == 0 || (in_i64(c.gen_col + f[0]) && (f.len() >= 4 ==> (in_i64(
            c.source + f[1],
        ) && in_i64(c.orig_line + f[2]) && in_i64(c.orig_col + f[3]) && (f.len() >= 5 ==> in_i64(
            c.name + f[4],
        ))))),
    })
}

/// The lines of mappings of `m`, given the pending segment text, the line
/// being built and the cursor: `;` ends a line (and starts the generated
/// column afresh), `,` ends a segment; the first VLQ error ends decoding.
pub open spec fn lines_from(m: Seq<char>, pending: Seq<char>, line: Seq<Mapping>, c: LineCursor) -> Result<
    Seq<Seq<Mapping>>,
    Seq<char>,
>
    decreases m.len(),
{
    let fl = flush_line(pending, line, c);
    if m.len() == 0 {
        match fl {
            Err(e) => Err(e),
            Ok((l, _)) => Ok(seq![l]),
        }
    } else if m[0] == ';' {
        match fl {
            Err(e) => Err(e),
            Ok((l, c2)) => match lines_from(m.drop_first(), seq![], seq![], LineCursor { gen_col: 0, ..c2 }) {
                Err(e) => Err(e),
                Ok(rest) => Ok(seq![l] + rest),
            },
        }
    } else if m[0] == ',' {
        match fl {
            Err(e) => Err(e),
            Ok((l, c2)) => lines_from(m.drop_first(), seq![], l, c2),
        }
    } else {
        lines_from(m.drop_first(), pending.push(m[0]), line, c)
    }
}

/// Every segment read before the first error decodes without an overflow.
pub open spec fn lines_fit(m: Seq<char>, pending: Seq<char>, c: LineCursor) -> bool
    decreases m.len(),
{
    let ok = flush_fits(pending, c);
    if m.len() == 0 {
        ok
    } else if m[0] == ';' || m[0] == ',' {
        ok && match flush_line(pending, seq![], c) {
            Err(_) => true,
            Ok((_, c2)) => lines_fit(
                m.drop_first(),
                seq![],
                if m[0] == ';' {
                    LineCursor { gen_col: 0, ..c2 }
                } else {
                    c2
                },
            ),
        }
    } else {
        lines_fit(m.drop_first(), pending.push(m[0]), c)
    }
}

/// The cursor before the mappings text.
pub open spec fn start_line_cursor() -> LineCursor {
    LineCursor { gen_col: 0, source: 0, orig_line: 0, orig_col: 0, name: 0 }
}

/// What decoding a mappings text gives.
pub open spec fn mapping_lines(m: Seq<char>) -> Result<Seq<Seq<Mapping>>, Seq<char>> {
    lines_from(m, seq![], seq![], start_line_cursor())
}

/// The mappings texts that decode without an overflow.
pub open spec fn mapping_lines_fit(m: Seq<char>) -> bool {
    lines_fit(m, seq![], start_line_cursor())
}

/// The segment texts of `m` after the pending text: split at every `,` and
/// `;`, in order across lines.
pub open spec fn segment_texts(m: Seq<char>, pending: Seq<char>) -> Seq<Seq<char>>
    decreases m.len(),
{
    if m.len() == 0 {
        seq![pending]
    } else if m[0] == ';' || m[0] == ',' {
        seq![pending] + segment_texts(m.drop_first(), seq![])
    } else {
        segment_texts(m.drop_first(), pending.push(m[0]))
    }
}

/// The VLQ values of the segments that carry a source position (four values
/// or more), in order.
pub open spec fn full_segments(texts: Seq<Seq<char>>) -> Seq<Seq<i64>>
    decreases texts.len(),
{
    if texts.len() == 0 {
        seq![]
    } else {
        let rest = full_segments(texts.drop_first());
        match vlq_result(texts[0]) {
            Ok(f) => if texts[0].len() > 0 && f.len() >= 4 {
                seq![f] + rest
            } else {
                rest
            },
            Err(_) => rest,
        }
    }
}

/// The sum of value `p` of the first `k` segments.
pub open spec fn field_sum(fs: Seq<Seq<i64>>, p: int, k: int) -> int
    decreases k,
{
    if k <= 0 {
        0
    } else {
        field_sum(fs, p, k - 1) + fs[k - 1][p]
    }
}

/// The sum of the name values (the fifth) of the first `k` segments that
/// carry one.
pub open spec fn name_sum(fs: Seq<Seq<i64>>, k: int) -> int
    decreases k,
{
    if k <= 0 {
        0
    } else {
        name_sum(fs, k - 1) + if fs[k - 1].len() >= 5 {
            fs[k - 1][4] as int
        } else {
            0
        }
    }
}

proof fn lemma_name_sum_concat(a: Seq<Seq<i64>>, b: Seq<Seq<i64>>, k: int)
    requires
        0 <= k <= b.len(),
    ensures
        name_sum(a + b, a.len() + k) == name_sum(a, a.len() as int) + name_sum(b, k),
    decreases k,
{
    if k == 0 {
        lemma_name_sum_prefix(a, b, a.len() as int);
    } else {
        lemma_name_sum_concat(a, b, k - 1);
        assert((a + b)[a.len() + k - 1] == b[k - 1]);
    }
}

proof fn lemma_name_sum_prefix(a: Seq<Seq<i64>>, b: Seq<Seq<i64>>, k: int)
    requires
        0 <= k <= a.len(),
    ensures
        name_sum(a + b, k) == name_sum(a, k),
    decreases k,
{
    if k > 0 {
        lemma_name_sum_prefix(a, b, k - 1);
        assert((a + b)[k - 1] == a[k - 1]);
    }
}

/// The name a segment gives its mapping: the running name index when it
/// has a fifth value, none otherwise.
pub open spec fn name_of(f: Seq<i64>, running: int) -> Option<u32> {
    if f.len() >= 5 {
        Some(running as u32)
    } else {
        None
    }
}

/// The mappings of decoded lines, one line after another.
pub open spec fn flat_lines(ls: Seq<Seq<Mapping>>) -> Seq<Mapping>
    decreases ls.len(),
{
    if ls.len() == 0 {
        seq![]
    } else {
        ls[0] + flat_lines(ls.drop_first())
    }
}

proof fn lemma_field_sum_concat(a: Seq<Seq<i64>>, b: Seq<Seq<i64>>, p: int, k: int)
    requires
        0 <= k <= b.len(),
    ensures
        field_sum(a + b, p, a.len() + k) == field_sum(a, p, a.len() as int) + field_sum(b, p, k),
    decreases k,
{
    if k == 0 {
        lemma_field_sum_prefix(a, b, p, a.len() as int);
    } else {
        lemma_field_sum_concat(a, b, p, k - 1);
        assert((a + b)[a.len() + k - 1] == b[k - 1]);
    }
}

proof fn lemma_field_sum_prefix(a: Seq<Seq<i64>>, b: Seq<Seq<i64>>, p: int, k: int)
    requires
        0 <= k <= a.len(),
    ensures
        field_sum(a + b, p, k) == field_sum(a, p, k),
    decreases k,
{
    if k > 0 {
        lemma_field_sum_prefix(a, b, p, k - 1);
        assert((a + b)[k - 1] == a[k - 1]);
    }
}

/// What the decoded mappings hold, from the pending text, line and cursor
/// on: the line so far, then one mapping for each segment that carries a
/// source position, whose source index, original line and original column
/// are the cursor's plus the sums of those values of the segments so far.
pub open spec fn sums_hold(ls: Seq<Seq<Mapping>>, line: Seq<Mapping>, full: Seq<Seq<i64>>, c: LineCursor) -> bool {
    let flat = flat_lines(ls);
    &&& flat.len() == line.len() + full.len()
    &&& forall|i: int| 0 <= i < line.len() ==> flat[i] == line[i]
    &&& forall|i: int|
        0 <= i < full.len() ==> {
            let mp = #[trigger] flat[line.len() + i];
            &&& mp.source_index == (c.source + field_sum(full, 1, i + 1)) as u32
            &&& mp.original_line == (c.orig_line + field_sum(full, 2, i + 1)) as u32
            &&& mp.original_column == (c.orig_col + field_sum(full, 3, i + 1)) as u32
            &&& mp.name_index == name_of(full[i], c.name + name_sum(full, i + 1))
        }
}

/// What one pending segment text adds to the line and the cursor.
proof fn lemma_flush_facts(pending: Seq<char>, line: Seq<Mapping>, c: LineCursor)
    requires
        flush_line(pending, line, c) is Ok,
        flush_fits(pending, c),
    ensures
        ({
            let l = flush_line(pending, line, c)->Ok_0.0;
            let c2 = flush_line(pending, line, c)->Ok_0.1;
            let here = full_segments(seq![pending]);
            &&& here.len() <= 1
            &&& l.len() == line.len() + here.len()
            &&& forall|i: int| 0 <= i < line.len() ==> l[i] == line[i]
            &&& here.len() == 1 ==> ({
                let mp = l[line.len() as int];
                &&& mp.source_index == (c.source + here[0][1]) as u32
                &&& mp.original_line == (c.orig_line + here[0][2]) as u32
                &&& mp.original_column == (c.orig_col + here[0][3]) as u32
                &&& c2.source == c.source + here[0][1]
                &&& c2.orig_line == c.orig_line + here[0][2]
                &&& c2.orig_col == c.orig_col + here[0][3]
            })
            &&& here.len() == 0 ==> c2.source == c.source && c2.orig_line == c.orig_line && c2.orig_col == c.orig_col && c2.name == c.name
            &&& flush_line(pending, seq![], c) is Ok
            &&& flush_line(pending, seq![], c)->Ok_0.1 == c2
            &&& c2.gen_col == c.gen_col + column_step(pending)
            &&& (here.len() == 1) == is_full(pending)
            &&& here.len() == 1 ==> l[line.len() as int].generated_column == (c.gen_col + column_step(pending)) as u32
        }),
{
    assert(seq![pending].drop_first() =~= Seq::<Seq<char>>::empty());
    assert(full_segments(Seq::<Seq<char>>::empty()) == Seq::<Seq<i64>>::empty());
    assert(seq![pending][0] == pending);
}

proof fn lemma_lines_from_sums(m: Seq<char>, pending: Seq<char>, line: Seq<Mapping>, c: LineCursor)
    requires
        lines_from(m, pending, line, c) is Ok,
        lines_fit(m, pending, c),
    ensures
        sums_hold(lines_from(m, pending, line, c)->Ok_0, line, full_segments(segment_texts(m, pending)), c),
    decreases m.len(),
{
    if m.len() > 0 && m[0] != ';' && m[0] != ',' {
        lemma_lines_from_sums(m.drop_first(), pending.push(m[0]), line, c);
        return;
    }
    let fl = flush_line(pending, line, c);
    let here = full_segments(seq![pending]);
    lemma_flush_facts(pending, line, c);
    let l = fl->Ok_0.0;
    let c2 = fl->Ok_0.1;
    if m.len() == 0 {
        let ls = seq![l];
        assert(ls.drop_first() =~= Seq::<Seq<Mapping>>::empty());
        assert(flat_lines(ls) =~= l + flat_lines(Seq::<Seq<Mapping>>::empty()));
        assert(flat_lines(ls) =~= l);
        assert(segment_texts(m, pending) == seq![pending]);
        assert(here + Seq::<Seq<i64>>::empty() =~= here);
        lemma_sums_tail_base(ls, l, line, here, c);
    } else if m[0] == ';' {
        let c3 = LineCursor { gen_col: 0, ..c2 };
        let rest = lines_from(m.drop_first(), seq![], seq![], c3);
        lemma_lines_from_sums(m.drop_first(), seq![], seq![], c3);
        let rs = rest->Ok_0;
        let ls = seq![l] + rs;
        assert(ls.drop_first() =~= rs);
        assert(flat_lines(ls) == l + flat_lines(rs));
        let full2 = full_segments(segment_texts(m.drop_first(), seq![]));
        assert(segment_texts(m, pending) == seq![pending] + segment_texts(m.drop_first(), seq![]));
        lemma_full_segments_concat(seq![pending], segment_texts(m.drop_first(), seq![]));
        assert forall|i: int| 0 <= i < full2.len() implies {
            let mp = #[trigger] flat_lines(rs)[i];
            &&& mp.source_index == (c3.source + field_sum(full2, 1, i + 1)) as u32
            &&& mp.original_line == (c3.orig_line + field_sum(full2, 2, i + 1)) as u32
            &&& mp.original_column == (c3.orig_col + field_sum(full2, 3, i + 1)) as u32
            &&& mp.name_index == name_of(full2[i], c3.name + name_sum(full2, i + 1))
        } by {
            assert(flat_lines(rs)[0 + i] == flat_lines(rs)[i]);
        }
        lemma_sums_step(ls, l, line, here, full2, flat_lines(rs), c, c3);
    } else {
        let rest = lines_from(m.drop_first(), seq![], l, c2);
        lemma_lines_from_sums(m.drop_first(), seq![], l, c2);
        let full2 = full_segments(segment_texts(m.drop_first(), seq![]));
        assert(segment_texts(m, pending) == seq![pending] + segment_texts(m.drop_first(), seq![]));
        lemma_full_segments_concat(seq![pending], segment_texts(m.drop_first(), seq![]));
        lemma_sums_tail(rest->Ok_0, l, line, here, full2, c, c2);
    }
}

/// The last line: `ls` is `l` alone.
proof fn lemma_sums_tail_base(ls: Seq<Seq<Mapping>>, l: Seq<Mapping>, line: Seq<Mapping>, here: Seq<Seq<i64>>, c: LineCursor)
    requires
        here.len() <= 1,
        flat_lines(ls) == l,
        l.len() == line.len() + here.len(),
        forall|i: int| 0 <= i < line.len() ==> l[i] == line[i],
        here.len() == 1 ==> ({
            let mp = l[line.len() as int];
            &&& mp.source_index == (c.source + here[0][1]) as u32
            &&& mp.original_line == (c.orig_line + here[0][2]) as u32
            &&& mp.original_column == (c.orig_col + here[0][3]) as u32
            &&& mp.name_index == name_of(here[0], c.name + if here[0].len() >= 5 {
                here[0][4] as int
            } else {
                0
            })
        }),
    ensures
        sums_hold(ls, line, here, c),
{
    assert(field_sum(here, 1, 0) == 0 && field_sum(here, 2, 0) == 0 && field_sum(here, 3, 0) == 0 && name_sum(here, 0) == 0);
    assert forall|i: int| 0 <= i < here.len() implies {
        let mp = #[trigger] flat_lines(ls)[line.len() + i];
        &&& mp.source_index == (c.source + field_sum(here, 1, i + 1)) as u32
        &&& mp.original_line == (c.orig_line + field_sum(here, 2, i + 1)) as u32
        &&& mp.original_column == (c.orig_col + field_sum(here, 3, i + 1)) as u32
        &&& mp.name_index == name_of(here[i], c.name + name_sum(here, i + 1))
    } by {
        assert(i == 0);
    }
}

proof fn lemma_full_segments_concat(a: Seq<Seq<char>>, b: Seq<Seq<char>>)
    ensures
        full_segments(a + b) == full_segments(a) + full_segments(b),
    decreases a.len(),
{
    if a.len() == 0 {
        assert(a + b =~= b);
        assert(full_segments(a) + full_segments(b) =~= full_segments(b));
    } else {
        assert((a + b).drop_first() =~= a.drop_first() + b);
        lemma_full_segments_concat(a.drop_first(), b);
        assert((a + b)[0] == a[0]);
        let ra = full_segments(a.drop_first());
        let rb = full_segments(b);
        match vlq_result(a[0]) {
            Ok(f) => if a[0].len() > 0 && f.len() >= 4 {
                assert(seq![f] + (ra + rb) =~= (seq![f] + ra) + rb);
            } else {
            },
            Err(_) => {},
        }
    }
}

/// A step across `;`: the lines are `l` and then the rest, read from a
/// cursor with the same running values.
proof fn lemma_sums_step(
    ls: Seq<Seq<Mapping>>,
    l: Seq<Mapping>,
    line: Seq<Mapping>,
    here: Seq<Seq<i64>>,
    full2: Seq<Seq<i64>>,
    rest_flat: Seq<Mapping>,
    c: LineCursor,
    c3: LineCursor,
)
    requires
        here.len() <= 1,
        flat_lines(ls) == l + rest_flat,
        l.len() == line.len() + here.len(),
        forall|i: int| 0 <= i < line.len() ==> l[i] == line[i],
        here.len() == 1 ==> ({
            let mp = l[line.len() as int];
            &&& mp.source_index == (c.source + here[0][1]) as u32
            &&& mp.original_line == (c.orig_line + here[0][2]) as u32
            &&& mp.original_column == (c.orig_col + here[0][3]) as u32
            &&& c3.source == c.source + here[0][1]
            &&& c3.orig_line == c.orig_line + here[0][2]
            &&& c3.orig_col == c.orig_col + here[0][3]
            &&& mp.name_index == name_of(here[0], c.name + if here[0].len() >= 5 {
                here[0][4] as int
            } else {
                0
            })
            &&& c3.name == c.name + if here[0].len() >= 5 {
                here[0][4] as int
            } else {
                0
            }
        }),
        here.len() == 0 ==> c3.source == c.source && c3.orig_line == c.orig_line && c3.orig_col == c.orig_col && c3.name == c.name,
        rest_flat.len() == full2.len(),
        forall|i: int|
            0 <= i < full2.len() ==> {
                let mp = #[trigger] rest_flat[i];
                &&& mp.source_index == (c3.source + field_sum(full2, 1, i + 1)) as u32
                &&& mp.original_line == (c3.orig_line + field_sum(full2, 2, i + 1)) as u32
                &&& mp.original_column == (c3.orig_col + field_sum(full2, 3, i + 1)) as u32
                &&& mp.name_index == name_of(full2[i], c3.name + name_sum(full2, i + 1))
            },
    ensures
        sums_hold(ls, line, here + full2, c),
{
    let flat = flat_lines(ls);
    let full = here + full2;
    assert forall|i: int| 0 <= i < full.len() implies {
        let mp = #[trigger] flat[line.len() + i];
        &&& mp.source_index == (c.source + field_sum(full, 1, i + 1)) as u32
        &&& mp.original_line == (c.orig_line + field_sum(full, 2, i + 1)) as u32
        &&& mp.original_column == (c.orig_col + field_sum(full, 3, i + 1)) as u32
        &&& mp.name_index == name_of(full[i], c.name + name_sum(full, i + 1))
    } by {
        assert(field_sum(full, 1, 0) == 0 && field_sum(full, 2, 0) == 0 && field_sum(full, 3, 0) == 0 && name_sum(full, 0) == 0);
        assert(name_sum(full, 1) == name_sum(full, 0) + if full[0].len() >= 5 {
            full[0][4] as int
        } else {
            0
        });
        if i < here.len() {
            assert(flat[line.len() + i] == l[line.len() + i]);
            assert(field_sum(full, 1, 1) == field_sum(full, 1, 0) + full[0][1]);
            assert(field_sum(full, 2, 1) == field_sum(full, 2, 0) + full[0][2]);
            assert(field_sum(full, 3, 1) == field_sum(full, 3, 0) + full[0][3]);
        } else {
            let k = i - here.len();
            assert(flat[line.len() + i] == rest_flat[k]);
            lemma_field_sum_concat(here, full2, 1, k + 1);
            lemma_field_sum_concat(here, full2, 2, k + 1);
            lemma_field_sum_concat(here, full2, 3, k + 1);
            lemma_name_sum_concat(here, full2, k + 1);
            assert(full[i] == full2[k]);
            if here.len() == 1 {
                assert(field_sum(here, 1, 0) == 0 && field_sum(here, 2, 0) == 0 && field_sum(here, 3, 0) == 0 && name_sum(here, 0) == 0);
                assert(field_sum(here, 1, 1) == here[0][1] as int);
                assert(field_sum(here, 2, 1) == here[0][2] as int);
                assert(field_sum(here, 3, 1) == here[0][3] as int);
            }
        }
    }
    assert forall|i: int| 0 <= i < line.len() implies flat[i] == line[i] by {
        assert(flat[i] == l[i]);
    }
}

/// A step across `,`: the rest of the lines continue the line `l`.
proof fn lemma_sums_tail(
    ls: Seq<Seq<Mapping>>,
    l: Seq<Mapping>,
    line: Seq<Mapping>,
    here: Seq<Seq<i64>>,
    full2: Seq<Seq<i64>>,
    c: LineCursor,
    c2: LineCursor,
)
    requires
        here.len() <= 1,
        sums_hold(ls, l, full2, c2),
        l.len() == line.len() + here.len(),
        forall|i: int| 0 <= i < line.len() ==> l[i] == line[i],
        here.len() == 1 ==> ({
            let mp = l[line.len() as int];
            &&& mp.source_index == (c.source + here[0][1]) as u32
            &&& mp.original_line == (c.orig_line + here[0][2]) as u32
            &&& mp.original_column == (c.orig_col + here[0][3]) as u32
            &&& c2.source == c.source + here[0][1]
            &&& c2.orig_line == c.orig_line + here[0][2]
            &&& c2.orig_col == c.orig_col + here[0][3]
            &&& mp.name_index == name_of(here[0], c.name + if here[0].len() >= 5 {
                here[0][4] as int
            } else {
                0
            })
            &&& c2.name == c.name + if here[0].len() >= 5 {
                here[0][4] as int
            } else {
                0
            }
        }),
        here.len() == 0 ==> c2.source == c.source && c2.orig_line == c.orig_line && c2.orig_col == c.orig_col && c2.name == c.name,
    ensures
        sums_hold(ls, line, here + full2, c),
{
    let flat = flat_lines(ls);
    let full = here + full2;
    assert forall|i: int| 0 <= i < full.len() implies {
        let mp = #[trigger] flat[line.len() + i];
        &&& mp.source_index == (c.source + field_sum(full, 1, i + 1)) as u32
        &&& mp.original_line == (c.orig_line + field_sum(full, 2, i + 1)) as u32
        &&& mp.original_column == (c.orig_col + field_sum(full, 3, i + 1)) as u32
        &&& mp.name_index == name_of(full[i], c.name + name_sum(full, i + 1))
    } by {
        assert(field_sum(full, 1, 0) == 0 && field_sum(full, 2, 0) == 0 && field_sum(full, 3, 0) == 0 && name_sum(full, 0) == 0);
        assert(name_sum(full, 1) == name_sum(full, 0) + if full[0].len() >= 5 {
            full[0][4] as int
        } else {
            0
        });
        if i < here.len() {
            assert(flat[line.len() + i] == l[line.len() + i]);
            assert(field_sum(full, 1, 1) == field_sum(full, 1, 0) + full[0][1]);
            assert(field_sum(full, 2, 1) == field_sum(full, 2, 0) + full[0][2]);
            assert(field_sum(full, 3, 1) == field_sum(full, 3, 0) + full[0][3]);
        } else {
            let k = i - here.len();
            assert(flat[line.len() + i] == flat[l.len() + k]);
            lemma_field_sum_concat(here, full2, 1, k + 1);
            lemma_field_sum_concat(here, full2, 2, k + 1);
            lemma_field_sum_concat(here, full2, 3, k + 1);
            lemma_name_sum_concat(here, full2, k + 1);
            assert(full[i] == full2[k]);
            if here.len() == 1 {
                assert(field_sum(here, 1, 0) == 0 && field_sum(here, 2, 0) == 0 && field_sum(here, 3, 0) == 0 && name_sum(here, 0) == 0);
                assert(field_sum(here, 1, 1) == here[0][1] as int);
                assert(field_sum(here, 2, 1) == here[0][2] as int);
                assert(field_sum(here, 3, 1) == here[0][3] as int);
            }
        }
    }
    assert forall|i: int| 0 <= i < line.len() implies flat[i] == line[i] by {
        assert(flat[i] == l[i]);
    }
}

/// The segment texts of the line being read, up to the first `;`.
pub open spec fn line_segment_texts(m: Seq<char>, pending: Seq<char>) -> Seq<Seq<char>>
    decreases m.len(),
{
    if m.len() == 0 || m[0] == ';' {
        seq![pending]
    } else if m[0] == ',' {
        seq![pending] + line_segment_texts(m.drop_first(), seq![])
    } else {
        line_segment_texts(m.drop_first(), pending.push(m[0]))
    }
}

/// What follows the first `;` of `m` (nothing where there is none).
pub open spec fn after_first_semi(m: Seq<char>) -> Seq<char>
    decreases m.len(),
{
    if m.len() == 0 {
        m
    } else if m[0] == ';' {
        m.drop_first()
    } else {
        after_first_semi(m.drop_first())
    }
}

/// The number of `;` in `m`.
pub open spec fn count_semis(m: Seq<char>) -> nat
    decreases m.len(),
{
    if m.len() == 0 {
        0
    } else {
        (if m[0] == ';' {
            1nat
        } else {
            0nat
        }) + count_semis(m.drop_first())
    }
}

/// The segment texts of line `l` of `m`, counting from the line being read.
pub open spec fn line_texts_at(m: Seq<char>, pending: Seq<char>, l: nat) -> Seq<Seq<char>>
    decreases l,
{
    if l == 0 {
        line_segment_texts(m, pending)
    } else {
        line_texts_at(after_first_semi(m), seq![], (l - 1) as nat)
    }
}

/// The generated column a segment text moves by: its first value (0 for a
/// text without values).
pub open spec fn column_step(t: Seq<char>) -> int {
    if t.len() > 0 {
        match vlq_result(t) {
            Ok(f) => if f.len() >= 1 {
                f[0] as int
            } else {
                0
            },
            Err(_) => 0,
        }
    } else {
        0
    }
}

/// A segment text that carries a source position (four values or more).
pub open spec fn is_full(t: Seq<char>) -> bool {
    t.len() > 0 && (vlq_result(t) matches Ok(f) && f.len() >= 4)
}

/// The sum of the column steps of the first `k` texts.
pub open spec fn column_sum(ts: Seq<Seq<char>>, k: int) -> int
    decreases ts.len(),
{
    if k <= 0 || ts.len() == 0 {
        0
    } else {
        column_step(ts[0]) + column_sum(ts.drop_first(), k - 1)
    }
}

/// The places of the texts that carry a source position, in order.
pub open spec fn full_places(ts: Seq<Seq<char>>) -> Seq<int>
    decreases ts.len(),
{
    if ts.len() == 0 {
        seq![]
    } else {
        (if is_full(ts[0]) {
            seq![0int]
        } else {
            seq![]
        }) + full_places(ts.drop_first()).map_values(|x: int| x + 1)
    }
}

/// Line `l` holds `prefix` and then one mapping for each text of `ts` that
/// carries a source position, whose generated column is `g` plus the column
/// steps of the texts up to and including it.
pub open spec fn line_columns(l: Seq<Mapping>, prefix: Seq<Mapping>, ts: Seq<Seq<char>>, g: int) -> bool {
    let pl = full_places(ts);
    &&& l.len() == prefix.len() + pl.len()
    &&& forall|i: int| 0 <= i < prefix.len() ==> l[i] == prefix[i]
    &&& forall|j: int|
        0 <= j < pl.len() ==> (#[trigger] l[prefix.len() + j]).generated_column == (g + column_sum(ts, pl[j] + 1)) as u32
}

/// The places are places of the texts.
proof fn lemma_full_places_range(ts: Seq<Seq<char>>)
    ensures
        forall|j: int| 0 <= j < full_places(ts).len() ==> 0 <= #[trigger] full_places(ts)[j] < ts.len(),
    decreases ts.len(),
{
    if ts.len() > 0 {
        lemma_full_places_range(ts.drop_first());
        let rest = full_places(ts.drop_first());
        let head: Seq<int> = if is_full(ts[0]) { seq![0int] } else { seq![] };
        let shifted = rest.map_values(|x: int| x + 1);
        assert forall|j: int| 0 <= j < full_places(ts).len() implies 0 <= #[trigger] full_places(ts)[j] < ts.len() by {
            if j >= head.len() {
                assert(full_places(ts)[j] == shifted[j - head.len()]);
                assert(shifted[j - head.len()] == rest[j - head.len()] + 1);
            }
        }
    }
}

/// Moving one text to the front of a line's texts.
proof fn lemma_line_columns_cons(ll: Seq<Mapping>, l: Seq<Mapping>, line: Seq<Mapping>, p: Seq<char>, ts: Seq<Seq<char>>, g: int)
    requires
        line_columns(ll, l, ts, g + column_step(p)),
        l.len() == line.len() + (if is_full(p) { 1int } else { 0int }),
        forall|i: int| 0 <= i < line.len() ==> l[i] == line[i],
        is_full(p) ==> l[line.len() as int].generated_column == (g + column_step(p)) as u32,
    ensures
        line_columns(ll, line, seq![p] + ts, g),
{
    let all = seq![p] + ts;
    assert(all.drop_first() =~= ts);
    assert(all[0] == p);
    let pl = full_places(all);
    let pl2 = full_places(ts);
    let h: int = if is_full(p) { 1 } else { 0 };
    assert(pl == (if is_full(p) { seq![0int] } else { seq![] }) + pl2.map_values(|x: int| x + 1));
    assert forall|j: int| 0 <= j < pl.len() implies (#[trigger] ll[line.len() + j]).generated_column == (g + column_sum(all, pl[j] + 1)) as u32 by {
        if j < h {
            assert(pl[j] == 0);
            assert(column_sum(ts, 0) == 0);
            assert(column_sum(all, 1) == column_step(p) + column_sum(ts, 0));
            assert(ll[line.len() + j] == l[line.len() as int]);
        } else {
            let k = j - h;
            lemma_full_places_range(ts);
            assert(pl[j] == pl2[k] + 1);
            assert(column_sum(all, pl2[k] + 2) == column_step(p) + column_sum(ts, pl2[k] + 1));
            assert(ll[line.len() + j] == ll[l.len() + k]);
        }
    }
    assert forall|i: int| 0 <= i < line.len() implies ll[i] == line[i] by {
        assert(ll[i] == l[i]);
    }
}

/// The lines decoded from `m`, after the pending text, line and cursor:
/// one more than there are `;`; the first is `line` and then the first
/// line's mappings from the cursor's column; each later line starts from
/// column 0.
proof fn lemma_lines_from_columns(m: Seq<char>, pending: Seq<char>, line: Seq<Mapping>, c: LineCursor)
    requires
        lines_from(m, pending, line, c) is Ok,
        lines_fit(m, pending, c),
    ensures
        ({
            let ls = lines_from(m, pending, line, c)->Ok_0;
            &&& ls.len() == 1 + count_semis(m)
            &&& line_columns(ls[0], line, line_segment_texts(m, pending), c.gen_col as int)
            &&& forall|l: int|
                1 <= l < ls.len() ==> line_columns(#[trigger] ls[l], seq![], line_texts_at(after_first_semi(m), seq![], (l - 1) as nat), 0)
        }),
    decreases m.len(),
{
    if m.len() > 0 && m[0] != ';' && m[0] != ',' {
        lemma_lines_from_columns(m.drop_first(), pending.push(m[0]), line, c);
        return;
    }
    let fl = flush_line(pending, line, c);
    lemma_flush_facts(pending, line, c);
    let l = fl->Ok_0.0;
    let c2 = fl->Ok_0.1;
    assert(is_full(pending) ==> full_places(seq![pending]) =~= seq![0int]) by {
        assert(seq![pending].drop_first() =~= Seq::<Seq<char>>::empty());
        assert(full_places(Seq::<Seq<char>>::empty()).map_values(|x: int| x + 1) =~= Seq::<int>::empty());
    }
    assert(!is_full(pending) ==> full_places(seq![pending]) =~= Seq::<int>::empty()) by {
        assert(seq![pending].drop_first() =~= Seq::<Seq<char>>::empty());
        assert(full_places(Seq::<Seq<char>>::empty()).map_values(|x: int| x + 1) =~= Seq::<int>::empty());
    }
    assert(seq![pending].drop_first() =~= Seq::<Seq<char>>::empty());
    assert(column_sum(seq![pending], 1) == column_step(pending) + column_sum(Seq::<Seq<char>>::empty(), 0));
    if m.len() == 0 || m[0] == ';' {
        assert(line_segment_texts(m, pending) == seq![pending]);
        assert(line_columns(l, line, seq![pending], c.gen_col as int));
        if m.len() == 0 {
        } else {
            let c3 = LineCursor { gen_col: 0, ..c2 };
            lemma_lines_from_columns(m.drop_first(), seq![], seq![], c3);
            let rs = lines_from(m.drop_first(), seq![], seq![], c3)->Ok_0;
            let ls = seq![l] + rs;
            assert(after_first_semi(m) == m.drop_first());
            assert forall|k: int| 1 <= k < ls.len() implies line_columns(#[trigger] ls[k], seq![], line_texts_at(after_first_semi(m), seq![], (k - 1) as nat), 0) by {
                assert(ls[k] == rs[k - 1]);
                if k >= 2 {
                    assert(line_texts_at(m.drop_first(), seq![], (k - 1) as nat) == line_texts_at(after_first_semi(m.drop_first()), seq![], (k - 2) as nat));
                }
            }
        }
    } else {
        lemma_lines_from_columns(m.drop_first(), seq![], l, c2);
        let ls = lines_from(m.drop_first(), seq![], l, c2)->Ok_0;
        assert(line_segment_texts(m, pending) == seq![pending] + line_segment_texts(m.drop_first(), seq![]));
        lemma_line_columns_cons(ls[0], l, line, pending, line_segment_texts(m.drop_first(), seq![]), c.gen_col as int);
        assert(after_first_semi(m) == after_first_semi(m.drop_first()));
    }
}

/// The lines a mappings text decodes to (where it reads without error or
/// overflow): one more than the `;` in the text, and line `l` holds one
/// mapping for each segment of that line with four values or more, in
/// order, whose generated column is the sum of the first values of that
/// line's segments up to and including it (the column starts afresh on
/// every line).
pub proof fn lemma_mapping_lines_columns(m: Seq<char>)
    requires
        mapping_lines(m) is Ok,
        mapping_lines_fit(m),
    ensures
        ({
            let ls = mapping_lines(m)->Ok_0;
            &&& ls.len() == 1 + count_semis(m)
            &&& forall|l: int| 0 <= l < ls.len() ==> line_columns(#[trigger] ls[l], seq![], line_texts_at(m, seq![], l as nat), 0)
        }),
{
    lemma_lines_from_columns(m, seq![], seq![], start_line_cursor());
    let ls = mapping_lines(m)->Ok_0;
    assert forall|l: int| 0 <= l < ls.len() implies line_columns(#[trigger] ls[l], seq![], line_texts_at(m, seq![], l as nat), 0) by {
        if l >= 1 {
            assert(line_texts_at(m, seq![], l as nat) == line_texts_at(after_first_semi(m), seq![], (l - 1) as nat));
        }
    }
}

/// Source Map v3 stores a mapping's source index, original line and
/// original column as offsets from the previous mapping: decoding a
/// mappings text that reads without error or overflow gives one mapping for
/// each segment of four values or more, in order across lines, and each
/// mapping's source index, original line and original column are the sums
/// of those values over that segment and all the earlier such segments; a
/// mapping has a name exactly when its segment has a fifth value, and the
/// name index is the sum of the fifth values so far.
pub proof fn lemma_mappings_accumulate(m: Seq<char>)
    requires
        mapping_lines(m) is Ok,
        mapping_lines_fit(m),
    ensures
        ({
            let flat = flat_lines(mapping_lines(m)->Ok_0);
            let full = full_segments(segment_texts(m, seq![]));
            &&& flat.len() == full.len()
            &&& forall|i: int|
                0 <= i < full.len() ==> {
                    let mp = #[trigger] flat[i];
                    &&& mp.source_index == field_sum(full, 1, i + 1) as u32
                    &&& mp.original_line == field_sum(full, 2, i + 1) as u32
                    &&& mp.original_column == field_sum(full, 3, i + 1) as u32
                    &&& mp.name_index == if full[i].len() >= 5 {
                        Some(name_sum(full, i + 1) as u32)
                    } else {
                        None
                    }
                }
        }),
{
    lemma_lines_from_sums(m, seq![], seq![], start_line_cursor());
    let flat = flat_lines(mapping_lines(m)->Ok_0);
    let full = full_segments(segment_texts(m, seq![]));
    assert forall|i: int| 0 <= i < full.len() implies {
        let mp = #[trigger] flat[i];
        &&& mp.source_index == field_sum(full, 1, i + 1) as u32
        &&& mp.original_line == field_sum(full, 2, i + 1) as u32
        &&& mp.original_column == field_sum(full, 3, i + 1) as u32
        &&& mp.name_index == if full[i].len() >= 5 {
            Some(name_sum(full, i + 1) as u32)
        } else {
            None
        }
    } by {
        assert(flat[0 + i] == flat[i]);
    }
}

/// The views of decoded lines.
pub open spec fn line_views(v: Seq<Vec<Mapping>>) -> Seq<Seq<Mapping>> {
    v.map_values(|l: Vec<Mapping>| l@)
}

/// `done` followed by what is still to come.
pub open spec fn after_lines(
    done: Seq<Seq<Mapping>>,
    r: Result<Seq<Seq<Mapping>>, Seq<char>>,
) -> Result<Seq<Seq<Mapping>>, Seq<char>> {
    match r {
        Ok(rest) => Ok(done + rest),
        Err(e) => Err(e),
    }
}

fn checked_sum(a: i64, b: i64) -> (r: Option<i64>)
    ensures
        r is Some <==> in_i64(a + b),
        r matches Some(x) ==> x == a + b,
{
    a.checked_add(b)
}

/// Reads one pending segment text into the line; `None` where it overflows.
fn flush_pending(pending: &Vec<char>, line: &mut Vec<Mapping>, cur: &mut LineCursor) -> (r: Option<
    Result<(), String>,
>)
    ensures
        r is Some <==> flush_fits(pending@, *old(cur)),
        (r matches Some(Err(e)) ==> flush_line(pending@, old(line)@, *old(cur)) == Err::<
            (Seq<Mapping>, LineCursor),
            Seq<char>,
        >(e@)),
        (r matches Some(Ok(_)) ==> flush_line(pending@, old(line)@, *old(cur)) == Ok::<
            (Seq<Mapping>, LineCursor),
            Seq<char>,
        >((final(line)@, *final(cur)))),
{
    if pending.len() == 0 {
        return Some(Ok(()));
    }
    let text = crate::text::string_from_chars(pending);
    let fields = match vlq_values(text.as_str()) {
        None => return None,
        Some(Err(e)) => return Some(Err(e)),
        Some(Ok(f)) => f,
    };
    if fields.len() == 0 {
        return Some(Ok(()));
    }
    let gc = match checked_sum(cur.gen_col, fields[0]) {
        Some(x) => x,
        None => return None,
    };
    if fields.len() >= 4 {
        let src = match checked_sum(cur.source, fields[1]) {
            Some(x) => x,
            None => return None,
        };
        let ol = match checked_sum(cur.orig_line, fields[2]) {
            Some(x) => x,
            None => return None,
        };
        let oc = match checked_sum(cur.orig_col, fields[3]) {
            Some(x) => x,
            None => return None,
        };
        let nm = if fields.len() >= 5 {
            match checked_sum(cur.name, fields[4]) {
                Some(x) => x,
                None => return None,
            }
        } else {
            cur.name
        };
        line.push(
            Mapping {
                generated_column: gc as u32,
                source_index: src as u32,
                original_line: ol as u32,
                original_column: oc as u32,
                name_index: if fields.len() >= 5 {
                    Some(nm as u32)
                } else {
                    None
                },
            },
        );
        *cur = LineCursor { gen_col: gc, source: src, orig_line: ol, orig_col: oc, name: nm };
    } else {
        cur.gen_col = gc;
    }
    Some(Ok(()))
}

/// Decodes a mappings text; `None` where it would overflow.
fn read_mapping_lines(mappings: &str) -> (r: Option<Result<Vec<Vec<Mapping>>, String>>)
    ensures
        r is Some <==> mapping_lines_fit(mappings@),
        (r matches Some(Ok(v)) ==> mapping_lines(mappings@) == Ok::<Seq<Seq<Mapping>>, Seq<char>>(
            line_views(v@),
        )),
        (r matches Some(Err(e)) ==> mapping_lines(mappings@) == Err::<Seq<Seq<Mapping>>, Seq<char>>(
            e@,
        )),
{
    let cs = crate::text::chars_of(mappings);
    let mut result: Vec<Vec<Mapping>> = Vec::new();
    let mut line: Vec<Mapping> = Vec::new();
    let mut pending: Vec<char> = Vec::new();
    let mut cur = LineCursor { gen_col: 0, source: 0, orig_line: 0, orig_col: 0, name: 0 };
    let mut i: usize = 0;
    assert(cs@.skip(0) =~= cs@);
    assert(line_views(result@) =~= Seq::<Seq<Mapping>>::empty());
    while i < cs.len()
        invariant
            i <= cs.len(),
            cs@ == mappings@,
            lines_fit(cs@.skip(i as int), pending@, cur) == mapping_lines_fit(mappings@),
            after_lines(line_views(result@), lines_from(cs@.skip(i as int), pending@, line@, cur))
                == mapping_lines(mappings@),
        decreases cs.len() - i,
    {
        let c = cs[i];
        let ghost rest = cs@.skip(i as int);
        assert(rest[0] == c);
        assert(rest.drop_first() =~= cs@.skip(i as int + 1));
        if c == ';' || c == ',' {
            let ghost p0 = pending@;
            let ghost l0 = line@;
            let ghost c0 = cur;
            let ghost r0 = line_views(result@);
            match flush_pending(&pending, &mut line, &mut cur) {
                None => return None,
                Some(Err(e)) => {
                    return Some(Err(e));
                },
                Some(Ok(())) => {},
            }
            assert(flush_line(p0, seq![], c0) matches Ok((_, c2)) && c2 == cur) by {
                lemma_flush_line_cursor(p0, l0, c0);
            }
            pending = Vec::new();
            if c == ';' {
                let done = line;
                line = Vec::new();
                result.push(done);
                cur.gen_col = 0;
                assert(line_views(result@) =~= r0.push(done@));
                proof {
                    let tail = lines_from(cs@.skip(i as int + 1), seq![], seq![], cur);
                    assert(after_lines(line_views(result@), tail) =~= after_lines(r0, match tail {
                        Err(e) => Err(e),
                        Ok(more) => Ok(seq![done@] + more),
                    })) by {
                        match tail {
                            Ok(more) => {
                                assert(r0.push(done@) + more =~= r0 + (seq![done@] + more));
                            },
                            Err(e) => {},
                        }
                    }
                }
            }
            assert(pending@ =~= Seq::<char>::empty());
            assert(line@ =~= line@);
        } else {
            pending.push(c);
        }
        i = i + 1;
    }
    assert(cs@.skip(i as int) =~= Seq::<char>::empty());
    let ghost r0 = line_views(result@);
    match flush_pending(&pending, &mut line, &mut cur) {
        None => return None,
        Some(Err(e)) => return Some(Err(e)),
        Some(Ok(())) => {},
    }
    let done = line;
    result.push(done);
    assert(line_views(result@) =~= r0 + seq![done@]);
    Some(Ok(result))
}

/// The cursor a pending text moves to does not depend on the line it is read into.
proof fn lemma_flush_line_cursor(pending: Seq<char>, line: Seq<Mapping>, c: LineCursor)
    ensures
        match (flush_line(pending, line, c), flush_line(pending, seq![], c)) {
            (Ok((_, c1)), Ok((_, c2))) => c1 == c2,
            (Err(e1), Err(e2)) => e1 == e2,
            _ => false,
        },
{
}

/// What reading a parsed document gives: a version member that is an
/// integer is required and must be 3 once cut to `u32`; then the fields are
/// read as they are, and the mappings text decoded.
pub open spec fn read_map(doc: JsonValue, r: Result<SourceMap, String>) -> bool {
    match doc.get_spec("version"@) {
        Some(v) if v.u64_spec() is Some => {
            let version = v.u64_spec().unwrap() as u32;
            if version != 3 {
                r matches Err(e) && e@ == "Unsupported source map version: "@ + decimal(version as nat)
            } else {
                match mapping_lines(doc_mappings(doc)) {
                    Err(e) => r matches Err(m) && m@ == e,
                    Ok(lines) => r matches Ok(map) && map.version == 3 && opt_view(map.file) == doc_str(
                        doc,
                        "file"@,
                    ) && opt_view(map.source_root) == doc_str(doc, "sourceRoot"@) && views_of(
                        map.sources@,
                    ) == doc_strings(doc, "sources"@) && map.sources_content@.map_values(
                        |c: Option<String>| opt_view(c),
                    ) == doc_optional_strings(doc, "sourcesContent"@) && views_of(map.names@)
                        == doc_strings(doc, "names"@) && line_views(map.mappings@) == lines,
                }
            }
        },
        _ => r matches Err(e) && e@ == "Missing version field"@,
    }
}

/// The documents whose reading does not overflow.
pub open spec fn map_readable(doc: JsonValue) -> bool {
    match doc.get_spec("version"@) {
        Some(v) if v.u64_spec() is Some => (v.u64_spec().unwrap() as u32 == 3) ==> mapping_lines_fit(
            doc_mappings(doc),
        ),
        _ => true,
    }
}

/// Mapping `i` is the last on its line at or before `column`.
pub open spec fn last_at_or_before(ms: Seq<Mapping>, column: u32, i: int) -> bool {
    &&& 0 <= i < ms.len()
    &&& ms[i].generated_column <= column
    &&& forall|j: int| i < j < ms.len() ==> (#[trigger] ms[j]).generated_column > column
}

/// Mapping `m` matches an original position when it has that source and
/// line and a column not past it.
pub open spec fn gen_match(m: Mapping, si: u32, line: u32, column: u32) -> bool {
    m.source_index == si && m.original_line == line && m.original_column <= column
}

/// Source `k` is the first source named `source`.
pub open spec fn first_source(sources: Seq<String>, source: Seq<char>, k: int) -> bool {
    &&& 0 <= k < sources.len()
    &&& sources[k]@ == source
    &&& forall|j: int| 0 <= j < k ==> (#[trigger] sources[j])@ != source
}

impl SourceMap {
    /// The original position of a mapping: its source (behind the source
    /// root, when there is one), line and column, and its name when the name
    /// index exists; `None` when the source index does not exist.
    pub open spec fn original_of(&self, m: Mapping) -> Option<(Seq<char>, u32, u32, Option<Seq<char>>)> {
        if m.source_index < self.sources@.len() {
            Some(
                (
                    match self.source_root {
                        Some(root) => root@ + self.sources@[m.source_index as int]@,
                        None => self.sources@[m.source_index as int]@,
                    },
                    m.original_line,
                    m.original_column,
                    match m.name_index {
                        Some(n) => if n < self.names@.len() {
                            Some(self.names@[n as int]@)
                        } else {
                            None
                        },
                        None => None,
                    },
                ),
            )
        } else {
            None
        }
    }

    /// Parse a source map from JSON
    pub fn from_json(json: &str) -> (r: Result<Self, String>)
        requires
            (json_parse_outcome(json@) matches Ok(doc) ==> map_readable(doc)),
        ensures
            match json_parse_outcome(json@) {
                Err(e) => r matches Err(m) && m@ == "Invalid source map JSON: "@ + e,
                Ok(doc) => read_map(doc, r),
            },
    {
        match parse_json(json) {
            Ok(doc) => Self::from_document(&doc),
            Err(e) => {
                let mut m = string_of("Invalid source map JSON: ");
                push_str(&mut m, e.as_str());
                Err(m)
            },
        }
    }

    /// Parse a source map from JSON, or give `None` where its mappings text
    /// would overflow while decoding.
    pub fn from_json_checked(json: &str) -> (r: Option<Result<Self, String>>)
        ensures
            match json_parse_outcome(json@) {
                Err(e) => r matches Some(Err(m)) && m@ == "Invalid source map JSON: "@ + e,
                Ok(doc) => if map_readable(doc) {
                    r matches Some(x) && read_map(doc, x)
                } else {
                    r is None
                },
            },
    {
        match parse_json(json) {
            Ok(doc) => {
                match doc.get("version") {
                    Some(v) => match v.as_u64() {
                        Some(n) => {
                            if n as u32 == 3 {
                                let m = match str_member(&doc, "mappings") {
                                    Some(m) => m,
                                    None => String::new(),
                                };
                                if read_mapping_lines(m.as_str()).is_none() {
                                    return None;
                                }
                            }
                        },
                        None => {},
                    },
                    None => {},
                }
                Some(Self::from_json(json))
            },
            Err(e) => {
                let mut m = string_of("Invalid source map JSON: ");
                push_str(&mut m, e.as_str());
                Some(Err(m))
            },
        }
    }

    /// Read a source map from a parsed JSON document.
    pub fn from_document(doc: &JsonValue) -> (r: Result<Self, String>)
        requires
            map_readable(*doc),
        ensures
            read_map(*doc, r),
    {
        let n = match doc.get("version") {
            Some(v) => match v.as_u64() {
                Some(n) => n,
                None => return Err(string_of("Missing version field")),
            },
            None => return Err(string_of("Missing version field")),
        };
        let version = n as u32;
        if version != 3 {
            let mut m = string_of("Unsupported source map version: ");
            crate::text::push_decimal(&mut m, version as u64);
            return Err(m);
        }
        let file = str_member(doc, "file");
        let source_root = str_member(doc, "sourceRoot");
        let sources = string_members(doc, "sources");
        let sources_content = optional_string_members(doc, "sourcesContent");
        let names = string_members(doc, "names");
        let mappings_str = match str_member(doc, "mappings") {
            Some(m) => m,
            None => String::new(),
        };
        let mappings = match Self::decode_mappings(mappings_str.as_str()) {
            Ok(m) => m,
            Err(e) => return Err(e),
        };
        Ok(SourceMap { version, file, source_root, sources, sources_content, names, mappings })
    }

    /// Decode VLQ-encoded mappings string
    fn decode_mappings(mappings: &str) -> (r: Result<Vec<Vec<Mapping>>, String>)
        requires
            mapping_lines_fit(mappings@),
        ensures
            match r {
                Ok(v) => mapping_lines(mappings@) == Ok::<Seq<Seq<Mapping>>, Seq<char>>(line_views(v@)),
                Err(e) => mapping_lines(mappings@) == Err::<Seq<Seq<Mapping>>, Seq<char>>(e@),
            },
    {
        match read_mapping_lines(mappings) {
            Some(r) => r,
            None => Ok(Vec::new()),
        }
    }

    /// `r` is the original position of a generated line and column: none
    /// past the last line or before the line's first segment; otherwise that
    /// of the last segment at or before the column.
    pub open spec fn position_answer(&self, line: u32, column: u32, r: Option<OriginalPosition>) -> bool {
        &&& line >= self.mappings@.len() ==> r is None
        &&& line < self.mappings@.len() ==> {
            let ms = self.mappings@[line as int]@;
            &&& (forall|j: int| 0 <= j < ms.len() ==> (#[trigger] ms[j]).generated_column > column)
                ==> r is None
            &&& forall|i: int|
                last_at_or_before(ms, column, i) ==> match self.original_of(ms[i]) {
                    None => r is None,
                    Some(p) => r matches Some(pos) && pos.source@ == p.0 && pos.line == p.1
                        && pos.column == p.2 && opt_view(pos.name) == p.3,
                }
        }
    }

    /// Look up the original position for a generated position
    pub fn original_position_for(&self, line: u32, column: u32) -> (r: Option<OriginalPosition>)
        ensures
            self.position_answer(line, column, r),
    {
        if line as usize >= self.mappings.len() {
            return None;
        }
        let ms = &self.mappings[line as usize];
        assert(ms@ == self.mappings@[line as int]@);
        let mut k: usize = ms.len();
        while k > 0
            invariant
                k <= ms.len(),
                forall|j: int| k <= j < ms.len() ==> (#[trigger] ms@[j]).generated_column > column,
            ensures
                k <= ms.len(),
                forall|j: int| k <= j < ms.len() ==> (#[trigger] ms@[j]).generated_column > column,
                k > 0 ==> ms@[k - 1].generated_column <= column,
            decreases k,
        {
            if ms[k - 1].generated_column <= column {
                break;
            }
            k = k - 1;
        }
        if k == 0 {
            return None;
        }
        let m = ms[k - 1];
        proof {
            assert forall|i: int| last_at_or_before(ms@, column, i) implies i == k - 1 by {
                if i < k - 1 {
                    assert(ms@[k - 1].generated_column > column);
                }
            }
        }
        if m.source_index as usize >= self.sources.len() {
            return None;
        }
        let src = self.sources[m.source_index as usize].as_str();
        let source = match &self.source_root {
            Some(root) => {
                let mut t = string_of(root.as_str());
                push_str(&mut t, src);
                t
            },
            None => string_of(src),
        };
        let name = match m.name_index {
            Some(n) => if (n as usize) < self.names.len() {
                Some(string_of(self.names[n as usize].as_str()))
            } else {
                None
            },
            None => None,
        };
        Some(OriginalPosition { source, line: m.original_line, column: m.original_column, name })
    }

    /// Look up the generated position for an original position
    pub fn generated_position_for(&self, source: &str, line: u32, column: u32) -> (r: Option<GeneratedPosition>)
        ensures
            (forall|k: int| 0 <= k < self.sources@.len() ==> (#[trigger] self.sources@[k])@ != source@)
                ==> r is None,
            forall|k: int|
                first_source(self.sources@, source@, k) ==> {
                    let si = k as u32;
                    let ls = line_views(self.mappings@);
                    &&& (forall|g: int, j: int|
                        0 <= g < ls.len() && 0 <= j < ls[g].len() ==> !gen_match(
                            #[trigger] ls[g][j],
                            si,
                            line,
                            column,
                        )) ==> r is None
                    &&& forall|g: int, j: int|
                        0 <= g < ls.len() && 0 <= j < ls[g].len() && gen_match(#[trigger] ls[g][j], si, line, column)
                            && (forall|g2: int, j2: int|
                            0 <= g2 < ls.len() && 0 <= j2 < ls[g2].len() && (g2 < g || (g2 == g && j2 < j))
                                ==> !gen_match(#[trigger] ls[g2][j2], si, line, column)) ==> (r matches Some(p)
                            && p.line == g as u32 && p.column == ls[g][j].generated_column)
                },
    {
        let mut k: usize = 0;
        while k < self.sources.len()
            invariant
                k <= self.sources.len(),
                forall|j: int| 0 <= j < k ==> (#[trigger] self.sources@[j])@ != source@,
            ensures
                k <= self.sources.len(),
                forall|j: int| 0 <= j < k ==> (#[trigger] self.sources@[j])@ != source@,
                k < self.sources.len() ==> self.sources@[k as int]@ == source@,
            decreases self.sources.len() - k,
        {
            if crate::text::str_eq(self.sources[k].as_str(), source) {
                break;
            }
            k = k + 1;
        }
        if k == self.sources.len() {
            return None;
        }
        proof {
            assert forall|k2: int| first_source(self.sources@, source@, k2) implies k2 == k by {
                if k2 < k {
                } else if k2 > k {
                    assert(self.sources@[k as int]@ == source@);
                }
            }
        }
        let si = k as u32;
        let ghost ls = line_views(self.mappings@);
        let mut g: usize = 0;
        while g < self.mappings.len()
            invariant
                k < self.sources@.len(),
                self.sources@[k as int]@ == source@,
                si == k as u32,
                forall|k2: int| first_source(self.sources@, source@, k2) ==> k2 == k,
                g <= self.mappings.len(),
                ls == line_views(self.mappings@),
                forall|g2: int, j2: int|
                    0 <= g2 < g && 0 <= j2 < ls[g2].len() ==> !gen_match(#[trigger] ls[g2][j2], si, line, column),
            decreases self.mappings.len() - g,
        {
            let lm = &self.mappings[g];
            assert(ls[g as int] == lm@);
            let mut j: usize = 0;
            while j < lm.len()
                invariant
                k < self.sources@.len(),
                self.sources@[k as int]@ == source@,
                si == k as u32,
                forall|k2: int| first_source(self.sources@, source@, k2) ==> k2 == k,
                    j <= lm.len(),
                    g < self.mappings.len(),
                    ls == line_views(self.mappings@),
                    ls[g as int] == lm@,
                    forall|g2: int, j2: int|
                        0 <= g2 < g && 0 <= j2 < ls[g2].len() ==> !gen_match(#[trigger] ls[g2][j2], si, line, column),
                    forall|j2: int| 0 <= j2 < j ==> !gen_match(#[trigger] ls[g as int][j2], si, line, column),
                decreases lm.len() - j,
            {
                let m = lm[j];
                if m.source_index == si && m.original_line == line && m.original_column <= column {
                    proof {
                        assert(gen_match(ls[g as int][j as int], si, line, column));
                        assert forall|g3: int, j3: int|
                            0 <= g3 < ls.len() && 0 <= j3 < ls[g3].len() && gen_match(#[trigger] ls[g3][j3], si, line, column)
                                && (forall|g2: int, j2: int|
                                0 <= g2 < ls.len() && 0 <= j2 < ls[g2].len() && (g2 < g3 || (g2 == g3 && j2 < j3))
                                    ==> !gen_match(#[trigger] ls[g2][j2], si, line, column)) implies g3 == g && j3 == j by {
                            if g3 > g || (g3 == g && j3 > j) {
                                assert(gen_match(ls[g as int][j as int], si, line, column));
                            }
                        }
                    }
                    return Some(GeneratedPosition { line: g as u32, column: m.generated_column });
                }
                j = j + 1;
            }
            g = g + 1;
        }
        None
    }

    /// Get the original source content for a source file
    pub fn source_content(&self, source_index: usize) -> (r: Option<&str>)
        ensures
            source_index >= self.sources_content@.len() ==> r is None,
            source_index < self.sources_content@.len() ==> match self.sources_content@[source_index as int] {
                Some(t) => r matches Some(x) && x@ == t@,
                None => r is None,
            },
    {
        if source_index >= self.sources_content.len() {
            return None;
        }
        match &self.sources_content[source_index] {
            Some(t) => Some(t.as_str()),
            None => None,
        }
    }
}

// ───────────────────────────── Finding a script's source map ─────────────────────────────

/// What a script's `//# sourceMappingURL=` comment points to.
#[derive(Debug, Clone, PartialEq, Eq)]
pub enum MapReference {
    /// The script names no source map.
    NoMap,
    /// The map is inlined as a base64 data URL.
    Inline,
    /// The map is in the file at this path, relative to the script's folder.
    External(String),
}

/// The text after `//# sourceMappingURL=` on the last line of `lines` that,
/// trimmed, begins with it.
pub open spec fn mapping_url(lines: Seq<Seq<char>>) -> Option<Seq<char>>
    decreases lines.len(),
{
    if lines.len() == 0 {
        None
    } else {
        let t = trimmed(lines.last());
        if starts_with(t, "//# sourceMappingURL="@) {
            Some(t.skip(21))
        } else {
            mapping_url(lines.drop_last())
        }
    }
}

/// What the script text `js` says of its source map: read from its last
/// line that, trimmed, begins `//# sourceMappingURL=`; a data URL is an
/// inline map, anything else the path of a map file, trimmed.
pub open spec fn map_reference_of(js: Seq<char>, r: MapReference) -> bool {
    match mapping_url(crate::text::lines_spec(js)) {
        None => r == MapReference::NoMap,
        Some(u) => if starts_with(u, "data:application/json;base64,"@) {
            r == MapReference::Inline
        } else {
            r matches MapReference::External(p) && p@ == trimmed(u)
        },
    }
}

/// Where a script's source map is, by its `//# sourceMappingURL=` comment.
pub fn source_map_reference(js: &str) -> (r: MapReference)
    ensures
        map_reference_of(js@, r),
{
    let lines = crate::text::split_lines(js);
    let ghost ls = crate::text::lines_spec(js@);
    let prefix = chars_of("//# sourceMappingURL=");
    let data = chars_of("data:application/json;base64,");
    proof {
        reveal_strlit("//# sourceMappingURL=");
    }
    let mut i: usize = lines.len();
    assert(ls.take(lines@.len() as int) =~= ls);
    while i > 0
        invariant
            i <= lines@.len(),
            prefix@.len() == 21,
            views_of(lines@) == ls,
            ls == crate::text::lines_spec(js@),
            prefix@ == "//# sourceMappingURL="@,
            data@ == "data:application/json;base64,"@,
            mapping_url(ls) == mapping_url(ls.take(i as int)),
        decreases i,
    {
        let t = trim_text(lines[i - 1].as_str());
        let tc = chars_of(t.as_str());
        proof {
            assert(ls.take(i as int).last() == lines@[i - 1]@);
            assert(ls.take(i as int).drop_last() =~= ls.take(i - 1));
            assert(tc@.skip(0) =~= tc@);
        }
        if has_prefix(&tc, 0, &prefix) {
            let mut url: Vec<char> = Vec::new();
            let mut k: usize = prefix.len();
            while k < tc.len()
                invariant
                    prefix@.len() <= k <= tc@.len(),
                    url@ == tc@.subrange(prefix@.len() as int, k as int),
                decreases tc.len() - k,
            {
                url.push(tc[k]);
                assert(url@ =~= tc@.subrange(prefix@.len() as int, k + 1));
                k = k + 1;
            }
            assert(url@ =~= tc@.skip(21));
            let us = string_from_chars(&url);
            assert(url@.skip(0) =~= url@);
            if has_prefix(&url, 0, &data) {
                return MapReference::Inline;
            } else {
                return MapReference::External(trim_text(us.as_str()));
            }
        }
        i = i - 1;
    }
    assert(ls.take(0) =~= Seq::<Seq<char>>::empty());
    MapReference::NoMap
}

// ───────────────────────────── The registry ─────────────────────────────

/// The source maps of generated files, by file name.
pub struct SourceMapRegistry {
    maps: StrMap<SourceMap>,
}

impl SourceMapRegistry {
    /// The registered maps, by file name.
    pub closed spec fn registered(&self) -> Map<Seq<char>, SourceMap> {
        str_entries(self.maps)
    }

    /// A registry with no map.
    pub fn new() -> (r: Self)
        ensures
            r.registered() == empty_entries::<SourceMap>(),
    {
        SourceMapRegistry { maps: str_map_new() }
    }

    /// Register the source map of a generated file, replacing one it had.
    pub fn register(&mut self, generated_file: String, map: SourceMap)
        ensures
            final(self).registered() == old(self).registered().insert(generated_file@, map),
    {
        str_map_insert(&mut self.maps, generated_file, map);
    }

    /// The source map of a file, if one is registered.
    pub fn get(&self, file: &str) -> (r: Option<&SourceMap>)
        ensures
            match r {
                Some(m) => self.registered().contains_key(file@) && self.registered()[file@] == *m,
                None => !self.registered().contains_key(file@),
            },
    {
        str_map_get(&self.maps, file)
    }

    /// The original position of a generated position, by the file's map;
    /// none for a file without one.
    pub fn original_position(&self, file: &str, line: u32, column: u32) -> (r: Option<OriginalPosition>)
        ensures
            !self.registered().contains_key(file@) ==> r is None,
            self.registered().contains_key(file@) ==> self.registered()[file@].position_answer(line, column, r),
    {
        match str_map_get(&self.maps, file) {
            Some(m) => m.original_position_for(line, column),
            None => None,
        }
    }
}

impl Default for SourceMapRegistry {
    fn default() -> (r: Self)
        ensures
            r.registered() == empty_entries::<SourceMap>(),
    {
        SourceMapRegistry::new()
    }
}

} // verus!
