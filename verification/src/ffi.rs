//! Foreign function interface: errors of calls across the boundary, and the
//! native bridge's types.
use vstd::prelude::*;
use crate::text::{push_str, string_of, chars_of, push_char};
use crate::diagnostics::{base64_char, base64_value, base64_encode_digit, base64_decode_char};

pub mod native_bridge;
pub mod marshal;

verus! {

/// An error of a call across the foreign function boundary.
#[derive(Debug, Clone, PartialEq, Eq)]
pub enum FfiError {
    TypeError(String),
    ConversionError(String),
    CallError(String),
    NotFound(String),
}

/// How an FFI error reads: its kind, a colon, and its message.
pub open spec fn ffi_error_text(e: FfiError) -> Seq<char> {
    match e {
        FfiError::TypeError(m) => "type error: "@ + m@,
        FfiError::ConversionError(m) => "conversion error: "@ + m@,
        FfiError::CallError(m) => "call error: "@ + m@,
        FfiError::NotFound(m) => "not found: "@ + m@,
    }
}

impl FfiError {
    /// The error's text, as it is shown to users.
    pub fn message(&self) -> (r: String)
        ensures
            r@ == ffi_error_text(*self),
    {
        match self {
            FfiError::TypeError(m) => {
                let mut s = string_of("type error: ");
                push_str(&mut s, m.as_str());
                s
            },
            FfiError::ConversionError(m) => {
                let mut s = string_of("conversion error: ");
                push_str(&mut s, m.as_str());
                s
            },
            FfiError::CallError(m) => {
                let mut s = string_of("call error: ");
                push_str(&mut s, m.as_str());
                s
            },
            FfiError::NotFound(m) => {
                let mut s = string_of("not found: ");
                push_str(&mut s, m.as_str());
                s
            },
        }
    }
}

// ───────────────────────────── Base64 ─────────────────────────────

/// The Base64 text of `data`: each group of three bytes becomes four
/// characters, and a last group of one or two bytes is padded with `=`.
pub open spec fn base64_text(data: Seq<u8>) -> Seq<char>
    decreases data.len(),
{
    if data.len() == 0 {
        seq![]
    } else {
        let b0 = data[0] as nat;
        let b1: nat = if data.len() > 1 { data[1] as nat } else { 0 };
        let b2: nat = if data.len() > 2 { data[2] as nat } else { 0 };
        seq![
            base64_char(b0 / 4),
            base64_char((b0 % 4) * 16 + b1 / 16),
            if data.len() > 1 { base64_char((b1 % 16) * 4 + b2 / 64) } else { '=' },
            if data.len() > 2 { base64_char(b2 % 64) } else { '=' },
        ] + if data.len() > 3 {
            base64_text(data.skip(3))
        } else {
            seq![]
        }
    }
}

/// Encode bytes as Base64 text.
pub fn base64_encode(data: &[u8]) -> (r: String)
    ensures
        r@ == base64_text(data@),
{
    let mut out = String::new();
    let n = data.len();
    let mut i: usize = 0;
    assert(data@.skip(0) =~= data@);
    while i < n
        invariant
            i <= n,
            n == data@.len(),
            out@ + base64_text(data@.skip(i as int)) == base64_text(data@),
        decreases n - i,
    {
        let ghost rest = data@.skip(i as int);
        let b0 = data[i];
        let b1: u8 = if n - i > 1 { data[i + 1] } else { 0 };
        let b2: u8 = if n - i > 2 { data[i + 2] } else { 0 };
        assert(rest[0] == b0);
        assert(n - i > 1 ==> rest[1] == b1);
        assert(n - i > 2 ==> rest[2] == b2);
        let ghost before = out@;
        push_char(&mut out, base64_encode_digit(b0 / 4));
        push_char(&mut out, base64_encode_digit((b0 % 4) * 16 + b1 / 16));
        if n - i > 1 {
            push_char(&mut out, base64_encode_digit((b1 % 16) * 4 + b2 / 64));
        } else {
            push_char(&mut out, '=');
        }
        if n - i > 2 {
            push_char(&mut out, base64_encode_digit(b2 % 64));
        } else {
            push_char(&mut out, '=');
        }
        let ghost group = out@.skip(before.len() as int);
        assert(out@ =~= before + group);
        if n - i > 3 {
            assert(rest.skip(3) =~= data@.skip(i + 3));
            assert(base64_text(rest) =~= group + base64_text(data@.skip(i + 3)));
            i = i + 3;
        } else {
            assert(base64_text(rest) =~= group);
            assert(data@.skip(n as int) =~= Seq::<u8>::empty());
            assert(out@ + base64_text(data@.skip(n as int)) =~= out@);
            i = n;
        }
    }
    assert(data@.skip(n as int) =~= Seq::<u8>::empty());
    assert(out@ + base64_text(data@.skip(n as int)) =~= out@);
    out
}

/// `s` without its trailing `=` characters.
pub open spec fn trim_padding(s: Seq<char>) -> Seq<char>
    decreases s.len(),
{
    if s.len() > 0 && s.last() == '=' {
        trim_padding(s.drop_last())
    } else {
        s
    }
}

/// `i` is the first character of `s` outside the Base64 alphabet.
pub open spec fn first_outside(s: Seq<char>, i: int) -> bool {
    &&& 0 <= i < s.len()
    &&& base64_value(s[i]) is None
    &&& forall|j: int| 0 <= j < i ==> (#[trigger] base64_value(s[j])) is Some
}

/// The character that the first UTF-8 byte of `c` stands for on its own.
pub open spec fn lead_byte_char(c: char) -> char {
    let n = c as u32;
    if n < 0x80 {
        c
    } else if n < 0x800 {
        ((0xC0 + n / 64) as u8) as char
    } else if n < 0x10000 {
        ((0xE0 + n / 4096) as u8) as char
    } else {
        ((0xF0 + n / 262144) as u8) as char
    }
}

/// The bytes that a sequence of sextets stands for: each group of four gives
/// three bytes, and a last group of one, two or three gives one, one or two.
pub open spec fn sextet_bytes(v: Seq<nat>) -> Seq<u8>
    decreases v.len(),
{
    if v.len() == 0 {
        seq![]
    } else {
        let x0 = v[0];
        let x1: nat = if v.len() > 1 { v[1] } else { 0 };
        let x2: nat = if v.len() > 2 { v[2] } else { 0 };
        let x3: nat = if v.len() > 3 { v[3] } else { 0 };
        let c0 = ((x0 * 4) % 256 + x1 / 16) as u8;
        let c1 = ((x1 * 16) % 256 + x2 / 4) as u8;
        let c2 = ((x2 * 64) % 256 + x3) as u8;
        (if v.len() > 3 {
            seq![c0, c1, c2]
        } else if v.len() > 2 {
            seq![c0, c1]
        } else {
            seq![c0]
        }) + if v.len() > 4 {
            sextet_bytes(v.skip(4))
        } else {
            seq![]
        }
    }
}

/// The sextets that the characters of `s` stand for.
pub open spec fn sextets(s: Seq<char>) -> Seq<nat> {
    s.map_values(|c: char|
        match base64_value(c) {
            Some(d) => d as nat,
            None => 0,
        })
}

/// What decoding Base64 text gives: the trailing `=` are dropped; the first
/// character outside the alphabet is an error naming it (by its first UTF-8
/// byte); otherwise the bytes of the sextets.
pub open spec fn base64_decoded(s: Seq<char>) -> Result<Seq<u8>, Seq<char>> {
    let t = trim_padding(s);
    if exists|i: int| first_outside(t, i) {
        let i = choose|i: int| first_outside(t, i);
        Err("invalid base64 character: "@ + seq![lead_byte_char(t[i])])
    } else {
        Ok(sextet_bytes(sextets(t)))
    }
}

/// Decode Base64 text.
pub fn base64_decode(data: &str) -> (r: Result<Vec<u8>, String>)
    ensures
        match base64_decoded(data@) {
            Ok(b) => r matches Ok(v) && v@ == b,
            Err(m) => r matches Err(e) && e@ == m,
        },
{
    let cs = chars_of(data);
    let mut n = cs.len();
    assert(cs@.take(n as int) =~= cs@);
    while n > 0 && cs[n - 1] == '='
        invariant
            n <= cs@.len(),
            cs@ == data@,
            trim_padding(cs@.take(n as int)) == trim_padding(data@),
        decreases n,
    {
        assert(cs@.take(n as int).drop_last() =~= cs@.take(n - 1));
        n = n - 1;
    }
    let ghost t = cs@.take(n as int);
    assert(trim_padding(t) == t);
    let mut vals: Vec<u8> = Vec::new();
    let mut i: usize = 0;
    while i < n
        invariant
            i <= n <= cs@.len(),
            t == cs@.take(n as int),
            trim_padding(data@) == t,
            vals@.len() == i,
            forall|j: int| 0 <= j < i ==> (#[trigger] base64_value(t[j])) is Some,
            forall|j: int| 0 <= j < i ==> vals@[j] as nat == #[trigger] sextets(t)[j],
            forall|j: int| 0 <= j < i ==> vals@[j] < 64,
        decreases n - i,
    {
        let c = cs[i];
        assert(t[i as int] == c);
        match base64_decode_char(c) {
            Some(d) => {
                vals.push(d);
            },
            None => {
                proof {
                    assert(first_outside(t, i as int));
                    let k = choose|k: int| first_outside(t, k);
                    assert(k == i as int) by {
                        if k < i {
                            assert(base64_value(t[k]) is Some);
                        } else if k > i {
                            assert(base64_value(t[i as int]) is Some);
                        }
                    }
                }
                let mut e = string_of("invalid base64 character: ");
                let code = c as u32;
                let shown: char = if code < 0x80 {
                    c
                } else if code < 0x800 {
                    (0xC0 + code / 64) as u8 as char
                } else if code < 0x10000 {
                    (0xE0 + code / 4096) as u8 as char
                } else {
                    (0xF0 + code / 262144) as u8 as char
                };
                assert(shown == lead_byte_char(c));
                push_char(&mut e, shown);
                assert(e@ =~= "invalid base64 character: "@ + seq![lead_byte_char(t[i as int])]);
                return Err(e);
            },
        }
        i = i + 1;
    }
    assert(!exists|k: int| first_outside(t, k));
    assert(vals@.map_values(|x: u8| x as nat) =~= sextets(t));
    let ghost v = sextets(t);
    let mut out: Vec<u8> = Vec::new();
    let mut k: usize = 0;
    assert(v.skip(0) =~= v);
    while k < n
        invariant
            k <= n,
            n == vals@.len(),
            v.len() == n,
            forall|j: int| 0 <= j < n ==> vals@[j] as nat == #[trigger] v[j],
            forall|j: int| 0 <= j < n ==> vals@[j] < 64,
            out@ + sextet_bytes(v.skip(k as int)) == sextet_bytes(v),
        decreases n - k,
    {
        let ghost rest = v.skip(k as int);
        let x0 = vals[k] as u32;
        let x1: u32 = if n - k > 1 { vals[k + 1] as u32 } else { 0 };
        let x2: u32 = if n - k > 2 { vals[k + 2] as u32 } else { 0 };
        let x3: u32 = if n - k > 3 { vals[k + 3] as u32 } else { 0 };
        assert(rest[0] == x0);
        assert(n - k > 1 ==> rest[1] == x1);
        assert(n - k > 2 ==> rest[2] == x2);
        assert(n - k > 3 ==> rest[3] == x3);
        let c0 = ((x0 * 4) % 256 + x1 / 16) as u8;
        let c1 = ((x1 * 16) % 256 + x2 / 4) as u8;
        let c2 = ((x2 * 64) % 256 + x3) as u8;
        let ghost before = out@;
        out.push(c0);
        if n - k > 2 {
            out.push(c1);
        }
        if n - k > 3 {
            out.push(c2);
        }
        let ghost group = out@.skip(before.len() as int);
        assert(out@ =~= before + group);
        if n - k > 4 {
            assert(rest.skip(4) =~= v.skip(k + 4));
            assert(sextet_bytes(rest) =~= group + sextet_bytes(v.skip(k + 4)));
            k = k + 4;
        } else {
            assert(sextet_bytes(rest) =~= group);
            assert(v.skip(n as int) =~= Seq::<nat>::empty());
            assert(out@ + sextet_bytes(v.skip(n as int)) =~= out@);
            k = n;
        }
    }
    assert(v.skip(n as int) =~= Seq::<nat>::empty());
    assert(out@ + sextet_bytes(v.skip(n as int)) =~= out@);
    assert(trim_padding(data@) == t);
    assert(base64_decoded(data@) == Ok::<Seq<u8>, Seq<char>>(out@));
    Ok(out)
}

/// The sextets that one group of up to three bytes is written as, before
/// padding: two for one byte, three for two, four for three.
pub open spec fn group_sextets(b: Seq<u8>) -> Seq<nat> {
    let b0 = b[0] as nat;
    let b1: nat = if b.len() > 1 { b[1] as nat } else { 0 };
    let b2: nat = if b.len() > 2 { b[2] as nat } else { 0 };
    let full = seq![b0 / 4, (b0 % 4) * 16 + b1 / 16, (b1 % 16) * 4 + b2 / 64, b2 % 64];
    full.take(b.len() as int + 1)
}

proof fn lemma_no_pad_char(d: nat)
    requires
        d < 64,
    ensures
        base64_char(d) != '=',
        base64_value(base64_char(d)) == Some(d as u8),
{
    crate::diagnostics::lemma_base64_value_of_char(d);
}

proof fn lemma_trim_append(a: Seq<char>, b: Seq<char>, i: int)
    requires
        0 <= i < b.len(),
        b[i] != '=',
    ensures
        trim_padding(a + b) == a + trim_padding(b),
    decreases b.len(),
{
    if b.last() == '=' {
        assert((a + b).last() == '=');
        assert((a + b).drop_last() =~= a + b.drop_last());
        lemma_trim_append(a, b.drop_last(), i);
    } else {
        assert((a + b).last() == b.last());
    }
}

/// The bytes a group's sextets decode to are the group's bytes.
proof fn lemma_group_roundtrip(b: Seq<u8>)
    requires
        1 <= b.len() <= 3,
    ensures
        sextet_bytes(group_sextets(b)) == b,
{
    let g = group_sextets(b);
    let b0 = b[0] as nat;
    let b1: nat = if b.len() > 1 { b[1] as nat } else { 0 };
    let b2: nat = if b.len() > 2 { b[2] as nat } else { 0 };
    assert(((b0 / 4) * 4) % 256 + ((b0 % 4) * 16 + b1 / 16) / 16 == b0) by (nonlinear_arith)
        requires b0 < 256, b1 < 256;
    assert((((b0 % 4) * 16 + b1 / 16) * 16) % 256 + ((b1 % 16) * 4 + b2 / 64) / 4 == b1) by (nonlinear_arith)
        requires b0 < 256, b1 < 256, b2 < 256;
    assert((((b1 % 16) * 4 + b2 / 64) * 64) % 256 + b2 % 64 == b2) by (nonlinear_arith)
        requires b1 < 256, b2 < 256;
    assert(sextet_bytes(g) =~= b);
}


/// The characters a group of up to three bytes is written as, before padding.
pub open spec fn group_chars(b: Seq<u8>) -> Seq<char> {
    group_sextets(b).map_values(|d: nat| base64_char(d))
}

/// The first group of the Base64 text of `data`: its characters stand for
/// sextets that decode to the group's bytes, and the text goes on with the
/// rest of the bytes, or ends in padding.
#[verifier::rlimit(40)]
proof fn lemma_first_group(data: Seq<u8>)
    requires
        data.len() >= 1,
    ensures
        ({
            let grp = data.take(if data.len() > 3 { 3 } else { data.len() as int });
            let chars = group_chars(grp);
            &&& chars.len() >= 2
            &&& forall|k: int| 0 <= k < chars.len() ==> (#[trigger] base64_value(chars[k])) is Some && chars[k] != '='
            &&& sextets(chars) == group_sextets(grp)
            &&& sextet_bytes(group_sextets(grp)) == grp
            &&& data.len() > 3 ==> base64_text(data) == chars + base64_text(data.skip(3))
            &&& data.len() <= 3 ==> trim_padding(base64_text(data)) == chars
        }),
{
    let n = if data.len() > 3 { 3 } else { data.len() as int };
    let grp = data.take(n);
    let gs = group_sextets(grp);
    let chars = group_chars(grp);
    let b0 = data[0] as nat;
    let b1: nat = if data.len() > 1 { data[1] as nat } else { 0 };
    let b2: nat = if data.len() > 2 { data[2] as nat } else { 0 };
    assert(grp[0] == data[0]);
    assert(grp.len() > 1 ==> grp[1] == data[1]);
    assert(grp.len() > 2 ==> grp[2] == data[2]);
    assert(b0 / 4 < 64 && (b0 % 4) * 16 + b1 / 16 < 64 && (b1 % 16) * 4 + b2 / 64 < 64 && b2 % 64 < 64) by (nonlinear_arith)
        requires
            b0 < 256,
            b1 < 256,
            b2 < 256,
    ;
    lemma_no_pad_char(b0 / 4);
    lemma_no_pad_char((b0 % 4) * 16 + b1 / 16);
    lemma_no_pad_char((b1 % 16) * 4 + b2 / 64);
    lemma_no_pad_char(b2 % 64);
    lemma_group_roundtrip(grp);
    let all = seq![
        base64_char(b0 / 4),
        base64_char((b0 % 4) * 16 + b1 / 16),
        base64_char((b1 % 16) * 4 + b2 / 64),
        base64_char(b2 % 64),
    ];
    assert(chars =~= all.take(grp.len() as int + 1));
    assert forall|k: int| 0 <= k < chars.len() implies (#[trigger] base64_value(chars[k])) is Some && chars[k] != '=' by {
        assert(chars[k] == all[k]);
    }
    assert(sextets(chars) =~= gs);
    let t = base64_text(data);
    if data.len() > 3 {
        assert(t =~= chars + base64_text(data.skip(3)));
    } else if data.len() == 3 {
        assert(t =~= chars);
        assert(chars.last() != '=');
    } else if data.len() == 2 {
        assert(t.drop_last() =~= chars);
        assert(t.last() == '=');
        assert(chars.last() != '=');
        assert(trim_padding(t) == trim_padding(t.drop_last()));
    } else {
        assert(t.drop_last().drop_last() =~= chars);
        assert(t.last() == '=');
        assert(t.drop_last().last() == '=');
        assert(chars.last() != '=');
        assert(trim_padding(t) == trim_padding(t.drop_last()));
        assert(trim_padding(t.drop_last()) == trim_padding(t.drop_last().drop_last()));
    }
    assert(chars.len() >= 2);
    assert(sextet_bytes(gs) == grp);
    assert(data.len() <= 3 ==> trim_padding(t) == chars);
}

/// The Base64 text of bytes, without its padding, holds only the alphabet's
/// characters, and their sextets decode to the bytes.
#[verifier::rlimit(40)]
proof fn lemma_base64_body(data: Seq<u8>)
    ensures
        forall|i: int| 0 <= i < trim_padding(base64_text(data)).len() ==> (#[trigger] base64_value(
            trim_padding(base64_text(data))[i],
        )) is Some,
        sextet_bytes(sextets(trim_padding(base64_text(data)))) == data,
        data.len() > 0 ==> trim_padding(base64_text(data)).len() > 0,
    decreases data.len(),
{
    let t = base64_text(data);
    if data.len() == 0 {
        assert(t =~= Seq::<char>::empty());
        assert(sextets(t) =~= Seq::<nat>::empty());
    } else {
        lemma_first_group(data);
        let n = if data.len() > 3 { 3 } else { data.len() as int };
        let grp = data.take(n);
        let chars = group_chars(grp);
        let gs = group_sextets(grp);
        if data.len() > 3 {
            let rest = data.skip(3);
            lemma_base64_body(rest);
            lemma_first_group(rest);
            let rt = base64_text(rest);
            let rgrp = rest.take(if rest.len() > 3 { 3 } else { rest.len() as int });
            assert(rt[0] == group_chars(rgrp)[0]) by {
                if rest.len() > 3 {
                    assert((group_chars(rgrp) + base64_text(rest.skip(3)))[0] == group_chars(rgrp)[0]);
                } else {
                    lemma_trim_prefix(rt);
                }
            }
            lemma_trim_append(chars, rt, 0);
            let tr = trim_padding(rt);
            assert forall|i: int| 0 <= i < (chars + tr).len() implies (#[trigger] base64_value((chars + tr)[i])) is Some by {
                if i >= chars.len() {
                    assert((chars + tr)[i] == tr[i - chars.len()]);
                } else {
                    assert((chars + tr)[i] == chars[i]);
                }
            }
            let st = sextets(tr);
            assert(sextets(chars + tr) =~= gs + st);
            assert((gs + st).skip(4) =~= st);
            assert(sextet_bytes(gs + st) == sextet_bytes(gs) + sextet_bytes(st));
            assert(grp + rest =~= data);
        }
    }
}

/// Trimming the padding keeps the beginning of a text.
proof fn lemma_trim_prefix(s: Seq<char>)
    ensures
        trim_padding(s).len() <= s.len(),
        forall|i: int| 0 <= i < trim_padding(s).len() ==> #[trigger] trim_padding(s)[i] == s[i],
    decreases s.len(),
{
    if s.len() > 0 && s.last() == '=' {
        lemma_trim_prefix(s.drop_last());
    }
}

/// Decoding the Base64 text of any bytes gives the bytes back.
pub proof fn lemma_base64_roundtrip(data: Seq<u8>)
    ensures
        base64_decoded(base64_text(data)) == Ok::<Seq<u8>, Seq<char>>(data),
{
    lemma_base64_body(data);
    let t = trim_padding(base64_text(data));
    assert(!exists|i: int| first_outside(t, i));
}

proof fn lemma_first_outside_exists(t: Seq<char>, i: int)
    requires
        0 <= i < t.len(),
        base64_value(t[i]) is None,
    ensures
        exists|k: int| first_outside(t, k),
    decreases i,
{
    if exists|j: int| 0 <= j < i && (#[trigger] base64_value(t[j])) is None {
        let j = choose|j: int| 0 <= j < i && (#[trigger] base64_value(t[j])) is None;
        lemma_first_outside_exists(t, j);
    } else {
        assert(first_outside(t, i));
    }
}

/// Base64 text whose unpadded part holds a character outside the alphabet
/// is refused.
pub proof fn lemma_base64_refuses(s: Seq<char>, i: int)
    requires
        0 <= i < trim_padding(s).len(),
        base64_value(trim_padding(s)[i]) is None,
    ensures
        base64_decoded(s) is Err,
{
    lemma_first_outside_exists(trim_padding(s), i);
}

} // verus!
