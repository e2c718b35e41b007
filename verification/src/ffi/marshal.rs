//! Conversion of values between JSON and the native side of a call.
//!
//! A JSON value is converted to a native value of a given type target by
//! target; a native value is converted back to JSON.  What `serde_json`
//! reads out of a number's text is held in a [`NumberReading`].
use vstd::prelude::*;
use crate::error::Error;
use crate::json::{
    JsonValue, JsonModel, json_models_of, json_member_models_of, lemma_json_models_index,
    lemma_json_member_models_index, number_i64_of, number_truncated_of, number_bits_of,
    number_double_json_of, number_single_json_of, number_as_i64, number_truncated, number_bits,
    number_double_json, number_single_json,
};
use crate::ffi::native_bridge::{NativeType, NativeValue, TypeMarshaler};
use crate::text::{push_str, string_of, push_decimal, decimal, decimal_string, chars_of, str_eq};

verus! {

/// The model of a [`NativeValue`]: texts become character sequences.
pub enum NativeModel {
    Void,
    Bool(bool),
    Int8(i8),
    Uint8(u8),
    Int16(i16),
    Uint16(u16),
    Int32(i32),
    Uint32(u32),
    Int64(i64),
    Uint64(u64),
    Float32(Seq<char>),
    Float64(Seq<char>),
    Str(Seq<char>),
    Pointer(usize),
    Struct(Seq<(Seq<char>, NativeModel)>),
    Array(Seq<NativeModel>),
    Null,
}

/// Models of a sequence of native values, value by value.
pub open spec fn native_models_of(s: Seq<NativeValue>) -> Seq<NativeModel>
    decreases s,
{
    if s.len() == 0 {
        Seq::empty()
    } else {
        native_models_of(s.subrange(0, s.len() - 1)).push(s[s.len() - 1].model())
    }
}

/// Models of the named fields of a struct value, field by field.
pub open spec fn native_field_models_of(s: Seq<(String, NativeValue)>) -> Seq<(Seq<char>, NativeModel)>
    decreases s,
{
    if s.len() == 0 {
        Seq::empty()
    } else {
        native_field_models_of(s.subrange(0, s.len() - 1)).push((s[s.len() - 1].0@, s[s.len() - 1].1.model()))
    }
}

impl NativeValue {
    pub open spec fn model(self) -> NativeModel
        decreases self,
    {
        match self {
            NativeValue::Void => NativeModel::Void,
            NativeValue::Bool(b) => NativeModel::Bool(b),
            NativeValue::Int8(v) => NativeModel::Int8(v),
            NativeValue::Uint8(v) => NativeModel::Uint8(v),
            NativeValue::Int16(v) => NativeModel::Int16(v),
            NativeValue::Uint16(v) => NativeModel::Uint16(v),
            NativeValue::Int32(v) => NativeModel::Int32(v),
            NativeValue::Uint32(v) => NativeModel::Uint32(v),
            NativeValue::Int64(v) => NativeModel::Int64(v),
            NativeValue::Uint64(v) => NativeModel::Uint64(v),
            NativeValue::Float32(t) => NativeModel::Float32(t@),
            NativeValue::Float64(t) => NativeModel::Float64(t@),
            NativeValue::String(s) => NativeModel::Str(s@),
            NativeValue::Pointer(a) => NativeModel::Pointer(a),
            NativeValue::Struct(fs) => NativeModel::Struct(native_field_models_of(fs@)),
            NativeValue::Array(xs) => NativeModel::Array(native_models_of(xs@)),
            NativeValue::Null => NativeModel::Null,
        }
    }
}

impl View for NativeValue {
    type V = NativeModel;

    open spec fn view(&self) -> NativeModel {
        self.model()
    }
}

/// What `serde_json` reads out of the text of a JSON number: the readings
/// that the conversion to a native value uses.
pub struct NumberReading {
    /// `Number::as_i64`.
    pub as_i64: Option<i64>,
    /// `Number::as_f64`, cast to `i64`.
    pub truncated: Option<i64>,
    /// The bit pattern of `Number::as_f64`.
    pub bits: Option<u64>,
    /// The JSON text of the double.
    pub double_json: Option<String>,
    /// The JSON text of the double narrowed to single precision.
    pub single_json: Option<String>,
}

/// The model of a [`NumberReading`]: texts become character sequences.
pub struct ReadingModel {
    pub as_i64: Option<i64>,
    pub truncated: Option<i64>,
    pub bits: Option<u64>,
    pub double_json: Option<Seq<char>>,
    pub single_json: Option<Seq<char>>,
}

/// The characters of an optional text.
pub open spec fn opt_text(o: Option<String>) -> Option<Seq<char>> {
    match o {
        Some(t) => Some(t@),
        None => None,
    }
}

impl View for NumberReading {
    type V = ReadingModel;

    open spec fn view(&self) -> ReadingModel {
        ReadingModel {
            as_i64: self.as_i64,
            truncated: self.truncated,
            bits: self.bits,
            double_json: opt_text(self.double_json),
            single_json: opt_text(self.single_json),
        }
    }
}

/// What `serde_json` reads out of the number written `text`.
pub open spec fn reading_of(text: Seq<char>) -> ReadingModel {
    ReadingModel {
        as_i64: number_i64_of(text),
        truncated: number_truncated_of(text),
        bits: number_bits_of(text),
        double_json: number_double_json_of(text),
        single_json: number_single_json_of(text),
    }
}

/// The targets that a JSON number converts to through its reading.
pub open spec fn is_number_target(t: NativeType) -> bool {
    match t {
        NativeType::Bool | NativeType::Int8 | NativeType::Uint8 | NativeType::Int16 | NativeType::Uint16
        | NativeType::Int32 | NativeType::Uint32 | NativeType::Int64 | NativeType::Uint64
        | NativeType::Float32 | NativeType::Float64 => true,
        _ => false,
    }
}

/// How a numeric target is named in messages: Rust's name of its type.
pub open spec fn number_word(t: NativeType) -> Seq<char> {
    match t {
        NativeType::Int8 => "i8"@,
        NativeType::Uint8 => "u8"@,
        NativeType::Int16 => "i16"@,
        NativeType::Uint16 => "u16"@,
        NativeType::Int32 => "i32"@,
        NativeType::Uint32 => "u32"@,
        NativeType::Int64 => "i64"@,
        NativeType::Uint64 => "u64"@,
        NativeType::Float32 => "f32"@,
        NativeType::Float64 => "f64"@,
        _ => "bool"@,
    }
}

/// The integer a reading gives: `as_i64`, or else the truncated double.
pub open spec fn int_reading(r: ReadingModel) -> Option<i64> {
    if r.as_i64 is Some {
        r.as_i64
    } else {
        r.truncated
    }
}

/// The integer `n` cast (truncating) to an integer target.
pub open spec fn int_native(n: i64, t: NativeType) -> NativeModel {
    match t {
        NativeType::Int8 => NativeModel::Int8(n as i8),
        NativeType::Uint8 => NativeModel::Uint8(n as u8),
        NativeType::Int16 => NativeModel::Int16(n as i16),
        NativeType::Uint16 => NativeModel::Uint16(n as u16),
        NativeType::Int32 => NativeModel::Int32(n as i32),
        NativeType::Uint32 => NativeModel::Uint32(n as u32),
        NativeType::Int64 => NativeModel::Int64(n),
        _ => NativeModel::Uint64(n as u64),
    }
}

/// A JSON number with reading `r` converted to the numeric target `t`: a
/// boolean is whether the double is other than zero (false where there is
/// none); an integer comes from [`int_reading`], cast; a float is its JSON
/// text.  Where the reading lacks what the target needs, the error names
/// the target.
pub open spec fn number_in(r: ReadingModel, t: NativeType) -> Result<NativeModel, Seq<char>> {
    match t {
        NativeType::Bool => Ok(
            NativeModel::Bool(
                match r.bits {
                    Some(b) => b & 0x7fff_ffff_ffff_ffffu64 != 0,
                    None => false,
                },
            ),
        ),
        NativeType::Float32 => match r.single_json {
            Some(s) => Ok(NativeModel::Float32(s)),
            None => Err("cannot convert to "@ + number_word(t)),
        },
        NativeType::Float64 => match r.double_json {
            Some(s) => Ok(NativeModel::Float64(s)),
            None => Err("cannot convert to "@ + number_word(t)),
        },
        _ => match int_reading(r) {
            Some(n) => Ok(int_native(n, t)),
            None => Err("cannot convert to "@ + number_word(t)),
        },
    }
}

/// An integer that fits the integer target is carried unchanged: a JSON
/// number whose reading gives `n` becomes the native integer of value `n`,
/// whatever its width and sign, wherever `n` lies in the target's range.
pub proof fn lemma_integer_in_range_kept(r: ReadingModel, n: i64)
    requires
        int_reading(r) == Some(n),
    ensures
        -128 <= n <= 127 ==> (number_in(r, NativeType::Int8) matches Ok(NativeModel::Int8(v)) && v as int == n as int),
        0 <= n <= 255 ==> (number_in(r, NativeType::Uint8) matches Ok(NativeModel::Uint8(v)) && v as int == n as int),
        -32768 <= n <= 32767 ==> (number_in(r, NativeType::Int16) matches Ok(NativeModel::Int16(v)) && v as int == n as int),
        0 <= n <= 65535 ==> (number_in(r, NativeType::Uint16) matches Ok(NativeModel::Uint16(v)) && v as int == n as int),
        -2147483648 <= n <= 2147483647 ==> (number_in(r, NativeType::Int32) matches Ok(NativeModel::Int32(v)) && v as int
            == n as int),
        0 <= n <= 4294967295 ==> (number_in(r, NativeType::Uint32) matches Ok(NativeModel::Uint32(v)) && v as int
            == n as int),
        number_in(r, NativeType::Int64) matches Ok(NativeModel::Int64(v)) && v as int == n as int,
        0 <= n ==> (number_in(r, NativeType::Uint64) matches Ok(NativeModel::Uint64(v)) && v as int == n as int),
{
}

/// An integer outside the target's range wraps around: the native integer
/// differs from `n` by a whole number of turns of the target's width.
pub proof fn lemma_integer_wraps(r: ReadingModel, n: i64)
    requires
        int_reading(r) == Some(n),
    ensures
        number_in(r, NativeType::Uint8) matches Ok(NativeModel::Uint8(v)) && (n as int - v as int) % 256 == 0,
        number_in(r, NativeType::Int8) matches Ok(NativeModel::Int8(v)) && (n as int - v as int) % 256 == 0,
        number_in(r, NativeType::Uint16) matches Ok(NativeModel::Uint16(v)) && (n as int - v as int) % 65536 == 0,
        number_in(r, NativeType::Int16) matches Ok(NativeModel::Int16(v)) && (n as int - v as int) % 65536 == 0,
        number_in(r, NativeType::Uint32) matches Ok(NativeModel::Uint32(v)) && (n as int - v as int) % 4294967296 == 0,
        number_in(r, NativeType::Int32) matches Ok(NativeModel::Int32(v)) && (n as int - v as int) % 4294967296 == 0,
        number_in(r, NativeType::Uint64) matches Ok(NativeModel::Uint64(v)) && (n as int - v as int)
            % 18446744073709551616 == 0,
{
    assert((n as int - (n as u8) as int) % 256 == 0) by (bit_vector);
    assert((n as int - (n as i8) as int) % 256 == 0) by (bit_vector);
    assert((n as int - (n as u16) as int) % 65536 == 0) by (bit_vector);
    assert((n as int - (n as i16) as int) % 65536 == 0) by (bit_vector);
    assert((n as int - (n as u32) as int) % 4294967296 == 0) by (bit_vector);
    assert((n as int - (n as i32) as int) % 4294967296 == 0) by (bit_vector);
    assert((n as int - (n as u64) as int) % 18446744073709551616 == 0) by (bit_vector);
}

/// The address a JSON number gives a pointer: its `u64` value, or 0 where it
/// has none, cast to `usize`.
pub open spec fn address_of(n: Option<u64>) -> usize {
    match n {
        Some(a) => a as usize,
        None => 0,
    }
}

/// A JSON value converted to the native type `t`, or the message of the
/// error.  A struct takes each field, in the order of its type, from the
/// member of the same name (null where there is none); an array must have
/// the length of its type; the first field or item that fails gives the
/// error.
pub open spec fn marshal_in(v: JsonValue, t: NativeType) -> Result<NativeModel, Seq<char>>
    decreases t, 0nat,
{
    match t {
        NativeType::Void => Ok(NativeModel::Void),
        NativeType::Bool => match v {
            JsonValue::Bool(b) => Ok(NativeModel::Bool(b)),
            JsonValue::Number(_, text) => number_in(reading_of(text@), t),
            _ => Err("expected boolean"@),
        },
        NativeType::CString => match v {
            JsonValue::String(s) => Ok(NativeModel::Str(s@)),
            _ => Err("expected string"@),
        },
        NativeType::Pointer(_) => match v {
            JsonValue::Number(n, _) => Ok(NativeModel::Pointer(address_of(n))),
            JsonValue::Null => Ok(NativeModel::Null),
            _ => Err("expected pointer (number or null)"@),
        },
        NativeType::FunctionPointer(_) => match v {
            JsonValue::Number(n, _) => Ok(NativeModel::Pointer(address_of(n))),
            _ => Err("expected function pointer address"@),
        },
        NativeType::Struct(fields) => match v {
            JsonValue::Object(_) => match marshal_fields(v, fields@) {
                Ok(fs) => Ok(NativeModel::Struct(fs)),
                Err(e) => Err(e),
            },
            _ => Err("expected object for struct"@),
        },
        NativeType::Array(elem, len) => match v {
            JsonValue::Array(items) => if items@.len() != len {
                Err("expected array of length "@ + decimal(len as nat) + ", got "@ + decimal(items@.len()))
            } else {
                match marshal_items(items@, *elem) {
                    Ok(xs) => Ok(NativeModel::Array(xs)),
                    Err(e) => Err(e),
                }
            },
            _ => Err("expected array"@),
        },
        _ => match v {
            JsonValue::Number(_, text) => number_in(reading_of(text@), t),
            _ => Err("expected number for "@ + number_word(t)),
        },
    }
}

/// The fields `fs` of a struct type taken from the object `obj`, in order,
/// up to the first that fails.
pub open spec fn marshal_fields(obj: JsonValue, fs: Seq<(String, NativeType)>) -> Result<
    Seq<(Seq<char>, NativeModel)>,
    Seq<char>,
>
    decreases fs, 0nat,
{
    if fs.len() == 0 {
        Ok(Seq::empty())
    } else {
        match marshal_fields(obj, fs.subrange(0, fs.len() - 1)) {
            Err(e) => Err(e),
            Ok(prefix) => {
                let f = fs[fs.len() - 1];
                let fv = match obj.get_spec(f.0@) {
                    Some(x) => x,
                    None => JsonValue::Null,
                };
                match marshal_in(fv, f.1) {
                    Err(e) => Err(e),
                    Ok(m) => Ok(prefix.push((f.0@, m))),
                }
            },
        }
    }
}

/// The items of an array converted to the element type `t`, in order, up
/// to the first that fails.
pub open spec fn marshal_items(items: Seq<JsonValue>, t: NativeType) -> Result<Seq<NativeModel>, Seq<char>>
    decreases t, items.len(),
{
    if items.len() == 0 {
        Ok(Seq::empty())
    } else {
        match marshal_items(items.subrange(0, items.len() - 1), t) {
            Err(e) => Err(e),
            Ok(prefix) => match marshal_in(items[items.len() - 1], t) {
                Err(e) => Err(e),
                Ok(m) => Ok(prefix.push(m)),
            },
        }
    }
}

/// An integer as `serde_json` holds it: with its `u64` value where it is
/// not negative, and its decimal text.
pub open spec fn int_json(v: int) -> JsonModel {
    if v >= 0 {
        JsonModel::Number(Some(v as u64), decimal(v as nat))
    } else {
        JsonModel::Number(None, "-"@ + decimal((-v) as nat))
    }
}

/// A float held by its JSON text, as a JSON value.
pub open spec fn float_json(t: Seq<char>) -> JsonModel {
    if t == "null"@ {
        JsonModel::Null
    } else {
        JsonModel::Number(None, t)
    }
}

/// Whether `a` sorts before `b`, character by character.
pub open spec fn text_less(a: Seq<char>, b: Seq<char>) -> bool
    decreases a.len(),
{
    if a.len() == 0 {
        b.len() > 0
    } else if b.len() == 0 {
        false
    } else if a[0] != b[0] {
        (a[0] as u32) < (b[0] as u32)
    } else {
        text_less(a.drop_first(), b.drop_first())
    }
}

/// The members `m` with `(k, x)` put in: in place of a member named `k`
/// that comes before any name sorting after `k`, or else before the first
/// name that neither is `k` nor sorts before it.
pub open spec fn put_member(m: Seq<(Seq<char>, JsonModel)>, k: Seq<char>, x: JsonModel) -> Seq<(Seq<char>, JsonModel)>
    decreases m.len(),
{
    if m.len() == 0 {
        seq![(k, x)]
    } else if m[0].0 == k {
        seq![(k, x)] + m.drop_first()
    } else if text_less(m[0].0, k) {
        seq![m[0]] + put_member(m.drop_first(), k, x)
    } else {
        seq![(k, x)] + m
    }
}

/// A native value converted to JSON: void and null become null, integers
/// and pointers numbers, a float its JSON text, a struct an object whose
/// members are its fields in name order (a later field of a name in place
/// of an earlier), an array an array.
pub open spec fn marshal_out(v: NativeValue) -> JsonModel
    decreases v, 0nat,
{
    match v {
        NativeValue::Void => JsonModel::Null,
        NativeValue::Bool(b) => JsonModel::Bool(b),
        NativeValue::Int8(x) => int_json(x as int),
        NativeValue::Uint8(x) => int_json(x as int),
        NativeValue::Int16(x) => int_json(x as int),
        NativeValue::Uint16(x) => int_json(x as int),
        NativeValue::Int32(x) => int_json(x as int),
        NativeValue::Uint32(x) => int_json(x as int),
        NativeValue::Int64(x) => int_json(x as int),
        NativeValue::Uint64(x) => int_json(x as int),
        NativeValue::Float32(t) => float_json(t@),
        NativeValue::Float64(t) => float_json(t@),
        NativeValue::String(s) => JsonModel::Str(s@),
        NativeValue::Pointer(a) => int_json(a as int),
        NativeValue::Struct(fs) => JsonModel::Object(object_out(fs@)),
        NativeValue::Array(xs) => JsonModel::Array(items_out(xs@)),
        NativeValue::Null => JsonModel::Null,
    }
}

/// The members of the object made of struct fields `fs`.
pub open spec fn object_out(fs: Seq<(String, NativeValue)>) -> Seq<(Seq<char>, JsonModel)>
    decreases fs, 0nat,
{
    if fs.len() == 0 {
        Seq::empty()
    } else {
        put_member(object_out(fs.subrange(0, fs.len() - 1)), fs[fs.len() - 1].0@, marshal_out(fs[fs.len() - 1].1))
    }
}

/// The JSON items of native array items `xs`.
pub open spec fn items_out(xs: Seq<NativeValue>) -> Seq<JsonModel>
    decreases xs, 0nat,
{
    if xs.len() == 0 {
        Seq::empty()
    } else {
        items_out(xs.subrange(0, xs.len() - 1)).push(marshal_out(xs[xs.len() - 1]))
    }
}

/// Appending a value appends its model.
pub proof fn lemma_native_models_push(s: Seq<NativeValue>, v: NativeValue)
    ensures
        native_models_of(s.push(v)) == native_models_of(s).push(v.model()),
{
    assert(s.push(v).subrange(0, s.len() as int) =~= s);
}

/// Appending a field appends its model.
pub proof fn lemma_native_field_models_push(s: Seq<(String, NativeValue)>, p: (String, NativeValue))
    ensures
        native_field_models_of(s.push(p)) == native_field_models_of(s).push((p.0@, p.1.model())),
{
    assert(s.push(p).subrange(0, s.len() as int) =~= s);
}

/// Once the first `k` fields fail, all of them fail with that error.
proof fn lemma_fields_err(obj: JsonValue, fs: Seq<(String, NativeType)>, k: int)
    requires
        0 <= k <= fs.len(),
        marshal_fields(obj, fs.subrange(0, k)) is Err,
    ensures
        marshal_fields(obj, fs) == marshal_fields(obj, fs.subrange(0, k)),
    decreases fs.len(),
{
    if k == fs.len() {
        assert(fs.subrange(0, k) =~= fs);
    } else {
        let p = fs.subrange(0, fs.len() - 1);
        assert(p.subrange(0, k) =~= fs.subrange(0, k));
        lemma_fields_err(obj, p, k);
    }
}

/// Once the first `k` items fail, all of them fail with that error.
proof fn lemma_items_err(items: Seq<JsonValue>, t: NativeType, k: int)
    requires
        0 <= k <= items.len(),
        marshal_items(items.subrange(0, k), t) is Err,
    ensures
        marshal_items(items, t) == marshal_items(items.subrange(0, k), t),
    decreases items.len(),
{
    if k == items.len() {
        assert(items.subrange(0, k) =~= items);
    } else {
        let p = items.subrange(0, items.len() - 1);
        assert(p.subrange(0, k) =~= items.subrange(0, k));
        lemma_items_err(p, t, k);
    }
}

/// Whether a member name `n` is not `k` and sorts before it.
pub open spec fn sorts_before_key(n: Seq<char>, k: Seq<char>) -> bool {
    n != k && text_less(n, k)
}

/// Where every one of the first `i` names is not `k` and sorts before it,
/// and the name at `i` (if any) is `k` or does not sort before it,
/// [`put_member`] puts `(k, x)` at `i`.
proof fn lemma_put_member_at(m: Seq<(Seq<char>, JsonModel)>, k: Seq<char>, x: JsonModel, i: int)
    requires
        0 <= i <= m.len(),
        forall|j: int| 0 <= j < i ==> #[trigger] sorts_before_key(m[j].0, k),
        i < m.len() ==> !sorts_before_key(m[i].0, k),
    ensures
        put_member(m, k, x) == if i == m.len() {
            m.push((k, x))
        } else if m[i].0 == k {
            m.update(i, (k, x))
        } else {
            m.insert(i, (k, x))
        },
    decreases i,
{
    if i == 0 {
        if m.len() == 0 {
            assert(m.push((k, x)) =~= seq![(k, x)]);
        } else if m[0].0 == k {
            assert(m.update(0, (k, x)) =~= seq![(k, x)] + m.drop_first());
        } else {
            assert(m.insert(0, (k, x)) =~= seq![(k, x)] + m);
        }
    } else {
        let r = m.drop_first();
        assert(sorts_before_key(m[0].0, k));
        assert forall|j: int| 0 <= j < i - 1 implies #[trigger] sorts_before_key(r[j].0, k) by {
            assert(r[j] == m[j + 1]);
            assert(sorts_before_key(m[j + 1].0, k));
        }
        lemma_put_member_at(r, k, x, i - 1);
        if i == m.len() {
            assert(seq![m[0]] + r.push((k, x)) =~= m.push((k, x)));
        } else if m[i].0 == k {
            assert(seq![m[0]] + r.update(i - 1, (k, x)) =~= m.update(i, (k, x)));
        } else {
            assert(seq![m[0]] + r.insert(i - 1, (k, x)) =~= m.insert(i, (k, x)));
        }
    }
}

/// Whether `a` sorts before `b`, character by character.
pub fn text_sorts_before(a: &str, b: &str) -> (r: bool)
    ensures
        r == text_less(a@, b@),
{
    let x = chars_of(a);
    let y = chars_of(b);
    let mut i: usize = 0;
    assert(a@.skip(0) =~= a@ && b@.skip(0) =~= b@);
    while i < x.len() && i < y.len() && x[i] == y[i]
        invariant
            i <= x.len(),
            i <= y.len(),
            x@ == a@,
            y@ == b@,
            text_less(a@, b@) == text_less(a@.skip(i as int), b@.skip(i as int)),
        decreases x.len() - i,
    {
        assert(a@.skip(i as int).drop_first() =~= a@.skip(i + 1));
        assert(b@.skip(i as int).drop_first() =~= b@.skip(i + 1));
        i = i + 1;
    }
    if i == x.len() {
        i < y.len()
    } else if i == y.len() {
        false
    } else {
        (x[i] as u32) < (y[i] as u32)
    }
}

/// Puts the member `(k, x)` into `out` as [`put_member`] does.
fn put_member_into(out: &mut Vec<(String, JsonValue)>, k: String, x: JsonValue)
    ensures
        json_member_models_of(final(out)@) == put_member(json_member_models_of(old(out)@), k@, x@),
{
    let ghost o = out@;
    let ghost m = json_member_models_of(o);
    proof {
        lemma_json_member_models_index(o);
    }
    let mut i: usize = 0;
    while i < out.len() && !str_eq(out[i].0.as_str(), k.as_str()) && text_sorts_before(out[i].0.as_str(), k.as_str())
        invariant
            i <= out.len(),
            out@ == o,
            m == json_member_models_of(o),
            m.len() == o.len(),
            forall|j: int| 0 <= j < o.len() ==> #[trigger] m[j] == (o[j].0@, o[j].1.model()),
            forall|j: int| 0 <= j < i ==> #[trigger] sorts_before_key(m[j].0, k@),
        decreases out.len() - i,
    {
        assert(m[i as int] == (o[i as int].0@, o[i as int].1.model()));
        assert(sorts_before_key(m[i as int].0, k@));
        i = i + 1;
    }
    proof {
        if i < out.len() {
            assert(m[i as int] == (o[i as int].0@, o[i as int].1.model()));
            assert(!sorts_before_key(m[i as int].0, k@));
        }
        lemma_put_member_at(m, k@, x@, i as int);
    }
    let n = out.len();
    if i == n {
        out.push((k, x));
    } else if str_eq(out[i].0.as_str(), k.as_str()) {
        out.set(i, (k, x));
    } else {
        out.insert(i, (k, x));
    }
    proof {
        lemma_json_member_models_index(out@);
        assert(json_member_models_of(out@) =~= put_member(m, k@, x@));
    }
}

/// An integer as a JSON number.
fn int_value(v: i64) -> (r: JsonValue)
    ensures
        r@ == int_json(v as int),
{
    if v >= 0 {
        let u = v as u64;
        JsonValue::Number(Some(u), decimal_string(u))
    } else {
        let a = (0 - (v as i128)) as u64;
        let mut t = string_of("-");
        push_decimal(&mut t, a);
        JsonValue::Number(None, t)
    }
}

/// An unsigned integer as a JSON number.
fn uint_value(v: u64) -> (r: JsonValue)
    ensures
        r@ == int_json(v as int),
{
    JsonValue::Number(Some(v), decimal_string(v))
}

/// A float held by its JSON text, as a JSON value.
fn float_value(t: &String) -> (r: JsonValue)
    ensures
        r@ == float_json(t@),
{
    if str_eq(t.as_str(), "null") {
        proof {
            reveal_strlit("null");
        }
        JsonValue::Null
    } else {
        JsonValue::Number(None, t.clone())
    }
}

/// Appends how a numeric target is named in messages.
fn push_number_word(s: &mut String, t: &NativeType)
    ensures
        final(s)@ == old(s)@ + number_word(*t),
{
    match t {
        NativeType::Int8 => push_str(s, "i8"),
        NativeType::Uint8 => push_str(s, "u8"),
        NativeType::Int16 => push_str(s, "i16"),
        NativeType::Uint16 => push_str(s, "u16"),
        NativeType::Int32 => push_str(s, "i32"),
        NativeType::Uint32 => push_str(s, "u32"),
        NativeType::Int64 => push_str(s, "i64"),
        NativeType::Uint64 => push_str(s, "u64"),
        NativeType::Float32 => push_str(s, "f32"),
        NativeType::Float64 => push_str(s, "f64"),
        _ => push_str(s, "bool"),
    }
}

/// The error whose message is `text`.
fn internal_error(text: &str) -> (r: Error)
    ensures
        r matches Error::InternalError(m) && m@ == text@,
{
    Error::InternalError(string_of(text))
}

/// The error whose message is `text` followed by the name of the target.
fn target_error(text: &str, t: &NativeType) -> (r: Error)
    ensures
        r matches Error::InternalError(m) && m@ == text@ + number_word(*t),
{
    let mut m = string_of(text);
    push_number_word(&mut m, t);
    Error::InternalError(m)
}

impl NumberReading {
    /// What `serde_json` reads out of the number written `text`.
    pub fn of_text(text: &str) -> (r: NumberReading)
        ensures
            r@ == reading_of(text@),
    {
        NumberReading {
            as_i64: number_as_i64(text),
            truncated: number_truncated(text),
            bits: number_bits(text),
            double_json: number_double_json(text),
            single_json: number_single_json(text),
        }
    }
}

impl TypeMarshaler {
    /// A JSON number, by what `serde_json` reads out of it, converted to a
    /// numeric (or boolean) target, as [`number_in`] says.
    pub fn from_number(reading: &NumberReading, target: &NativeType) -> (r: Result<NativeValue, Error>)
        requires
            is_number_target(*target),
        ensures
            match r {
                Ok(v) => number_in(reading@, *target) == Ok::<NativeModel, Seq<char>>(v@),
                Err(e) => e matches Error::InternalError(m) && number_in(reading@, *target) == Err::<
                    NativeModel,
                    Seq<char>,
                >(m@),
            },
    {
        match target {
            NativeType::Bool => {
                let nonzero = match reading.bits {
                    Some(b) => b & 0x7fff_ffff_ffff_ffffu64 != 0,
                    None => false,
                };
                Ok(NativeValue::Bool(nonzero))
            },
            NativeType::Float32 => match &reading.single_json {
                Some(t) => Ok(NativeValue::Float32(t.clone())),
                None => Err(target_error("cannot convert to ", target)),
            },
            NativeType::Float64 => match &reading.double_json {
                Some(t) => Ok(NativeValue::Float64(t.clone())),
                None => Err(target_error("cannot convert to ", target)),
            },
            _ => {
                let n = match reading.as_i64 {
                    Some(n) => Some(n),
                    None => reading.truncated,
                };
                match n {
                    None => Err(target_error("cannot convert to ", target)),
                    Some(n) => Ok(
                        match target {
                            NativeType::Int8 => NativeValue::Int8(n as i8),
                            NativeType::Uint8 => NativeValue::Uint8(n as u8),
                            NativeType::Int16 => NativeValue::Int16(n as i16),
                            NativeType::Uint16 => NativeValue::Uint16(n as u16),
                            NativeType::Int32 => NativeValue::Int32(n as i32),
                            NativeType::Uint32 => NativeValue::Uint32(n as u32),
                            NativeType::Int64 => NativeValue::Int64(n),
                            _ => NativeValue::Uint64(n as u64),
                        },
                    ),
                }
            },
        }
    }

    /// Converts a JSON value to a native value of type `target`, as
    /// [`marshal_in`] says: the value or the message of an internal error.
    #[verifier::loop_isolation(false)]
    pub fn js_to_native(value: &JsonValue, target: &NativeType) -> (r: Result<NativeValue, Error>)
        ensures
            match r {
                Ok(v) => marshal_in(*value, *target) == Ok::<NativeModel, Seq<char>>(v@),
                Err(e) => e matches Error::InternalError(m) && marshal_in(*value, *target) == Err::<
                    NativeModel,
                    Seq<char>,
                >(m@),
            },
        decreases target,
    {
        match target {
            NativeType::Void => Ok(NativeValue::Void),
            NativeType::Bool => match value {
                JsonValue::Bool(b) => Ok(NativeValue::Bool(*b)),
                JsonValue::Number(_, text) => Self::from_number(&NumberReading::of_text(text.as_str()), target),
                _ => Err(internal_error("expected boolean")),
            },
            NativeType::CString => match value {
                JsonValue::String(s) => Ok(NativeValue::String(s.clone())),
                _ => Err(internal_error("expected string")),
            },
            NativeType::Pointer(_) => match value {
                JsonValue::Number(n, _) => {
                    let a: u64 = match n {
                        Some(a) => *a,
                        None => 0,
                    };
                    Ok(NativeValue::Pointer(a as usize))
                },
                JsonValue::Null => Ok(NativeValue::Null),
                _ => Err(internal_error("expected pointer (number or null)")),
            },
            NativeType::FunctionPointer(_) => match value {
                JsonValue::Number(n, _) => {
                    let a: u64 = match n {
                        Some(a) => *a,
                        None => 0,
                    };
                    Ok(NativeValue::Pointer(a as usize))
                },
                _ => Err(internal_error("expected function pointer address")),
            },
            NativeType::Struct(fields) => match value {
                JsonValue::Object(_) => {
                    let null = JsonValue::Null;
                    let mut out: Vec<(String, NativeValue)> = Vec::new();
                    let mut i: usize = 0;
                    assert(fields@.subrange(0, 0) =~= Seq::<(String, NativeType)>::empty());
                    while i < fields.len()
                        invariant
                            i <= fields.len(),
                            marshal_fields(*value, fields@.subrange(0, i as int)) == Ok::<
                                Seq<(Seq<char>, NativeModel)>,
                                Seq<char>,
                            >(native_field_models_of(out@)),
                        decreases fields.len() - i,
                    {
                        proof {
                            vstd::std_specs::vec::axiom_vec_index_decreases(*fields, i as int);
                        }
                        let fv: &JsonValue = match value.get(fields[i].0.as_str()) {
                            Some(x) => x,
                            None => &null,
                        };
                        let res = Self::js_to_native(fv, &fields[i].1);
                        let ghost pre = fields@.subrange(0, i as int);
                        let ghost cur = fields@.subrange(0, i + 1);
                        assert(cur.subrange(0, cur.len() - 1) =~= pre);
                        assert(cur[cur.len() - 1] == fields@[i as int]);
                        match res {
                            Ok(nv) => {
                                let name = fields[i].0.clone();
                                proof {
                                    lemma_native_field_models_push(out@, (name, nv));
                                }
                                out.push((name, nv));
                            },
                            Err(e) => {
                                proof {
                                    lemma_fields_err(*value, fields@, i + 1);
                                }
                                return Err(e);
                            },
                        }
                        i = i + 1;
                    }
                    assert(fields@.subrange(0, fields.len() as int) =~= fields@);
                    Ok(NativeValue::Struct(out))
                },
                _ => Err(internal_error("expected object for struct")),
            },
            NativeType::Array(elem, len) => match value {
                JsonValue::Array(items) => {
                    if items.len() != *len {
                        let mut m = string_of("expected array of length ");
                        push_decimal(&mut m, *len as u64);
                        push_str(&mut m, ", got ");
                        push_decimal(&mut m, items.len() as u64);
                        return Err(Error::InternalError(m));
                    }
                    let mut out: Vec<NativeValue> = Vec::new();
                    let mut i: usize = 0;
                    assert(items@.subrange(0, 0) =~= Seq::<JsonValue>::empty());
                    while i < items.len()
                        invariant
                            i <= items.len(),
                            marshal_items(items@.subrange(0, i as int), **elem) == Ok::<Seq<NativeModel>, Seq<char>>(
                                native_models_of(out@),
                            ),
                        decreases items.len() - i,
                    {
                        let res = Self::js_to_native(&items[i], &**elem);
                        let ghost pre = items@.subrange(0, i as int);
                        let ghost cur = items@.subrange(0, i + 1);
                        assert(cur.subrange(0, cur.len() - 1) =~= pre);
                        assert(cur[cur.len() - 1] == items@[i as int]);
                        match res {
                            Ok(nv) => {
                                proof {
                                    lemma_native_models_push(out@, nv);
                                }
                                out.push(nv);
                            },
                            Err(e) => {
                                proof {
                                    lemma_items_err(items@, **elem, i + 1);
                                }
                                return Err(e);
                            },
                        }
                        i = i + 1;
                    }
                    assert(items@.subrange(0, items.len() as int) =~= items@);
                    Ok(NativeValue::Array(out))
                },
                _ => Err(internal_error("expected array")),
            },
            _ => match value {
                JsonValue::Number(_, text) => Self::from_number(&NumberReading::of_text(text.as_str()), target),
                _ => Err(target_error("expected number for ", target)),
            },
        }
    }

    /// Converts a native value to JSON, as [`marshal_out`] says.
    #[verifier::loop_isolation(false)]
    pub fn native_to_js(value: &NativeValue) -> (r: JsonValue)
        ensures
            r@ == marshal_out(*value),
        decreases value,
    {
        match value {
            NativeValue::Void => JsonValue::Null,
            NativeValue::Bool(b) => JsonValue::Bool(*b),
            NativeValue::Int8(x) => int_value(*x as i64),
            NativeValue::Uint8(x) => uint_value(*x as u64),
            NativeValue::Int16(x) => int_value(*x as i64),
            NativeValue::Uint16(x) => uint_value(*x as u64),
            NativeValue::Int32(x) => int_value(*x as i64),
            NativeValue::Uint32(x) => uint_value(*x as u64),
            NativeValue::Int64(x) => int_value(*x),
            NativeValue::Uint64(x) => uint_value(*x),
            NativeValue::Float32(t) => float_value(t),
            NativeValue::Float64(t) => float_value(t),
            NativeValue::String(s) => JsonValue::String(s.clone()),
            NativeValue::Pointer(a) => uint_value(*a as u64),
            NativeValue::Struct(fs) => {
                let mut out: Vec<(String, JsonValue)> = Vec::new();
                let mut i: usize = 0;
                assert(fs@.subrange(0, 0) =~= Seq::<(String, NativeValue)>::empty());
                while i < fs.len()
                    invariant
                        i <= fs.len(),
                        json_member_models_of(out@) == object_out(fs@.subrange(0, i as int)),
                    decreases fs.len() - i,
                {
                    proof {
                        vstd::std_specs::vec::axiom_vec_index_decreases(*fs, i as int);
                    }
                    let jv = Self::native_to_js(&fs[i].1);
                    let name = fs[i].0.clone();
                    let ghost cur = fs@.subrange(0, i + 1);
                    assert(cur.subrange(0, cur.len() - 1) =~= fs@.subrange(0, i as int));
                    assert(cur[cur.len() - 1] == fs@[i as int]);
                    put_member_into(&mut out, name, jv);
                    i = i + 1;
                }
                assert(fs@.subrange(0, fs.len() as int) =~= fs@);
                JsonValue::Object(out)
            },
            NativeValue::Array(xs) => {
                let mut out: Vec<JsonValue> = Vec::new();
                let mut i: usize = 0;
                assert(xs@.subrange(0, 0) =~= Seq::<NativeValue>::empty());
                while i < xs.len()
                    invariant
                        i <= xs.len(),
                        json_models_of(out@) == items_out(xs@.subrange(0, i as int)),
                    decreases xs.len() - i,
                {
                    proof {
                        vstd::std_specs::vec::axiom_vec_index_decreases(*xs, i as int);
                    }
                    let jv = Self::native_to_js(&xs[i]);
                    let ghost cur = xs@.subrange(0, i + 1);
                    assert(cur.subrange(0, cur.len() - 1) =~= xs@.subrange(0, i as int));
                    proof {
                        lemma_json_models_index(out@);
                        lemma_json_models_index(out@.push(jv));
                        assert(json_models_of(out@.push(jv)) =~= json_models_of(out@).push(jv@));
                    }
                    out.push(jv);
                    i = i + 1;
                }
                assert(xs@.subrange(0, xs.len() as int) =~= xs@);
                JsonValue::Array(out)
            },
            NativeValue::Null => JsonValue::Null,
        }
    }
}

} // verus!
