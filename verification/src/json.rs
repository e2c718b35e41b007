//! JSON documents as plain values, read with `serde_json`.
use vstd::prelude::*;

verus! {

/// A parsed JSON value.  A number is held twice: by its value when it is a
/// non-negative integer that fits in `u64` (`None` for any other number),
/// and by its text as `serde_json` writes it.
#[derive(Debug, PartialEq)]
pub enum JsonValue {
    Null,
    Bool(bool),
    Number(Option<u64>, String),
    String(String),
    Array(Vec<JsonValue>),
    Object(Vec<(String, JsonValue)>),
}

#[verifier::external_type_specification]
#[verifier::external_body]
pub struct ExSerdeJsonValue(serde_json::Value);

/// What `serde_json` makes of a text: the document, or the wording of its
/// error.
pub uninterp spec fn json_parse_outcome(text: Seq<char>) -> Result<JsonValue, Seq<char>>;

/// `serde_json::from_str::<serde_json::Value>`, with the document converted
/// value for value into a [`JsonValue`] and the error into its wording.  The
/// outcome is a function of the text alone; what it is, is not stated here.
#[verifier::external_body]
pub(crate) fn parse_json(text: &str) -> (r: Result<JsonValue, String>)
    ensures
        match r {
            Ok(v) => json_parse_outcome(text@) == Ok::<JsonValue, Seq<char>>(v),
            Err(e) => json_parse_outcome(text@) == Err::<JsonValue, Seq<char>>(e@),
        },
{
    match serde_json::from_str::<serde_json::Value>(text) {
        Ok(v) => Ok(convert_json(v)),
        Err(e) => Err(e.to_string()),
    }
}

/// Converts a `serde_json::Value` variant for variant; a number keeps what
/// `serde_json::Number::as_u64` gives and its text.  Only [`parse_json`] calls it.
#[verifier::external_body]
fn convert_json(v: serde_json::Value) -> JsonValue {
    match v {
        serde_json::Value::Null => JsonValue::Null,
        serde_json::Value::Bool(b) => JsonValue::Bool(b),
        serde_json::Value::Number(n) => JsonValue::Number(n.as_u64(), n.to_string()),
        serde_json::Value::String(s) => JsonValue::String(s),
        serde_json::Value::Array(a) => JsonValue::Array(a.into_iter().map(convert_json).collect()),
        serde_json::Value::Object(m) => JsonValue::Object(
            m.into_iter().map(|(k, x)| (k, convert_json(x))).collect(),
        ),
    }
}

/// What `serde_json::to_string_pretty` makes of a document: its indented
/// text, or the wording of its error.
pub uninterp spec fn pretty_json_outcome(v: JsonModel) -> Result<Seq<char>, Seq<char>>;

/// `serde_json::to_string_pretty` of the document converted value for value
/// into a `serde_json::Value` (a number whose text is no JSON number becomes
/// `null`), with the error turned into its wording.  The outcome is a
/// function of the document alone; what it is, is not stated here.
#[verifier::external_body]
pub(crate) fn pretty_json(v: &JsonValue) -> (r: Result<String, String>)
    ensures
        match r {
            Ok(t) => pretty_json_outcome(v@) == Ok::<Seq<char>, Seq<char>>(t@),
            Err(e) => pretty_json_outcome(v@) == Err::<Seq<char>, Seq<char>>(e@),
        },
{
    serde_json::to_string_pretty(&to_serde(v)).map_err(|e| e.to_string())
}

/// Converts a [`JsonValue`] variant for variant into a `serde_json::Value`;
/// a number is read back from its text.  Only [`pretty_json`] calls it.
#[verifier::external_body]
fn to_serde(v: &JsonValue) -> serde_json::Value {
    match v {
        JsonValue::Null => serde_json::Value::Null,
        JsonValue::Bool(b) => serde_json::Value::Bool(*b),
        JsonValue::Number(_, t) => t.parse().map(serde_json::Value::Number).unwrap_or(serde_json::Value::Null),
        JsonValue::String(s) => serde_json::Value::String(s.clone()),
        JsonValue::Array(a) => serde_json::Value::Array(a.iter().map(to_serde).collect()),
        JsonValue::Object(m) => serde_json::Value::Object(m.iter().map(|(k, x)| (k.clone(), to_serde(x))).collect()),
    }
}

/// The model of a [`JsonValue`]: texts become character sequences.
pub enum JsonModel {
    Null,
    Bool(bool),
    Number(Option<u64>, Seq<char>),
    Str(Seq<char>),
    Array(Seq<JsonModel>),
    Object(Seq<(Seq<char>, JsonModel)>),
}

/// Models of a sequence of JSON values, item by item.
pub open spec fn json_models_of(s: Seq<JsonValue>) -> Seq<JsonModel>
    decreases s,
{
    if s.len() == 0 {
        Seq::empty()
    } else {
        json_models_of(s.subrange(0, s.len() - 1)).push(s[s.len() - 1].model())
    }
}

/// Models of the members of an object, member by member.
pub open spec fn json_member_models_of(s: Seq<(String, JsonValue)>) -> Seq<(Seq<char>, JsonModel)>
    decreases s,
{
    if s.len() == 0 {
        Seq::empty()
    } else {
        json_member_models_of(s.subrange(0, s.len() - 1)).push((s[s.len() - 1].0@, s[s.len() - 1].1.model()))
    }
}

impl JsonValue {
    pub open spec fn model(self) -> JsonModel
        decreases self,
    {
        match self {
            JsonValue::Null => JsonModel::Null,
            JsonValue::Bool(b) => JsonModel::Bool(b),
            JsonValue::Number(n, t) => JsonModel::Number(n, t@),
            JsonValue::String(s) => JsonModel::Str(s@),
            JsonValue::Array(items) => JsonModel::Array(json_models_of(items@)),
            JsonValue::Object(members) => JsonModel::Object(json_member_models_of(members@)),
        }
    }
}

impl View for JsonValue {
    type V = JsonModel;

    open spec fn view(&self) -> JsonModel {
        self.model()
    }
}

/// The models of a sequence have its length and are taken item by item.
pub proof fn lemma_json_models_index(s: Seq<JsonValue>)
    ensures
        json_models_of(s).len() == s.len(),
        forall|i: int| 0 <= i < s.len() ==> #[trigger] json_models_of(s)[i] == s[i].model(),
    decreases s.len(),
{
    if s.len() > 0 {
        lemma_json_models_index(s.subrange(0, s.len() - 1));
    }
}

/// The member models of a sequence have its length and are taken member by
/// member.
pub proof fn lemma_json_member_models_index(s: Seq<(String, JsonValue)>)
    ensures
        json_member_models_of(s).len() == s.len(),
        forall|i: int| 0 <= i < s.len() ==> #[trigger] json_member_models_of(s)[i] == (s[i].0@, s[i].1.model()),
    decreases s.len(),
{
    if s.len() > 0 {
        lemma_json_member_models_index(s.subrange(0, s.len() - 1));
    }
}

/// What `serde_json::Number::as_i64` gives for the number that
/// `serde_json` reads from `text` (`None` also where it reads none).
pub uninterp spec fn number_i64_of(text: Seq<char>) -> Option<i64>;

/// What `serde_json::Number::as_f64` gives for the number read from `text`,
/// cast to `i64` by Rust's saturating `as`.
pub uninterp spec fn number_truncated_of(text: Seq<char>) -> Option<i64>;

/// The IEEE 754 bit pattern of what `serde_json::Number::as_f64` gives for
/// the number read from `text`.
pub uninterp spec fn number_bits_of(text: Seq<char>) -> Option<u64>;

/// The text `serde_json` writes for the `serde_json::Value` made from what
/// `Number::as_f64` gives for the number read from `text`.
pub uninterp spec fn number_double_json_of(text: Seq<char>) -> Option<Seq<char>>;

/// The text `serde_json` writes for the value that its serializer makes of
/// the single-precision narrowing (Rust's `as`) of what `Number::as_f64`
/// gives for the number read from `text`.
pub uninterp spec fn number_single_json_of(text: Seq<char>) -> Option<Seq<char>>;

/// `serde_json::Number::as_i64` of the number parsed from `text` with
/// `str::parse::<serde_json::Number>`; `None` where the parse fails.
#[verifier::external_body]
pub(crate) fn number_as_i64(text: &str) -> (r: Option<i64>)
    ensures
        r == number_i64_of(text@),
{
    text.parse::<serde_json::Number>().ok().and_then(|n| n.as_i64())
}

/// `serde_json::Number::as_f64` of the number parsed from `text`, cast to
/// `i64` by `as` (which truncates toward zero and saturates).
#[verifier::external_body]
pub(crate) fn number_truncated(text: &str) -> (r: Option<i64>)
    ensures
        r == number_truncated_of(text@),
{
    text.parse::<serde_json::Number>().ok().and_then(|n| n.as_f64()).map(|f| f as i64)
}

/// `serde_json::Number::as_f64` of the number parsed from `text`, by its
/// bit pattern (`to_bits`).
#[verifier::external_body]
pub(crate) fn number_bits(text: &str) -> (r: Option<u64>)
    ensures
        r == number_bits_of(text@),
{
    text.parse::<serde_json::Number>().ok().and_then(|n| n.as_f64()).map(|f| f.to_bits())
}

/// `serde_json::Value::from` the double that `Number::as_f64` gives for the
/// number parsed from `text`, written with `to_string` (`null` where the
/// double is not finite).
#[verifier::external_body]
pub(crate) fn number_double_json(text: &str) -> (r: Option<String>)
    ensures
        match r {
            Some(t) => number_double_json_of(text@) == Some(t@),
            None => number_double_json_of(text@) is None,
        },
{
    text.parse::<serde_json::Number>().ok().and_then(|n| n.as_f64()).map(|f| serde_json::Value::from(f).to_string())
}

/// The double that `Number::as_f64` gives for the number parsed from
/// `text`, narrowed to single precision by `as` and handed to
/// `serde::Serializer::serialize_f32` of `serde_json::value::Serializer`;
/// the value it makes, written with `to_string` (`null` where the single is
/// not finite).
#[verifier::external_body]
pub(crate) fn number_single_json(text: &str) -> (r: Option<String>)
    ensures
        match r {
            Some(t) => number_single_json_of(text@) == Some(t@),
            None => number_single_json_of(text@) is None,
        },
{
    let wide = text.parse::<serde_json::Number>().ok()?.as_f64()?;
    let narrow = wide as _;
    serde::Serializer::serialize_f32(serde_json::value::Serializer, narrow).ok().map(|v| v.to_string())
}

/// The first member of an object named `key`.
pub open spec fn member_of(members: Seq<(String, JsonValue)>, key: Seq<char>) -> Option<JsonValue>
    decreases members.len(),
{
    if members.len() == 0 {
        None
    } else if members[0].0@ == key {
        Some(members[0].1)
    } else {
        member_of(members.drop_first(), key)
    }
}

impl JsonValue {
    /// The member named `key` of an object; `None` for anything else.
    pub open spec fn get_spec(self, key: Seq<char>) -> Option<JsonValue> {
        match self {
            JsonValue::Object(members) => member_of(members@, key),
            _ => None,
        }
    }

    /// The text of a string; `None` for anything else.
    pub open spec fn str_spec(self) -> Option<Seq<char>> {
        match self {
            JsonValue::String(s) => Some(s@),
            _ => None,
        }
    }

    /// The value of a non-negative integer that fits in `u64`.
    pub open spec fn u64_spec(self) -> Option<u64> {
        match self {
            JsonValue::Number(n, _) => n,
            _ => None,
        }
    }

    /// The member named `key` of an object.
    pub fn get(&self, key: &str) -> (r: Option<&JsonValue>)
        ensures
            match r {
                Some(v) => self.get_spec(key@) == Some(*v),
                None => self.get_spec(key@) is None,
            },
    {
        match self {
            JsonValue::Object(members) => {
                let mut i: usize = 0;
                assert(members@.skip(0) =~= members@);
                while i < members.len()
                    invariant
                        i <= members.len(),
                        member_of(members@, key@) == member_of(members@.skip(i as int), key@),
                        self.get_spec(key@) == member_of(members@, key@),
                    decreases members.len() - i,
                {
                    assert(members@.skip(i as int).drop_first() =~= members@.skip(i as int + 1));
                    assert(members@.skip(i as int)[0] == members@[i as int]);
                    if crate::text::str_eq(members[i].0.as_str(), key) {
                        assert(member_of(members@.skip(i as int), key@) == Some(members@[i as int].1));
                        return Some(&members[i].1);
                    }
                    i = i + 1;
                }
                None
            },
            _ => None,
        }
    }

    /// The value of a non-negative integer that fits in `u64`.
    pub fn as_u64(&self) -> (r: Option<u64>)
        ensures
            r == self.u64_spec(),
    {
        match self {
            JsonValue::Number(n, _) => *n,
            _ => None,
        }
    }

    /// The text of a string.
    pub fn as_str(&self) -> (r: Option<&str>)
        ensures
            match r {
                Some(s) => self.str_spec() == Some(s@),
                None => self.str_spec() is None,
            },
    {
        match self {
            JsonValue::String(s) => Some(s.as_str()),
            _ => None,
        }
    }

    /// The items of an array.
    pub fn as_array(&self) -> (r: Option<&Vec<JsonValue>>)
        ensures
            match r {
                Some(a) => self matches JsonValue::Array(items) && items == *a,
                None => !(self is Array),
            },
    {
        match self {
            JsonValue::Array(items) => Some(items),
            _ => None,
        }
    }
}

} // verus!
