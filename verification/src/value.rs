use vstd::prelude::*;

verus! {

/// A JavaScript value as the runtime hands it around.
///
/// A number is held by the bit pattern of its IEEE-754 double.
#[derive(Debug)]
pub enum JsValue {
    Undefined,
    Null,
    Boolean(bool),
    Number(u64),
    String(String),
    Array(Vec<JsValue>),
    Object(Vec<(String, JsValue)>),
}

/// The mathematical model of a [`JsValue`]: strings become character sequences.
pub enum ValueModel {
    Undefined,
    Null,
    Boolean(bool),
    Number(u64),
    Str(Seq<char>),
    Array(Seq<ValueModel>),
    Object(Seq<(Seq<char>, ValueModel)>),
}

/// Models of a sequence of values, element by element.
pub open spec fn models_of(s: Seq<JsValue>) -> Seq<ValueModel>
    decreases s,
{
    if s.len() == 0 {
        Seq::empty()
    } else {
        models_of(s.subrange(0, s.len() - 1)).push(s[s.len() - 1].model())
    }
}

/// Models of a sequence of named properties, entry by entry.
pub open spec fn prop_models_of(s: Seq<(String, JsValue)>) -> Seq<(Seq<char>, ValueModel)>
    decreases s,
{
    if s.len() == 0 {
        Seq::empty()
    } else {
        prop_models_of(s.subrange(0, s.len() - 1)).push((s[s.len() - 1].0@, s[s.len() - 1].1.model()))
    }
}

impl JsValue {
    pub open spec fn model(self) -> ValueModel
        decreases self,
    {
        match self {
            JsValue::Undefined => ValueModel::Undefined,
            JsValue::Null => ValueModel::Null,
            JsValue::Boolean(b) => ValueModel::Boolean(b),
            JsValue::Number(n) => ValueModel::Number(n),
            JsValue::String(s) => ValueModel::Str(s@),
            JsValue::Array(items) => ValueModel::Array(models_of(items@)),
            JsValue::Object(props) => ValueModel::Object(prop_models_of(props@)),
        }
    }
}


/// Appending a value appends its model.
pub proof fn lemma_models_of_push(s: Seq<JsValue>, v: JsValue)
    ensures
        models_of(s.push(v)) == models_of(s).push(v.model()),
{
    assert(s.push(v).subrange(0, s.len() as int) =~= s);
}

/// Appending a property appends its model.
pub proof fn lemma_prop_models_of_push(s: Seq<(String, JsValue)>, p: (String, JsValue))
    ensures
        prop_models_of(s.push(p)) == prop_models_of(s).push((p.0@, p.1.model())),
{
    assert(s.push(p).subrange(0, s.len() as int) =~= s);
}

/// Models of a sequence have its length.
pub proof fn lemma_models_of_len(s: Seq<JsValue>)
    ensures
        models_of(s).len() == s.len(),
    decreases s.len(),
{
    if s.len() > 0 {
        lemma_models_of_len(s.subrange(0, s.len() - 1));
    }
}

impl View for JsValue {
    type V = ValueModel;

    open spec fn view(&self) -> ValueModel {
        self.model()
    }
}

impl JsValue {
    /// An array value holding `items` in order.
    pub fn new_array(items: Vec<JsValue>) -> (r: JsValue)
        ensures
            r == JsValue::Array(items),
    {
        JsValue::Array(items)
    }

    /// An object value holding the named properties in order.
    pub fn new_object_with_properties(props: Vec<(String, JsValue)>) -> (r: JsValue)
        ensures
            r == JsValue::Object(props),
    {
        JsValue::Object(props)
    }

    /// A copy of this value with the same model.
    #[verifier::loop_isolation(false)]
    pub fn duplicate(&self) -> (r: JsValue)
        ensures
            r@ == self@,
        decreases self,
    {
        match self {
            JsValue::Undefined => JsValue::Undefined,
            JsValue::Null => JsValue::Null,
            JsValue::Boolean(b) => JsValue::Boolean(*b),
            JsValue::Number(n) => JsValue::Number(*n),
            JsValue::String(s) => JsValue::String(s.clone()),
            JsValue::Array(items) => {
                let mut out: Vec<JsValue> = Vec::new();
                let mut i: usize = 0;
                while i < items.len()
                    invariant
                        i <= items.len(),
                        models_of(out@) == models_of(items@.subrange(0, i as int)),
                    decreases items.len() - i,
                {
                    proof {
                        vstd::std_specs::vec::axiom_vec_index_decreases(*items, i as int);
                    }
                    let c = items[i].duplicate();
                    proof {
                        lemma_models_of_push(out@, c);
                        lemma_models_of_push(items@.subrange(0, i as int), items@[i as int]);
                        assert(items@.subrange(0, i as int).push(items@[i as int]) =~= items@.subrange(0, i + 1));
                    }
                    out.push(c);
                    i = i + 1;
                }
                assert(items@.subrange(0, items.len() as int) =~= items@);
                JsValue::Array(out)
            },
            JsValue::Object(props) => {
                let mut out: Vec<(String, JsValue)> = Vec::new();
                let mut i: usize = 0;
                while i < props.len()
                    invariant
                        i <= props.len(),
                        prop_models_of(out@) == prop_models_of(props@.subrange(0, i as int)),
                    decreases props.len() - i,
                {
                    proof {
                        vstd::std_specs::vec::axiom_vec_index_decreases(*props, i as int);
                    }
                    let c = props[i].1.duplicate();
                    let k = props[i].0.clone();
                    proof {
                        lemma_prop_models_of_push(out@, (k, c));
                        lemma_prop_models_of_push(props@.subrange(0, i as int), props@[i as int]);
                        assert(props@.subrange(0, i as int).push(props@[i as int]) =~= props@.subrange(0, i + 1));
                    }
                    out.push((k, c));
                    i = i + 1;
                }
                assert(props@.subrange(0, props.len() as int) =~= props@);
                JsValue::Object(out)
            },
        }
    }
}

/// A copy of each value, in order.
pub fn duplicate_values(v: &Vec<JsValue>) -> (r: Vec<JsValue>)
    ensures
        models_of(r@) == models_of(v@),
{
    let mut out: Vec<JsValue> = Vec::new();
    let mut i: usize = 0;
    while i < v.len()
        invariant
            i <= v.len(),
            models_of(out@) == models_of(v@.subrange(0, i as int)),
        decreases v.len() - i,
    {
        let c = v[i].duplicate();
        proof {
            lemma_models_of_push(out@, c);
            lemma_models_of_push(v@.subrange(0, i as int), v@[i as int]);
            assert(v@.subrange(0, i as int).push(v@[i as int]) =~= v@.subrange(0, i + 1));
        }
        out.push(c);
        i = i + 1;
    }
    assert(v@.subrange(0, v.len() as int) =~= v@);
    out
}

/// Models of a sequence, read element by element.
pub proof fn lemma_models_of_index(s: Seq<JsValue>)
    ensures
        models_of(s).len() == s.len(),
        forall|j: int| 0 <= j < s.len() ==> #[trigger] models_of(s)[j] == s[j]@,
    decreases s.len(),
{
    if s.len() > 0 {
        lemma_models_of_index(s.subrange(0, s.len() - 1));
    }
}

/// An object with the two given properties, in order.
pub fn object2(k1: String, v1: JsValue, k2: String, v2: JsValue) -> (r: JsValue)
    ensures
        r@ == ValueModel::Object(seq![(k1@, v1@), (k2@, v2@)]),
{
    let ghost e1 = (k1@, v1@);
    let ghost e2 = (k2@, v2@);
    let mut props: Vec<(String, JsValue)> = Vec::new();
    proof {
        assert(prop_models_of(props@) =~= Seq::empty());
    }
    let ghost p0 = props@;
    let a = (k1, v1);
    proof { lemma_prop_models_of_push(p0, a); }
    props.push(a);
    let ghost p1 = props@;
    let b = (k2, v2);
    proof { lemma_prop_models_of_push(p1, b); }
    props.push(b);
    assert(prop_models_of(props@) =~= seq![e1, e2]);
    JsValue::Object(props)
}

/// An object with the three given properties, in order.
pub fn object3(k1: String, v1: JsValue, k2: String, v2: JsValue, k3: String, v3: JsValue) -> (r: JsValue)
    ensures
        r@ == ValueModel::Object(seq![(k1@, v1@), (k2@, v2@), (k3@, v3@)]),
{
    let ghost e1 = (k1@, v1@);
    let ghost e2 = (k2@, v2@);
    let ghost e3 = (k3@, v3@);
    let mut props: Vec<(String, JsValue)> = Vec::new();
    proof {
        assert(prop_models_of(props@) =~= Seq::empty());
    }
    let ghost p0 = props@;
    let a = (k1, v1);
    proof { lemma_prop_models_of_push(p0, a); }
    props.push(a);
    let ghost p1 = props@;
    let b = (k2, v2);
    proof { lemma_prop_models_of_push(p1, b); }
    props.push(b);
    let ghost p2 = props@;
    let c = (k3, v3);
    proof { lemma_prop_models_of_push(p2, c); }
    props.push(c);
    assert(prop_models_of(props@) =~= seq![e1, e2, e3]);
    JsValue::Object(props)
}

/// Whether the IEEE double with these bits is NaN: all exponent bits set and
/// a fraction other than zero.
pub open spec fn is_nan_bits(bits: u64) -> bool {
    (bits / 0x10_0000_0000_0000) % 2048 == 2047 && bits % 0x10_0000_0000_0000 != 0
}

/// Whether the IEEE double with these bits is a zero of either sign.
pub open spec fn is_zero_bits(bits: u64) -> bool {
    bits % 0x8000_0000_0000_0000 == 0
}

/// JavaScript's `===` on the values a snapshot holds: numbers compare as
/// doubles (NaN equals nothing, the two zeros are equal), strings by their
/// characters, and an array or object (whose identity a snapshot does not
/// keep) equals nothing.
pub open spec fn strictly_equal(a: ValueModel, b: ValueModel) -> bool {
    match (a, b) {
        (ValueModel::Undefined, ValueModel::Undefined) => true,
        (ValueModel::Null, ValueModel::Null) => true,
        (ValueModel::Boolean(x), ValueModel::Boolean(y)) => x == y,
        (ValueModel::Number(x), ValueModel::Number(y)) => !is_nan_bits(x) && !is_nan_bits(y) && (x == y || (
        is_zero_bits(x) && is_zero_bits(y))),
        (ValueModel::Str(x), ValueModel::Str(y)) => x == y,
        _ => false,
    }
}

/// JavaScript's `===` on two values, as [`strictly_equal`] says.
pub fn strict_equals(a: &JsValue, b: &JsValue) -> (r: bool)
    ensures
        r == strictly_equal(a@, b@),
{
    match (a, b) {
        (JsValue::Undefined, JsValue::Undefined) => true,
        (JsValue::Null, JsValue::Null) => true,
        (JsValue::Boolean(x), JsValue::Boolean(y)) => *x == *y,
        (JsValue::Number(x), JsValue::Number(y)) => {
            let nan_x = (*x / 0x10_0000_0000_0000) % 2048 == 2047 && *x % 0x10_0000_0000_0000 != 0;
            let nan_y = (*y / 0x10_0000_0000_0000) % 2048 == 2047 && *y % 0x10_0000_0000_0000 != 0;
            let zeros = *x % 0x8000_0000_0000_0000 == 0 && *y % 0x8000_0000_0000_0000 == 0;
            !nan_x && !nan_y && (*x == *y || zeros)
        },
        (JsValue::String(x), JsValue::String(y)) => crate::text::str_eq(x.as_str(), y.as_str()),
        _ => false,
    }
}

/// What JavaScript's `typeof` says of a value.
pub open spec fn typeof_text(v: ValueModel) -> Seq<char> {
    match v {
        ValueModel::Undefined => "undefined"@,
        ValueModel::Boolean(_) => "boolean"@,
        ValueModel::Number(_) => "number"@,
        ValueModel::Str(_) => "string"@,
        _ => "object"@,
    }
}

impl JsValue {
    /// What JavaScript's `typeof` says of the value.
    pub fn type_of(&self) -> (r: &'static str)
        ensures
            r@ == typeof_text(self@),
    {
        match self {
            JsValue::Undefined => "undefined",
            JsValue::Boolean(_) => "boolean",
            JsValue::Number(_) => "number",
            JsValue::String(_) => "string",
            _ => "object",
        }
    }
}

} // verus!
