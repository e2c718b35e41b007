//! Native library bridge: the native types and values that cross the
//! boundary, function signatures and the permissions that guard calls.
use vstd::prelude::*;
use crate::error::Error;
use crate::text::{push_str, push_decimal, string_of, decimal};

verus! {

/// A type on the native side of a call.
#[derive(Debug, PartialEq)]
pub enum NativeType {
    Void,
    Bool,
    Int8,
    Uint8,
    Int16,
    Uint16,
    Int32,
    Uint32,
    Int64,
    Uint64,
    Float32,
    Float64,
    Pointer(Box<NativeType>),
    CString,
    Struct(Vec<(String, NativeType)>),
    Array(Box<NativeType>, usize),
    FunctionPointer(Box<FunctionSignature>),
}

/// The size in bytes of a native type: pointers take 8, a struct the sum of
/// its fields (without padding), an array its element size times its length.
pub open spec fn native_size(t: NativeType) -> nat
    decreases t,
{
    match t {
        NativeType::Void => 0nat,
        NativeType::Bool | NativeType::Int8 | NativeType::Uint8 => 1nat,
        NativeType::Int16 | NativeType::Uint16 => 2nat,
        NativeType::Int32 | NativeType::Uint32 | NativeType::Float32 => 4nat,
        NativeType::Int64 | NativeType::Uint64 | NativeType::Float64 => 8nat,
        NativeType::Pointer(_) | NativeType::CString | NativeType::FunctionPointer(_) => 8nat,
        NativeType::Struct(fields) => fields_size(fields@),
        NativeType::Array(e, len) => native_size(*e) * (len as nat),
    }
}

/// The summed sizes of struct fields.
pub open spec fn fields_size(fields: Seq<(String, NativeType)>) -> nat
    decreases fields,
{
    if fields.len() == 0 {
        0
    } else {
        fields_size(fields.drop_last()) + native_size(fields.last().1)
    }
}

/// The size of a native type, and of every type inside it, is a `usize`.
pub open spec fn size_fits(t: NativeType) -> bool
    decreases t,
{
    match t {
        NativeType::Struct(fields) => fields_fit(fields@) && fields_size(fields@) <= usize::MAX,
        NativeType::Array(e, len) => size_fits(*e) && native_size(*e) * len <= usize::MAX,
        _ => true,
    }
}

/// Every field's type has a size that is a `usize`.
pub open spec fn fields_fit(fields: Seq<(String, NativeType)>) -> bool
    decreases fields,
{
    if fields.len() == 0 {
        true
    } else {
        fields_fit(fields.drop_last()) && size_fits(fields.last().1)
    }
}

proof fn lemma_fields_prefix(fields: Seq<(String, NativeType)>, i: int)
    requires
        0 <= i <= fields.len(),
        fields_fit(fields),
    ensures
        fields_fit(fields.take(i)),
        fields_size(fields.take(i)) <= fields_size(fields),
        i < fields.len() ==> size_fits(fields[i].1),
    decreases fields.len(),
{
    if i == fields.len() {
        assert(fields.take(i) =~= fields);
        if i > 0 {
            lemma_fields_prefix(fields.drop_last(), i - 1);
        }
    } else {
        assert(fields.drop_last().take(i) =~= fields.take(i));
        lemma_fields_prefix(fields.drop_last(), i);
        if i < fields.len() - 1 {
            assert(fields.drop_last()[i] == fields[i]);
        }
    }
}

impl NativeType {
    /// Size in bytes of the type.
    #[verifier::loop_isolation(false)]
    pub fn size_of(&self) -> (r: usize)
        requires
            size_fits(*self),
        ensures
            r == native_size(*self),
        decreases *self,
    {
        match self {
            NativeType::Void => 0,
            NativeType::Bool | NativeType::Int8 | NativeType::Uint8 => 1,
            NativeType::Int16 | NativeType::Uint16 => 2,
            NativeType::Int32 | NativeType::Uint32 | NativeType::Float32 => 4,
            NativeType::Int64 | NativeType::Uint64 | NativeType::Float64 => 8,
            NativeType::Pointer(_) | NativeType::CString | NativeType::FunctionPointer(_) => 8,
            NativeType::Struct(fields) => {
                let mut total: usize = 0;
                let mut i: usize = 0;
                while i < fields.len()
                    invariant
                        i <= fields.len(),
                        fields_fit(fields@),
                        fields_size(fields@) <= usize::MAX,
                        total == fields_size(fields@.take(i as int)),
                    decreases fields.len() - i,
                {
                    proof {
                        lemma_fields_prefix(fields@, i as int + 1);
                        lemma_fields_prefix(fields@, i as int);
                        assert(fields@.take(i as int + 1).drop_last() =~= fields@.take(i as int));
                        vstd::std_specs::vec::axiom_vec_index_decreases(*fields, i as int);
                    }
                    let s = fields[i].1.size_of();
                    total = total + s;
                    i = i + 1;
                }
                assert(fields@.take(i as int) =~= fields@);
                total
            },
            NativeType::Array(e, len) => {
                let s = e.size_of();
                s * *len
            },
        }
    }

    /// Whether the type is one of the integer types.
    pub fn is_integer(&self) -> (r: bool)
        ensures
            r == (self is Int8 || self is Uint8 || self is Int16 || self is Uint16 || self is Int32
                || self is Uint32 || self is Int64 || self is Uint64),
    {
        match self {
            NativeType::Int8 | NativeType::Uint8 | NativeType::Int16 | NativeType::Uint16
            | NativeType::Int32 | NativeType::Uint32 | NativeType::Int64 | NativeType::Uint64 => true,
            _ => false,
        }
    }

    /// Whether the type is one of the floating-point types.
    pub fn is_float(&self) -> (r: bool)
        ensures
            r == (self is Float32 || self is Float64),
    {
        match self {
            NativeType::Float32 | NativeType::Float64 => true,
            _ => false,
        }
    }
}

/// How a native function takes its arguments.
#[derive(Debug, Clone, Copy, PartialEq, Eq, Structural)]
pub enum CallingConvention {
    C,
    Stdcall,
    Fastcall,
    System,
}

impl Default for CallingConvention {
    fn default() -> (r: Self)
        ensures
            r == CallingConvention::C,
    {
        CallingConvention::C
    }
}

/// The signature of a native function.
#[derive(Debug, PartialEq)]
pub struct FunctionSignature {
    pub name: String,
    pub params: Vec<NativeType>,
    pub return_type: NativeType,
    pub calling_convention: CallingConvention,
    pub is_variadic: bool,
}

/// A value on the native side.  A floating-point value is held by the JSON
/// text `serde_json` writes for it: the shortest decimal that reads back as
/// the double (for a single, as the double it widens to), or `null` where
/// it is not finite.
#[derive(Debug, PartialEq)]
pub enum NativeValue {
    Void,
    Bool(bool),
    Int8(i8),
    Uint8(u8),
    Int16(i16),
    Uint16(u16),
    Int32(i32),
    Uint32(u32),
    Int64(i64),
    Uint64(u64),
    Float32(String),
    Float64(String),
    String(String),
    Pointer(usize),
    Struct(Vec<(String, NativeValue)>),
    Array(Vec<NativeValue>),
    Null,
}

/// Whether a value can be passed where `target` is expected: the variant
/// that matches it, a string for a C string, a pointer or null for a
/// pointer, any struct for a struct and any array for an array.
pub open spec fn compatible(v: NativeValue, target: NativeType) -> bool {
    match (v, target) {
        (NativeValue::Void, NativeType::Void) => true,
        (NativeValue::Bool(_), NativeType::Bool) => true,
        (NativeValue::Int8(_), NativeType::Int8) => true,
        (NativeValue::Uint8(_), NativeType::Uint8) => true,
        (NativeValue::Int16(_), NativeType::Int16) => true,
        (NativeValue::Uint16(_), NativeType::Uint16) => true,
        (NativeValue::Int32(_), NativeType::Int32) => true,
        (NativeValue::Uint32(_), NativeType::Uint32) => true,
        (NativeValue::Int64(_), NativeType::Int64) => true,
        (NativeValue::Uint64(_), NativeType::Uint64) => true,
        (NativeValue::Float32(_), NativeType::Float32) => true,
        (NativeValue::Float64(_), NativeType::Float64) => true,
        (NativeValue::String(_), NativeType::CString) => true,
        (NativeValue::Pointer(_), NativeType::Pointer(_)) => true,
        (NativeValue::Struct(_), NativeType::Struct(_)) => true,
        (NativeValue::Array(_), NativeType::Array(_, _)) => true,
        (NativeValue::Null, NativeType::Pointer(_)) => true,
        _ => false,
    }
}

impl NativeValue {
    /// Whether this value can be passed where `target` is expected.
    pub fn is_compatible_with(&self, target: &NativeType) -> (r: bool)
        ensures
            r == compatible(*self, *target),
    {
        match (self, target) {
            (NativeValue::Void, NativeType::Void) => true,
            (NativeValue::Bool(_), NativeType::Bool) => true,
            (NativeValue::Int8(_), NativeType::Int8) => true,
            (NativeValue::Uint8(_), NativeType::Uint8) => true,
            (NativeValue::Int16(_), NativeType::Int16) => true,
            (NativeValue::Uint16(_), NativeType::Uint16) => true,
            (NativeValue::Int32(_), NativeType::Int32) => true,
            (NativeValue::Uint32(_), NativeType::Uint32) => true,
            (NativeValue::Int64(_), NativeType::Int64) => true,
            (NativeValue::Uint64(_), NativeType::Uint64) => true,
            (NativeValue::Float32(_), NativeType::Float32) => true,
            (NativeValue::Float64(_), NativeType::Float64) => true,
            (NativeValue::String(_), NativeType::CString) => true,
            (NativeValue::Pointer(_), NativeType::Pointer(_)) => true,
            (NativeValue::Struct(_), NativeType::Struct(_)) => true,
            (NativeValue::Array(_), NativeType::Array(_, _)) => true,
            (NativeValue::Null, NativeType::Pointer(_)) => true,
            _ => false,
        }
    }
}

/// The first argument, paired with its parameter, that does not fit it.
pub open spec fn first_mismatch(args: Seq<NativeValue>, params: Seq<NativeType>) -> Option<int> {
    if exists|i: int| 0 <= i < args.len() && i < params.len() && !compatible(args[i], params[i]) {
        Some(
            choose|i: int|
                0 <= i < args.len() && i < params.len() && !compatible(args[i], params[i]) && forall|j: int|
                    0 <= j < i ==> compatible(args[j], params[j]),
        )
    } else {
        None
    }
}

/// A string in double quotes, with `"` and `\` escaped by a backslash.
pub open spec fn quoted(s: Seq<char>) -> Seq<char> {
    "\""@ + escaped(s) + "\""@
}

/// The characters of `s` with `"` and `\` escaped by a backslash.
pub open spec fn escaped(s: Seq<char>) -> Seq<char>
    decreases s.len(),
{
    if s.len() == 0 {
        Seq::empty()
    } else {
        escaped(s.drop_last()) + (if s.last() == '"' || s.last() == '\\' { seq!['\\', s.last()] } else { seq![s.last()] })
    }
}

/// How a native type is written in messages: the variant's name, with its
/// contents in brackets as Rust's debug form writes them.
pub open spec fn type_text(t: NativeType) -> Seq<char>
    decreases t,
{
    match t {
        NativeType::Void => "Void"@,
        NativeType::Bool => "Bool"@,
        NativeType::Int8 => "Int8"@,
        NativeType::Uint8 => "Uint8"@,
        NativeType::Int16 => "Int16"@,
        NativeType::Uint16 => "Uint16"@,
        NativeType::Int32 => "Int32"@,
        NativeType::Uint32 => "Uint32"@,
        NativeType::Int64 => "Int64"@,
        NativeType::Uint64 => "Uint64"@,
        NativeType::Float32 => "Float32"@,
        NativeType::Float64 => "Float64"@,
        NativeType::Pointer(e) => "Pointer("@ + type_text(*e) + ")"@,
        NativeType::CString => "CString"@,
        NativeType::Struct(fields) => "Struct(["@ + fields_text(fields@) + "])"@,
        NativeType::Array(e, n) => "Array("@ + type_text(*e) + ", "@ + decimal(n as nat) + ")"@,
        NativeType::FunctionPointer(f) => "FunctionPointer("@ + signature_text(*f) + ")"@,
    }
}

/// Struct fields written as `("name", Type)`, separated by `, `.
pub open spec fn fields_text(fields: Seq<(String, NativeType)>) -> Seq<char>
    decreases fields,
{
    if fields.len() == 0 {
        Seq::empty()
    } else {
        fields_text(fields.drop_last()) + (if fields.len() > 1 { ", "@ } else { Seq::empty() })
            + "("@ + quoted(fields.last().0@) + ", "@ + type_text(fields.last().1) + ")"@
    }
}

/// Types written one after another, separated by `, `.
pub open spec fn types_text(ts: Seq<NativeType>) -> Seq<char>
    decreases ts,
{
    if ts.len() == 0 {
        Seq::empty()
    } else {
        types_text(ts.drop_last()) + (if ts.len() > 1 { ", "@ } else { Seq::empty() }) + type_text(ts.last())
    }
}

/// The name of a calling convention.
pub open spec fn convention_text(c: CallingConvention) -> Seq<char> {
    match c {
        CallingConvention::C => "C"@,
        CallingConvention::Stdcall => "Stdcall"@,
        CallingConvention::Fastcall => "Fastcall"@,
        CallingConvention::System => "System"@,
    }
}

/// How a function signature is written in messages, field by field.
pub open spec fn signature_text(f: FunctionSignature) -> Seq<char>
    decreases f,
{
    "FunctionSignature { name: "@ + quoted(f.name@) + ", params: ["@ + types_text(f.params@) + "], return_type: "@
        + type_text(f.return_type) + ", calling_convention: "@ + convention_text(f.calling_convention)
        + ", is_variadic: "@ + (if f.is_variadic { "true"@ } else { "false"@ }) + " }"@
}

/// Append `t` in double quotes, escaping `"` and `\`.
fn push_quoted(s: &mut String, t: &str)
    ensures
        final(s)@ == old(s)@ + quoted(t@),
{
    let cs = crate::text::chars_of(t);
    crate::text::push_char(s, '"');
    let ghost start = s@;
    let mut i: usize = 0;
    while i < cs.len()
        invariant
            i <= cs@.len(),
            cs@ == t@,
            s@ == start + escaped(cs@.take(i as int)),
        decreases cs.len() - i,
    {
        let c = cs[i];
        proof {
            assert(cs@.take(i as int + 1).drop_last() =~= cs@.take(i as int));
        }
        if c == '"' || c == '\\' {
            crate::text::push_char(s, '\\');
        }
        crate::text::push_char(s, c);
        proof {
            assert(s@ =~= start + escaped(cs@.take(i as int + 1)));
        }
        i = i + 1;
    }
    assert(cs@.take(i as int) =~= t@);
    crate::text::push_char(s, '"');
    proof {
        reveal_strlit("\"");
        assert(s@ =~= old(s)@ + quoted(t@));
    }
}

impl NativeType {
    /// Append how the type is written in messages.
    #[verifier::loop_isolation(false)]
    #[verifier::spinoff_prover]
    #[verifier::rlimit(60)]
    pub fn push_text(&self, s: &mut String)
        ensures
            final(s)@ == old(s)@ + type_text(*self),
        decreases *self,
    {
        match self {
            NativeType::Void => push_str(s, "Void"),
            NativeType::Bool => push_str(s, "Bool"),
            NativeType::Int8 => push_str(s, "Int8"),
            NativeType::Uint8 => push_str(s, "Uint8"),
            NativeType::Int16 => push_str(s, "Int16"),
            NativeType::Uint16 => push_str(s, "Uint16"),
            NativeType::Int32 => push_str(s, "Int32"),
            NativeType::Uint32 => push_str(s, "Uint32"),
            NativeType::Int64 => push_str(s, "Int64"),
            NativeType::Uint64 => push_str(s, "Uint64"),
            NativeType::Float32 => push_str(s, "Float32"),
            NativeType::Float64 => push_str(s, "Float64"),
            NativeType::CString => push_str(s, "CString"),
            NativeType::Pointer(e) => {
                push_str(s, "Pointer(");
                e.push_text(s);
                push_str(s, ")");
                assert(s@ =~= old(s)@ + type_text(*self));
            },
            NativeType::Array(e, n) => {
                push_str(s, "Array(");
                e.push_text(s);
                push_str(s, ", ");
                push_decimal(s, *n as u64);
                push_str(s, ")");
                assert(s@ =~= old(s)@ + type_text(*self));
            },
            NativeType::FunctionPointer(f) => {
                push_str(s, "FunctionPointer(");
                f.push_text(s);
                push_str(s, ")");
                assert(s@ =~= old(s)@ + type_text(*self));
            },
            NativeType::Struct(fields) => {
                push_str(s, "Struct([");
                let ghost start = s@;
                let mut i: usize = 0;
                while i < fields.len()
                    invariant
                        i <= fields.len(),
                        s@ == start + fields_text(fields@.take(i as int)),
                    decreases fields.len() - i,
                {
                    proof {
                        assert(fields@.take(i as int + 1).drop_last() =~= fields@.take(i as int));
                        vstd::std_specs::vec::axiom_vec_index_decreases(*fields, i as int);
                    }
                    if i > 0 {
                        push_str(s, ", ");
                    }
                    push_str(s, "(");
                    push_quoted(s, fields[i].0.as_str());
                    push_str(s, ", ");
                    fields[i].1.push_text(s);
                    push_str(s, ")");
                    proof {
                        assert(s@ =~= start + fields_text(fields@.take(i as int + 1)));
                    }
                    i = i + 1;
                }
                assert(fields@.take(i as int) =~= fields@);
                push_str(s, "])");
                assert(s@ =~= old(s)@ + type_text(*self));
            },
        }
    }
}

impl FunctionSignature {
    /// Append how the signature is written in messages.
    #[verifier::loop_isolation(false)]
    pub fn push_text(&self, s: &mut String)
        ensures
            final(s)@ == old(s)@ + signature_text(*self),
        decreases *self,
    {
        push_str(s, "FunctionSignature { name: ");
        push_quoted(s, self.name.as_str());
        push_str(s, ", params: [");
        let ghost start = s@;
        let mut i: usize = 0;
        while i < self.params.len()
            invariant
                i <= self.params.len(),
                s@ == start + types_text(self.params@.take(i as int)),
            decreases self.params.len() - i,
        {
            proof {
                assert(self.params@.take(i as int + 1).drop_last() =~= self.params@.take(i as int));
                vstd::std_specs::vec::axiom_vec_index_decreases(self.params, i as int);
            }
            if i > 0 {
                push_str(s, ", ");
            }
            self.params[i].push_text(s);
            proof {
                assert(s@ =~= start + types_text(self.params@.take(i as int + 1)));
            }
            i = i + 1;
        }
        assert(self.params@.take(i as int) =~= self.params@);
        push_str(s, "], return_type: ");
        self.return_type.push_text(s);
        push_str(s, ", calling_convention: ");
        match self.calling_convention {
            CallingConvention::C => push_str(s, "C"),
            CallingConvention::Stdcall => push_str(s, "Stdcall"),
            CallingConvention::Fastcall => push_str(s, "Fastcall"),
            CallingConvention::System => push_str(s, "System"),
        }
        push_str(s, ", is_variadic: ");
        if self.is_variadic {
            push_str(s, "true");
        } else {
            push_str(s, "false");
        }
        push_str(s, " }");
        assert(s@ =~= old(s)@ + signature_text(*self));
    }
}

impl FunctionSignature {
    /// Check the number and types of the arguments of a call.
    ///
    /// A variadic function takes at least its parameters, any other exactly
    /// them; each argument that has a parameter must be compatible with it.
    /// A mismatched type is reported with its index and the expected type in
    /// Rust's debug form.
    pub fn validate_args(&self, args: &Vec<NativeValue>) -> (r: Result<(), Error>)
        ensures
            (self.is_variadic && args@.len() < self.params@.len()) ==> (r matches Err(Error::InternalError(m))
                && m@ == "expected at least "@ + decimal(self.params@.len()) + " arguments for '"@
                + self.name@ + "', got "@ + decimal(args@.len())),
            (!self.is_variadic && args@.len() != self.params@.len()) ==> (r matches Err(Error::InternalError(m))
                && m@ == "expected "@ + decimal(self.params@.len()) + " arguments for '"@ + self.name@
                + "', got "@ + decimal(args@.len())),
            (if self.is_variadic {
                args@.len() >= self.params@.len()
            } else {
                args@.len() == self.params@.len()
            }) ==> match first_mismatch(args@, self.params@) {
                None => r is Ok,
                Some(i) => r matches Err(Error::InternalError(m)) && m@ == "argument "@ + decimal(i as nat)
                    + " for '"@ + self.name@ + "': type mismatch, expected "@ + type_text(self.params@[i]),
            },
    {
        let n_params = self.params.len();
        let n_args = args.len();
        if self.is_variadic {
            if n_args < n_params {
                let mut m = string_of("expected at least ");
                push_decimal(&mut m, n_params as u64);
                push_str(&mut m, " arguments for '");
                push_str(&mut m, self.name.as_str());
                push_str(&mut m, "', got ");
                push_decimal(&mut m, n_args as u64);
                assert(m@ =~= "expected at least "@ + decimal(self.params@.len()) + " arguments for '"@
                    + self.name@ + "', got "@ + decimal(args@.len()));
                return Err(Error::InternalError(m));
            }
        } else if n_args != n_params {
            let mut m = string_of("expected ");
            push_decimal(&mut m, n_params as u64);
            push_str(&mut m, " arguments for '");
            push_str(&mut m, self.name.as_str());
            push_str(&mut m, "', got ");
            push_decimal(&mut m, n_args as u64);
            assert(m@ =~= "expected "@ + decimal(self.params@.len()) + " arguments for '"@ + self.name@
                + "', got "@ + decimal(args@.len()));
            return Err(Error::InternalError(m));
        }
        let mut i: usize = 0;
        while i < n_args && i < n_params
            invariant
                i <= n_args,
                n_args == args@.len(),
                n_params == self.params@.len(),
                self.is_variadic ==> n_args >= n_params,
                !self.is_variadic ==> n_args == n_params,
                forall|j: int| 0 <= j < i ==> compatible(args@[j], self.params@[j]),
            decreases n_args - i,
        {
            if !args[i].is_compatible_with(&self.params[i]) {
                let mut m = string_of("argument ");
                push_decimal(&mut m, i as u64);
                push_str(&mut m, " for '");
                push_str(&mut m, self.name.as_str());
                push_str(&mut m, "': type mismatch, expected ");
                self.params[i].push_text(&mut m);
                proof {
                    let ii = i as int;
                    assert(!compatible(args@[ii], self.params@[ii]));
                    let k = first_mismatch(args@, self.params@);
                    assert(k == Some(ii)) by {
                        let c = choose|c: int|
                            0 <= c < args@.len() && c < self.params@.len() && !compatible(args@[c], self.params@[c])
                                && forall|j: int| 0 <= j < c ==> compatible(args@[j], self.params@[j]);
                        assert(0 <= ii < args@.len() && ii < self.params@.len() && !compatible(args@[ii], self.params@[ii])
                            && forall|j: int| 0 <= j < ii ==> compatible(args@[j], self.params@[j]));
                        if c < ii {
                        } else if c > ii {
                        }
                    }
                }
                return Err(Error::InternalError(m));
            }
            i = i + 1;
        }
        Ok(())
    }
}

/// A function resolved in a native library.
#[derive(Debug)]
pub struct NativeSymbol {
    pub name: String,
    pub signature: FunctionSignature,
    pub address: usize,
    pub call_count: u64,
}

/// Which libraries and symbols native calls may reach.
#[derive(Debug, Clone)]
pub struct FfiPermissions {
    pub allowed_libraries: Option<Vec<String>>,
    pub blocked_symbols: Vec<String>,
    pub max_calls_per_second: u64,
    pub allow_callbacks: bool,
    pub allow_pointer_arithmetic: bool,
}

impl Default for FfiPermissions {
    /// Every library, no blocked symbol, no rate limit, callbacks but no
    /// pointer arithmetic.
    fn default() -> (r: Self)
        ensures
            r.allowed_libraries is None,
            r.blocked_symbols@.len() == 0,
            r.max_calls_per_second == 0,
            r.allow_callbacks,
            !r.allow_pointer_arithmetic,
    {
        FfiPermissions {
            allowed_libraries: None,
            blocked_symbols: Vec::new(),
            max_calls_per_second: 0,
            allow_callbacks: true,
            allow_pointer_arithmetic: false,
        }
    }
}

/// Whether some string of `v` has the text `name`.
pub open spec fn names_contain(v: Seq<String>, name: Seq<char>) -> bool {
    exists|i: int| 0 <= i < v.len() && (#[trigger] v[i])@ == name
}

fn any_equal(v: &Vec<String>, name: &str) -> (r: bool)
    ensures
        r == names_contain(v@, name@),
{
    let mut i: usize = 0;
    while i < v.len()
        invariant
            i <= v.len(),
            forall|j: int| 0 <= j < i ==> (#[trigger] v@[j])@ != name@,
        decreases v.len() - i,
    {
        if crate::text::str_eq(v[i].as_str(), name) {
            return true;
        }
        i = i + 1;
    }
    false
}

impl FfiPermissions {
    /// No library, no callbacks, no pointer arithmetic, 100 calls a second.
    pub fn restrictive() -> (r: Self)
        ensures
            r.allowed_libraries matches Some(v) && v@.len() == 0,
            r.blocked_symbols@.len() == 0,
            r.max_calls_per_second == 100,
            !r.allow_callbacks,
            !r.allow_pointer_arithmetic,
    {
        FfiPermissions {
            allowed_libraries: Some(Vec::new()),
            blocked_symbols: Vec::new(),
            max_calls_per_second: 100,
            allow_callbacks: false,
            allow_pointer_arithmetic: false,
        }
    }

    /// Whether the library may be loaded: any, without an allow list.
    pub fn is_library_allowed(&self, name: &str) -> (r: bool)
        ensures
            r == match self.allowed_libraries {
                None => true,
                Some(allowed) => names_contain(allowed@, name@),
            },
    {
        match &self.allowed_libraries {
            None => true,
            Some(allowed) => any_equal(allowed, name),
        }
    }

    /// Whether the symbol is blocked.
    pub fn is_symbol_blocked(&self, name: &str) -> (r: bool)
        ensures
            r == names_contain(self.blocked_symbols@, name@),
    {
        any_equal(&self.blocked_symbols, name)
    }
}

/// One native call, as logged.
#[derive(Debug, Clone)]
pub struct FfiCallRecord {
    pub library: String,
    pub symbol: String,
    pub arg_count: usize,
    pub success: bool,
    pub duration_us: u64,
    pub timestamp_ms: u64,
}

/// Counters of native calls.
#[derive(Debug, Clone)]
pub struct FfiStats {
    pub total_calls: u64,
    pub successful_calls: u64,
    pub failed_calls: u64,
    pub total_duration_us: u64,
    pub libraries_loaded: u64,
    pub symbols_resolved: u64,
}

impl Default for FfiStats {
    fn default() -> (r: Self)
        ensures
            r.total_calls == 0 && r.successful_calls == 0 && r.failed_calls == 0 && r.total_duration_us == 0
                && r.libraries_loaded == 0 && r.symbols_resolved == 0,
    {
        FfiStats {
            total_calls: 0,
            successful_calls: 0,
            failed_calls: 0,
            total_duration_us: 0,
            libraries_loaded: 0,
            symbols_resolved: 0,
        }
    }
}

/// Conversions between JSON values and native values; see its methods.
pub struct TypeMarshaler;

} // verus!
