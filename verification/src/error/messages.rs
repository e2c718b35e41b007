//! Standard error message templates, following JavaScript conventions.
use vstd::prelude::*;
use crate::text::{push_str, string_of};

verus! {

// Type errors
pub const NOT_A_FUNCTION: &'static str = "is not a function";
pub const NOT_AN_OBJECT: &'static str = "is not an object";
pub const NOT_A_CONSTRUCTOR: &'static str = "is not a constructor";
pub const NOT_ITERABLE: &'static str = "is not iterable";
pub const NOT_A_SYMBOL: &'static str = "is not a symbol";
pub const NOT_A_NUMBER: &'static str = "is not a number";
pub const NOT_A_STRING: &'static str = "is not a string";
pub const NOT_AN_ARRAY: &'static str = "is not an array";

pub const CANNOT_READ_PROPERTY: &'static str = "Cannot read property";
pub const CANNOT_SET_PROPERTY: &'static str = "Cannot set property";
pub const CANNOT_CONVERT_TO: &'static str = "Cannot convert";
pub const CANNOT_CALL_METHOD: &'static str = "Cannot call method";

pub const INVALID_ARGUMENT: &'static str = "Invalid argument";
pub const INVALID_ARRAY_LENGTH: &'static str = "Invalid array length";
pub const INVALID_REGEX: &'static str = "Invalid regular expression";

// Reference errors
pub const IS_NOT_DEFINED: &'static str = "is not defined";
pub const CANNOT_ACCESS_BEFORE_INIT: &'static str = "Cannot access before initialization";

// Range errors
pub const OUT_OF_RANGE: &'static str = "out of range";
pub const PRECISION_OUT_OF_RANGE: &'static str = "precision out of range";
pub const RADIX_OUT_OF_RANGE: &'static str = "radix must be between 2 and 36";
pub const MAXIMUM_CALL_STACK: &'static str = "Maximum call stack size exceeded";

// Syntax errors
pub const UNEXPECTED_TOKEN: &'static str = "Unexpected token";
pub const UNEXPECTED_END: &'static str = "Unexpected end of input";
pub const UNTERMINATED_STRING: &'static str = "Unterminated string literal";
pub const INVALID_LEFT_HAND_SIDE: &'static str = "Invalid left-hand side in assignment";

/// `'name' template`: a quoted name followed by a message template.
pub open spec fn quoted_then(name: Seq<char>, template: Seq<char>) -> Seq<char> {
    "'"@ + name + "' "@ + template
}

fn quoted_then_exec(name: &str, template: &str) -> (r: String)
    ensures
        r@ == quoted_then(name@, template@),
{
    let mut s = string_of("'");
    push_str(&mut s, name);
    push_str(&mut s, "' ");
    push_str(&mut s, template);
    s
}

/// Format a "X is not a function" error message
pub fn not_a_function(name: &str) -> (r: String)
    ensures
        r@ == quoted_then(name@, NOT_A_FUNCTION@),
{
    quoted_then_exec(name, NOT_A_FUNCTION)
}

/// Format a "X is not an object" error message
pub fn not_an_object(name: &str) -> (r: String)
    ensures
        r@ == quoted_then(name@, NOT_AN_OBJECT@),
{
    quoted_then_exec(name, NOT_AN_OBJECT)
}

/// Format a "X is not a constructor" error message
pub fn not_a_constructor(name: &str) -> (r: String)
    ensures
        r@ == quoted_then(name@, NOT_A_CONSTRUCTOR@),
{
    quoted_then_exec(name, NOT_A_CONSTRUCTOR)
}

/// Format a "X is not iterable" error message
pub fn not_iterable(name: &str) -> (r: String)
    ensures
        r@ == quoted_then(name@, NOT_ITERABLE@),
{
    quoted_then_exec(name, NOT_ITERABLE)
}

/// `template 'prop' of target`.
pub open spec fn property_message(template: Seq<char>, prop: Seq<char>, of: Seq<char>) -> Seq<char> {
    template + " '"@ + prop + "' of "@ + of
}

fn property_message_exec(template: &str, prop: &str, of: &str) -> (r: String)
    ensures
        r@ == property_message(template@, prop@, of@),
{
    let mut s = string_of(template);
    push_str(&mut s, " '");
    push_str(&mut s, prop);
    push_str(&mut s, "' of ");
    push_str(&mut s, of);
    s
}

/// Format a "Cannot read property 'X' of Y" error message
pub fn cannot_read_property(prop: &str, of: &str) -> (r: String)
    ensures
        r@ == property_message(CANNOT_READ_PROPERTY@, prop@, of@),
{
    property_message_exec(CANNOT_READ_PROPERTY, prop, of)
}

/// Format a "Cannot set property 'X' of Y" error message
pub fn cannot_set_property(prop: &str, of: &str) -> (r: String)
    ensures
        r@ == property_message(CANNOT_SET_PROPERTY@, prop@, of@),
{
    property_message_exec(CANNOT_SET_PROPERTY, prop, of)
}

/// Format a "Cannot convert X to Y" error message
pub fn cannot_convert(from: &str, to: &str) -> (r: String)
    ensures
        r@ == CANNOT_CONVERT_TO@ + " "@ + from@ + " to "@ + to@,
{
    let mut s = string_of(CANNOT_CONVERT_TO);
    push_str(&mut s, " ");
    push_str(&mut s, from);
    push_str(&mut s, " to ");
    push_str(&mut s, to);
    s
}

/// Format a "X is not defined" error message
pub fn not_defined(name: &str) -> (r: String)
    ensures
        r@ == quoted_then(name@, IS_NOT_DEFINED@),
{
    quoted_then_exec(name, IS_NOT_DEFINED)
}

/// Format a "X.Y is not a function" error message for method calls
pub fn method_not_a_function(obj: &str, method: &str) -> (r: String)
    ensures
        r@ == quoted_then(obj@ + "."@ + method@, NOT_A_FUNCTION@),
{
    let mut s = string_of("'");
    push_str(&mut s, obj);
    push_str(&mut s, ".");
    push_str(&mut s, method);
    push_str(&mut s, "' ");
    push_str(&mut s, NOT_A_FUNCTION);
    assert(s@ =~= quoted_then(obj@ + "."@ + method@, NOT_A_FUNCTION@));
    s
}

/// Format a "X requires Y" error message.
pub fn requires_message(what: &str, requirement: &str) -> (r: String)
    ensures
        r@ == what@ + " requires "@ + requirement@,
{
    let mut s = string_of(what);
    push_str(&mut s, " requires ");
    push_str(&mut s, requirement);
    s
}

/// Format a "X must be Y" error message
pub fn must_be(what: &str, requirement: &str) -> (r: String)
    ensures
        r@ == what@ + " must be "@ + requirement@,
{
    let mut s = string_of(what);
    push_str(&mut s, " must be ");
    push_str(&mut s, requirement);
    s
}

} // verus!
