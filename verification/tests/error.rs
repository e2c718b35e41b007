use quicksilver::error::messages::{
    cannot_convert, cannot_read_property, method_not_a_function, must_be, not_a_function, not_defined,
    requires_message,
};
use quicksilver::error::{format_error_context, Error, ErrorContext, ErrorKind, SourceLocation, StackFrame, StackTrace};

#[test]
fn message_templates() {
    assert_eq!(not_a_function("foo"), "'foo' is not a function");
    assert_eq!(not_defined("x"), "'x' is not defined");
    assert_eq!(cannot_read_property("a", "undefined"), "Cannot read property 'a' of undefined");
    assert_eq!(cannot_convert("undefined", "object"), "Cannot convert undefined to object");
    assert_eq!(method_not_a_function("obj", "m"), "'obj.m' is not a function");
    assert_eq!(requires_message("Promise", "new"), "Promise requires new");
    assert_eq!(must_be("radix", "an integer"), "radix must be an integer");
}

#[test]
fn error_context_lines() {
    let src = "let a = 1;\nlet b = ;\nlet c = 3;";
    let loc = SourceLocation { line: 2, column: 9, offset: 0 };
    assert_eq!(
        format_error_context(src, &loc),
        "  1 | let a = 1;\n  2 | let b = ;\n    |         ^\n  3 | let c = 3;\n"
    );
    let past = SourceLocation { line: 9, column: 1, offset: 0 };
    assert_eq!(format_error_context(src, &past), "");
}

#[test]
fn error_context_pointer() {
    let ctx = ErrorContext::new().with_source_line("x = 1".to_string());
    assert_eq!(ctx.format_with_pointer(3), "  |\n  | x = 1\n  |   ^");
    assert_eq!(ErrorContext::new().format_with_pointer(3), "");
}

#[test]
fn error_display_texts() {
    let e = Error::type_error("x is not a function");
    assert_eq!(e.display_string(), "TypeError: x is not a function");
    let mut trace = StackTrace::new();
    trace.push(StackFrame::new("f", 3, 4).with_file("a.js"));
    trace.push(StackFrame::native("push"));
    assert!(!trace.is_empty());
    let e2 = Error::range_error_with_stack("bad", trace);
    assert_eq!(
        e2.display_string(),
        "RangeError: bad\n    at f (a.js:3:4)\n    at push (native)\n"
    );
    let e3 = Error::lexer_error("oops", SourceLocation { line: 1, column: 2, offset: 0 });
    assert_eq!(e3.display_string(), "SyntaxError: oops at 1:2");
    let e4 = Error::time_limit_exceeded(150, 100);
    assert_eq!(
        e4.display_string(),
        "ResourceLimitError: TimeLimit: Execution time limit exceeded: 150ms elapsed, limit was 100ms"
    );
    assert_eq!(ErrorKind::UriError.display_string(), "URIError");
    assert_eq!(StackFrame::new("g", 1, 2).display_string(), "    at g (<anonymous>:1:2)");
}

#[test]
fn with_source_context_fills_context() {
    let e = Error::parse_error("bad", SourceLocation { line: 1, column: 1, offset: 0 }).with_source_context("x");
    assert_eq!(e.display_string(), "SyntaxError: bad at 1:1\n  1 | x\n    | ^\n");
    let other = Error::InternalError("i".to_string()).with_source_context("x");
    assert_eq!(other.display_string(), "InternalError: i");
}
