//! Error types of the runtime, with their source locations, stack traces and
//! the text each one displays as.
use vstd::prelude::*;
use crate::text::{
    push_str, push_decimal, push_padded, push_repeat, string_of, decimal, decimal_string,
    pad_left_spec, repeat_spec, lines_spec, views_of, split_lines,
};

pub mod messages;

verus! {

// ───────────────────────────── Source locations ─────────────────────────────

/// Source location in JavaScript code
#[derive(Debug, Clone, Copy, PartialEq, Eq, Structural)]
pub struct SourceLocation {
    /// Line number (1-indexed)
    pub line: u32,
    /// Column number (1-indexed)
    pub column: u32,
    /// Byte offset in source
    pub offset: usize,
}

impl Default for SourceLocation {
    fn default() -> (r: Self)
        ensures
            r.line == 0 && r.column == 0 && r.offset == 0,
    {
        SourceLocation { line: 0, column: 0, offset: 0 }
    }
}

impl SourceLocation {
    /// `line:column`.
    pub open spec fn text(self) -> Seq<char> {
        decimal(self.line as nat) + ":"@ + decimal(self.column as nat)
    }

    /// The location as it is displayed: `line:column`.
    pub fn display_string(&self) -> (r: String)
        ensures
            r@ == self.text(),
    {
        let mut s = decimal_string(self.line as u64);
        push_str(&mut s, ":");
        push_decimal(&mut s, self.column as u64);
        s
    }
}

// ───────────────────────────── Error context ─────────────────────────────

/// Context for displaying errors with source code snippets
#[derive(Debug, Clone)]
pub struct ErrorContext {
    /// The source line where the error occurred
    pub source_line: Option<String>,
    /// The source file name
    pub file_name: Option<String>,
}

impl Default for ErrorContext {
    fn default() -> (r: Self)
        ensures
            r.source_line is None && r.file_name is None,
    {
        ErrorContext { source_line: None, file_name: None }
    }
}

/// `n - 1`, or 0 for 0.
pub open spec fn minus_one(n: u32) -> nat {
    if n == 0 {
        0
    } else {
        (n - 1) as nat
    }
}

impl ErrorContext {
    /// Create a new error context
    pub fn new() -> (r: Self)
        ensures
            r.source_line is None && r.file_name is None,
    {
        ErrorContext { source_line: None, file_name: None }
    }

    /// Set the source line
    pub fn with_source_line(self, line: String) -> (r: Self)
        ensures
            r.source_line == Some(line),
            r.file_name == self.file_name,
    {
        let mut c = self;
        c.source_line = Some(line);
        c
    }

    /// Set the file name
    pub fn with_file_name(self, file: String) -> (r: Self)
        ensures
            r.file_name == Some(file),
            r.source_line == self.source_line,
    {
        let mut c = self;
        c.file_name = Some(file);
        c
    }

    /// The source line with a caret under `column`, or nothing without a line.
    pub open spec fn pointer_text(self, column: u32) -> Seq<char> {
        match self.source_line {
            Some(line) => "  |\n  | "@ + line@ + "\n  | "@ + repeat_spec(' ', minus_one(column))
                + "^"@,
            None => seq![],
        }
    }

    /// Format the context with a pointer to the error location
    pub fn format_with_pointer(&self, column: u32) -> (r: String)
        ensures
            r@ == self.pointer_text(column),
    {
        match &self.source_line {
            Some(line) => {
                let mut s = string_of("  |\n  | ");
                push_str(&mut s, line.as_str());
                push_str(&mut s, "\n  | ");
                push_repeat(&mut s, ' ', column.saturating_sub(1) as usize);
                push_str(&mut s, "^");
                s
            },
            None => String::new(),
        }
    }
}

/// The width of the line-number gutter: the digits of the line after the
/// error line, and at least three.
pub open spec fn gutter_width(line: u32) -> nat {
    let d = decimal((line + 1) as nat).len();
    if d > 3 {
        d
    } else {
        3
    }
}

/// A numbered source line: the number right-aligned in the gutter, a bar, the
/// text and a newline.
pub open spec fn numbered_line(num: nat, width: nat, text: Seq<char>) -> Seq<char> {
    pad_left_spec(decimal(num), width) + " | "@ + text + "\n"@
}

/// The lines around `loc` in `source`: the line before (when there is one),
/// the error line, a caret under the column, and the line after (when there is
/// one); nothing when the line is past the end of the source.
pub open spec fn error_context_text(source: Seq<char>, loc: SourceLocation) -> Seq<char> {
    let lines = lines_spec(source);
    let idx = minus_one(loc.line) as int;
    if idx >= lines.len() {
        seq![]
    } else {
        let w = gutter_width(loc.line);
        let before = if idx > 0 {
            numbered_line((loc.line - 1) as nat, w, lines[idx - 1])
        } else {
            seq![]
        };
        let pointer = pad_left_spec(seq![], w) + " | "@ + repeat_spec(' ', minus_one(loc.column))
            + "^\n"@;
        let after = if idx + 1 < lines.len() {
            numbered_line((loc.line + 1) as nat, w, lines[idx + 1])
        } else {
            seq![]
        };
        before + numbered_line(loc.line as nat, w, lines[idx]) + pointer + after
    }
}

/// The source texts and locations that the context formatter can number:
/// the line after the error line has a number in `u32`.
pub open spec fn context_fits(source: Seq<char>, loc: SourceLocation) -> bool {
    loc.line == u32::MAX ==> lines_spec(source).len() < u32::MAX
}

fn push_numbered_line(s: &mut String, num: u64, width: usize, text: &str)
    ensures
        final(s)@ == old(s)@ + numbered_line(num as nat, width as nat, text@),
{
    let d = decimal_string(num);
    push_padded(s, d.as_str(), width);
    push_str(s, " | ");
    push_str(s, text);
    push_str(s, "\n");
    assert(final(s)@ =~= old(s)@ + numbered_line(num as nat, width as nat, text@));
}

/// Format a source context with caret pointer for errors
pub fn format_error_context(source: &str, location: &SourceLocation) -> (r: String)
    requires
        context_fits(source@, *location),
    ensures
        r@ == error_context_text(source@, *location),
{
    let lines = split_lines(source);
    let ghost ls = lines_spec(source@);
    assert(lines@.len() == ls.len());
    let line_idx: usize = location.line.saturating_sub(1) as usize;
    if line_idx >= lines.len() {
        return String::new();
    }
    let next = decimal_string(location.line as u64 + 1);
    let digits = next.as_str().unicode_len();
    let width: usize = if digits > 3 {
        digits
    } else {
        3
    };
    let mut result = String::new();
    if line_idx > 0 {
        assert(lines@[line_idx - 1]@ == ls[line_idx - 1]);
        push_numbered_line(&mut result, (location.line - 1) as u64, width, lines[line_idx - 1].as_str());
    }
    let ghost after_before = result@;
    assert(lines@[line_idx as int]@ == ls[line_idx as int]);
    push_numbered_line(&mut result, location.line as u64, width, lines[line_idx].as_str());
    let ghost after_line = result@;
    proof {
        reveal_strlit("");
        assert(""@ =~= Seq::<char>::empty());
    }
    push_padded(&mut result, "", width);
    push_str(&mut result, " | ");
    push_repeat(&mut result, ' ', location.column.saturating_sub(1) as usize);
    push_str(&mut result, "^\n");
    let ghost after_pointer = result@;
    assert(after_pointer =~= after_line + (pad_left_spec(seq![], width as nat) + " | "@
        + repeat_spec(' ', minus_one(location.column)) + "^\n"@));
    if line_idx + 1 < lines.len() {
        assert(lines@[line_idx + 1]@ == ls[line_idx + 1]);
        push_numbered_line(&mut result, location.line as u64 + 1, width, lines[line_idx + 1].as_str());
    }
    assert(result@ =~= error_context_text(source@, *location));
    result
}

// ───────────────────────────── Stack traces ─────────────────────────────

/// A single frame in a JavaScript stack trace
#[derive(Debug, Clone, PartialEq, Eq)]
pub struct StackFrame {
    /// Function name (or `"<anonymous>"` for anonymous functions)
    pub function_name: String,
    /// Source file name (if known)
    pub file_name: Option<String>,
    /// Line number in source (1-indexed)
    pub line: u32,
    /// Column number in source (1-indexed)
    pub column: u32,
    /// Whether this is a native function
    pub is_native: bool,
}

impl StackFrame {
    /// Create a new stack frame
    pub fn new(function_name: &str, line: u32, column: u32) -> (r: Self)
        ensures
            r.function_name@ == function_name@,
            r.file_name is None,
            r.line == line,
            r.column == column,
            !r.is_native,
    {
        StackFrame { function_name: string_of(function_name), file_name: None, line, column, is_native: false }
    }

    /// Create a stack frame for a native function
    pub fn native(function_name: &str) -> (r: Self)
        ensures
            r.function_name@ == function_name@,
            r.file_name is None,
            r.line == 0,
            r.column == 0,
            r.is_native,
    {
        StackFrame { function_name: string_of(function_name), file_name: None, line: 0, column: 0, is_native: true }
    }

    /// Create a stack frame with file name
    pub fn with_file(self, file_name: &str) -> (r: Self)
        ensures
            r.file_name matches Some(f) && f@ == file_name@,
            r.function_name == self.function_name,
            r.line == self.line,
            r.column == self.column,
            r.is_native == self.is_native,
    {
        let mut f = self;
        f.file_name = Some(string_of(file_name));
        f
    }

    /// The frame as a stack trace line shows it.
    pub open spec fn text(self) -> Seq<char> {
        if self.is_native {
            "    at "@ + self.function_name@ + " (native)"@
        } else {
            match self.file_name {
                Some(file) => "    at "@ + self.function_name@ + " ("@ + file@ + ":"@ + decimal(
                    self.line as nat,
                ) + ":"@ + decimal(self.column as nat) + ")"@,
                None => "    at "@ + self.function_name@ + " (<anonymous>:"@ + decimal(
                    self.line as nat,
                ) + ":"@ + decimal(self.column as nat) + ")"@,
            }
        }
    }

    /// The frame as it is displayed in a stack trace.
    pub fn display_string(&self) -> (r: String)
        ensures
            r@ == self.text(),
    {
        let mut s = string_of("    at ");
        push_str(&mut s, self.function_name.as_str());
        if self.is_native {
            push_str(&mut s, " (native)");
        } else {
            match &self.file_name {
                Some(file) => {
                    push_str(&mut s, " (");
                    push_str(&mut s, file.as_str());
                    push_str(&mut s, ":");
                },
                None => {
                    push_str(&mut s, " (<anonymous>:");
                },
            }
            push_decimal(&mut s, self.line as u64);
            push_str(&mut s, ":");
            push_decimal(&mut s, self.column as u64);
            push_str(&mut s, ")");
        }
        assert(s@ =~= self.text());
        s
    }
}

/// The lines of a stack trace: each frame followed by a newline.
pub open spec fn frames_text(frames: Seq<StackFrame>) -> Seq<char>
    decreases frames.len(),
{
    if frames.len() == 0 {
        seq![]
    } else {
        frames_text(frames.drop_last()) + frames.last().text() + "\n"@
    }
}

/// A JavaScript stack trace
#[derive(Debug, Clone)]
pub struct StackTrace {
    /// Stack frames from innermost to outermost
    pub frames: Vec<StackFrame>,
}

impl Default for StackTrace {
    fn default() -> (r: Self)
        ensures
            r.frames@.len() == 0,
    {
        StackTrace { frames: Vec::new() }
    }
}

impl StackTrace {
    /// Create an empty stack trace
    pub fn new() -> (r: Self)
        ensures
            r.frames@.len() == 0,
    {
        StackTrace { frames: Vec::new() }
    }

    /// Add a frame to the stack trace
    pub fn push(&mut self, frame: StackFrame)
        ensures
            final(self).frames@ == old(self).frames@.push(frame),
    {
        self.frames.push(frame);
    }

    /// Check if the stack trace is empty
    pub fn is_empty(&self) -> (r: bool)
        ensures
            r == (self.frames@.len() == 0),
    {
        self.frames.len() == 0
    }

    /// The trace as it is displayed.
    pub fn display_string(&self) -> (r: String)
        ensures
            r@ == frames_text(self.frames@),
    {
        let mut s = String::new();
        let mut i: usize = 0;
        while i < self.frames.len()
            invariant
                i <= self.frames.len(),
                s@ == frames_text(self.frames@.take(i as int)),
            decreases self.frames.len() - i,
        {
            let line = self.frames[i].display_string();
            push_str(&mut s, line.as_str());
            push_str(&mut s, "\n");
            assert(self.frames@.take(i as int + 1).drop_last() =~= self.frames@.take(i as int));
            i = i + 1;
        }
        assert(self.frames@.take(i as int) =~= self.frames@);
        s
    }
}

// ───────────────────────────── Errors ─────────────────────────────

#[verifier::external_type_specification]
#[verifier::external_body]
pub struct ExIoError(std::io::Error);

/// `<std::io::Error as Display>::to_string`: the operating system's wording of
/// an I/O error; nothing is promised of it.
#[verifier::external_body]
fn io_error_text(e: &std::io::Error) -> String {
    e.to_string()
}

/// Main error type for Quicksilver
#[derive(Debug)]
#[allow(inconsistent_fields)]
pub enum Error {
    /// Lexer error - invalid token or character
    LexerError { message: String, location: SourceLocation, source_context: String },
    /// Parser error - invalid syntax
    ParseError { message: String, location: SourceLocation, source_context: String },
    /// Runtime error - TypeError, ReferenceError, etc.
    RuntimeError { kind: ErrorKind, message: String, stack_trace: StackTrace },
    /// Internal compiler error
    InternalError(String),
    /// IO error
    IoError { source: std::io::Error },
    /// Module loading/resolution error
    ModuleError(String),
    /// Resource limit exceeded (security/sandboxing)
    ResourceLimitError { kind: ResourceLimitKind, message: String },
}

/// Resource limit kinds for sandbox enforcement
#[derive(Debug, Clone, Copy, PartialEq, Eq, Structural)]
pub enum ResourceLimitKind {
    /// Execution time limit exceeded
    TimeLimit,
    /// Instruction/operation count limit exceeded
    OperationLimit,
    /// Memory allocation limit exceeded
    MemoryLimit,
    /// Call stack depth limit exceeded
    StackDepthLimit,
}

impl ResourceLimitKind {
    /// The kind's name.
    pub open spec fn text(self) -> Seq<char> {
        match self {
            ResourceLimitKind::TimeLimit => "TimeLimit"@,
            ResourceLimitKind::OperationLimit => "OperationLimit"@,
            ResourceLimitKind::MemoryLimit => "MemoryLimit"@,
            ResourceLimitKind::StackDepthLimit => "StackDepthLimit"@,
        }
    }

    /// The kind as it is displayed: its name.
    pub fn display_string(&self) -> (r: String)
        ensures
            r@ == self.text(),
    {
        match self {
            ResourceLimitKind::TimeLimit => string_of("TimeLimit"),
            ResourceLimitKind::OperationLimit => string_of("OperationLimit"),
            ResourceLimitKind::MemoryLimit => string_of("MemoryLimit"),
            ResourceLimitKind::StackDepthLimit => string_of("StackDepthLimit"),
        }
    }
}

/// JavaScript error kinds
#[derive(Debug, Clone, Copy, PartialEq, Eq, Structural)]
pub enum ErrorKind {
    /// TypeError - wrong type for operation
    TypeError,
    /// ReferenceError - undefined variable
    ReferenceError,
    /// RangeError - value out of range
    RangeError,
    /// SyntaxError - invalid syntax at runtime (e.g., eval)
    SyntaxError,
    /// EvalError - error in eval()
    EvalError,
    /// URIError - malformed URI
    UriError,
    /// Generic Error - user-thrown Error objects
    GenericError,
    /// InternalError - internal engine error
    InternalError,
}

impl ErrorKind {
    /// The JavaScript name of the kind.
    pub open spec fn text(self) -> Seq<char> {
        match self {
            ErrorKind::TypeError => "TypeError"@,
            ErrorKind::ReferenceError => "ReferenceError"@,
            ErrorKind::RangeError => "RangeError"@,
            ErrorKind::SyntaxError => "SyntaxError"@,
            ErrorKind::EvalError => "EvalError"@,
            ErrorKind::UriError => "URIError"@,
            ErrorKind::GenericError => "Error"@,
            ErrorKind::InternalError => "InternalError"@,
        }
    }

    /// The kind as it is displayed: its JavaScript name.
    pub fn display_string(&self) -> (r: String)
        ensures
            r@ == self.text(),
    {
        match self {
            ErrorKind::TypeError => string_of("TypeError"),
            ErrorKind::ReferenceError => string_of("ReferenceError"),
            ErrorKind::RangeError => string_of("RangeError"),
            ErrorKind::SyntaxError => string_of("SyntaxError"),
            ErrorKind::EvalError => string_of("EvalError"),
            ErrorKind::UriError => string_of("URIError"),
            ErrorKind::GenericError => string_of("Error"),
            ErrorKind::InternalError => string_of("InternalError"),
        }
    }
}

/// `message` followed by a newline and `extra`, or `message` alone when
/// `extra` is empty.
pub open spec fn with_tail(message: Seq<char>, extra: Seq<char>) -> Seq<char> {
    if extra.len() == 0 {
        message
    } else {
        message + "\n"@ + extra
    }
}

/// A runtime error of `kind` carrying `message` and an empty stack trace.
pub open spec fn is_runtime_error(e: Error, kind: ErrorKind, message: Seq<char>) -> bool {
    e matches Error::RuntimeError { kind: k, message: m, stack_trace: t } && k == kind && m@
        == message && t.frames@.len() == 0
}

/// A runtime error of `kind` carrying `message` and the given stack trace.
pub open spec fn is_runtime_error_with(
    e: Error,
    kind: ErrorKind,
    message: Seq<char>,
    trace: StackTrace,
) -> bool {
    e matches Error::RuntimeError { kind: k, message: m, stack_trace: t } && k == kind && m@
        == message && t == trace
}

/// A resource limit error of `kind` carrying `message`.
pub open spec fn is_limit_error(e: Error, kind: ResourceLimitKind, message: Seq<char>) -> bool {
    e matches Error::ResourceLimitError { kind: k, message: m } && k == kind && m@ == message
}

fn runtime(kind: ErrorKind, message: &str) -> (r: Error)
    ensures
        is_runtime_error(r, kind, message@),
{
    Error::RuntimeError { kind, message: string_of(message), stack_trace: StackTrace::new() }
}

fn runtime_with(kind: ErrorKind, message: &str, stack_trace: StackTrace) -> (r: Error)
    ensures
        is_runtime_error_with(r, kind, message@, stack_trace),
{
    Error::RuntimeError { kind, message: string_of(message), stack_trace }
}

fn limit_message(a: &str, x: u64, b: &str, y: u64, c: &str) -> (r: String)
    ensures
        r@ == a@ + decimal(x as nat) + b@ + decimal(y as nat) + c@,
{
    let mut s = string_of(a);
    push_decimal(&mut s, x);
    push_str(&mut s, b);
    push_decimal(&mut s, y);
    push_str(&mut s, c);
    s
}

impl Error {
    /// Create a new lexer error
    pub fn lexer_error(message: &str, location: SourceLocation) -> (r: Self)
        ensures
            r matches Error::LexerError { message: m, location: l, source_context: c } && m@
                == message@ && l == location && c@.len() == 0,
    {
        Error::LexerError { message: string_of(message), location, source_context: String::new() }
    }

    /// Create a new lexer error with source context
    pub fn lexer_error_with_context(message: &str, location: SourceLocation, source: &str) -> (r: Self)
        requires
            context_fits(source@, location),
        ensures
            r matches Error::LexerError { message: m, location: l, source_context: c } && m@
                == message@ && l == location && c@ == error_context_text(source@, location),
    {
        Error::LexerError {
            message: string_of(message),
            source_context: format_error_context(source, &location),
            location,
        }
    }

    /// Create a new parse error
    pub fn parse_error(message: &str, location: SourceLocation) -> (r: Self)
        ensures
            r matches Error::ParseError { message: m, location: l, source_context: c } && m@
                == message@ && l == location && c@.len() == 0,
    {
        Error::ParseError { message: string_of(message), location, source_context: String::new() }
    }

    /// Create a new parse error with source context
    pub fn parse_error_with_context(message: &str, location: SourceLocation, source: &str) -> (r: Self)
        requires
            context_fits(source@, location),
        ensures
            r matches Error::ParseError { message: m, location: l, source_context: c } && m@
                == message@ && l == location && c@ == error_context_text(source@, location),
    {
        Error::ParseError {
            message: string_of(message),
            source_context: format_error_context(source, &location),
            location,
        }
    }

    /// Add source context to an existing error
    pub fn with_source_context(self, source: &str) -> (r: Self)
        requires
            (self matches Error::LexerError { location, .. } ==> context_fits(source@, location)),
            (self matches Error::ParseError { location, .. } ==> context_fits(source@, location)),
        ensures
            (self matches Error::LexerError { message, location, .. } ==> r matches Error::LexerError {
                message: m,
                location: l,
                source_context: c,
            } && m == message && l == location && c@ == error_context_text(source@, location)),
            (self matches Error::ParseError { message, location, .. } ==> r matches Error::ParseError {
                message: m,
                location: l,
                source_context: c,
            } && m == message && l == location && c@ == error_context_text(source@, location)),
            !(self is LexerError) && !(self is ParseError) ==> r == self,
    {
        match self {
            Error::LexerError { message, location, .. } => Error::LexerError {
                message,
                source_context: format_error_context(source, &location),
                location,
            },
            Error::ParseError { message, location, .. } => Error::ParseError {
                message,
                source_context: format_error_context(source, &location),
                location,
            },
            other => other,
        }
    }

    /// Create a TypeError
    pub fn type_error(message: &str) -> (r: Self)
        ensures
            is_runtime_error(r, ErrorKind::TypeError, message@),
    {
        runtime(ErrorKind::TypeError, message)
    }

    /// Create a TypeError with stack trace
    pub fn type_error_with_stack(message: &str, stack_trace: StackTrace) -> (r: Self)
        ensures
            is_runtime_error_with(r, ErrorKind::TypeError, message@, stack_trace),
    {
        runtime_with(ErrorKind::TypeError, message, stack_trace)
    }

    /// Create a ReferenceError
    pub fn reference_error(message: &str) -> (r: Self)
        ensures
            is_runtime_error(r, ErrorKind::ReferenceError, message@),
    {
        runtime(ErrorKind::ReferenceError, message)
    }

    /// Create a ReferenceError with stack trace
    pub fn reference_error_with_stack(message: &str, stack_trace: StackTrace) -> (r: Self)
        ensures
            is_runtime_error_with(r, ErrorKind::ReferenceError, message@, stack_trace),
    {
        runtime_with(ErrorKind::ReferenceError, message, stack_trace)
    }

    /// Create a RangeError
    pub fn range_error(message: &str) -> (r: Self)
        ensures
            is_runtime_error(r, ErrorKind::RangeError, message@),
    {
        runtime(ErrorKind::RangeError, message)
    }

    /// Create a RangeError with stack trace
    pub fn range_error_with_stack(message: &str, stack_trace: StackTrace) -> (r: Self)
        ensures
            is_runtime_error_with(r, ErrorKind::RangeError, message@, stack_trace),
    {
        runtime_with(ErrorKind::RangeError, message, stack_trace)
    }

    /// Create a SyntaxError
    pub fn syntax_error(message: &str) -> (r: Self)
        ensures
            is_runtime_error(r, ErrorKind::SyntaxError, message@),
    {
        runtime(ErrorKind::SyntaxError, message)
    }

    /// Create a runtime error with stack trace
    pub fn runtime_error_with_stack(kind: ErrorKind, message: &str, stack_trace: StackTrace) -> (r: Self)
        ensures
            is_runtime_error_with(r, kind, message@, stack_trace),
    {
        runtime_with(kind, message, stack_trace)
    }

    /// Add stack trace to an existing error
    pub fn with_stack_trace(self, stack_trace: StackTrace) -> (r: Self)
        ensures
            (self matches Error::RuntimeError { kind, message, .. } ==> r matches Error::RuntimeError {
                kind: k,
                message: m,
                stack_trace: t,
            } && k == kind && m == message && t == stack_trace),
            !(self is RuntimeError) ==> r == self,
    {
        match self {
            Error::RuntimeError { kind, message, .. } => Error::RuntimeError { kind, message, stack_trace },
            other => other,
        }
    }

    /// Create a time limit exceeded error
    pub fn time_limit_exceeded(elapsed_ms: u64, limit_ms: u64) -> (r: Self)
        ensures
            is_limit_error(
                r,
                ResourceLimitKind::TimeLimit,
                "Execution time limit exceeded: "@ + decimal(elapsed_ms as nat) + "ms elapsed, limit was "@
                    + decimal(limit_ms as nat) + "ms"@,
            ),
    {
        Error::ResourceLimitError {
            kind: ResourceLimitKind::TimeLimit,
            message: limit_message(
                "Execution time limit exceeded: ",
                elapsed_ms,
                "ms elapsed, limit was ",
                limit_ms,
                "ms",
            ),
        }
    }

    /// Create an operation limit exceeded error
    pub fn operation_limit_exceeded(ops: u64, limit: u64) -> (r: Self)
        ensures
            is_limit_error(
                r,
                ResourceLimitKind::OperationLimit,
                "Operation limit exceeded: "@ + decimal(ops as nat) + " operations executed, limit was "@
                    + decimal(limit as nat) + ""@,
            ),
    {
        Error::ResourceLimitError {
            kind: ResourceLimitKind::OperationLimit,
            message: limit_message(
                "Operation limit exceeded: ",
                ops,
                " operations executed, limit was ",
                limit,
                "",
            ),
        }
    }

    /// Create a memory limit exceeded error
    pub fn memory_limit_exceeded(used: usize, limit: usize) -> (r: Self)
        ensures
            is_limit_error(
                r,
                ResourceLimitKind::MemoryLimit,
                "Memory limit exceeded: "@ + decimal(used as nat) + " bytes used, limit was "@ + decimal(
                    limit as nat,
                ) + " bytes"@,
            ),
    {
        Error::ResourceLimitError {
            kind: ResourceLimitKind::MemoryLimit,
            message: limit_message(
                "Memory limit exceeded: ",
                used as u64,
                " bytes used, limit was ",
                limit as u64,
                " bytes",
            ),
        }
    }

    /// Create a stack depth limit exceeded error
    pub fn stack_depth_exceeded(depth: usize, limit: usize) -> (r: Self)
        ensures
            is_limit_error(
                r,
                ResourceLimitKind::StackDepthLimit,
                "Call stack depth limit exceeded: "@ + decimal(depth as nat) + " frames, limit was "@
                    + decimal(limit as nat) + ""@,
            ),
    {
        Error::ResourceLimitError {
            kind: ResourceLimitKind::StackDepthLimit,
            message: limit_message(
                "Call stack depth limit exceeded: ",
                depth as u64,
                " frames, limit was ",
                limit as u64,
                "",
            ),
        }
    }

    /// The text of every error but an I/O error, whose wording comes from the
    /// operating system.
    pub open spec fn text(self) -> Seq<char> {
        match self {
            Error::LexerError { message, location, source_context } => with_tail(
                "SyntaxError: "@ + message@ + " at "@ + location.text(),
                source_context@,
            ),
            Error::ParseError { message, location, source_context } => with_tail(
                "SyntaxError: "@ + message@ + " at "@ + location.text(),
                source_context@,
            ),
            Error::RuntimeError { kind, message, stack_trace } => with_tail(
                kind.text() + ": "@ + message@,
                frames_text(stack_trace.frames@),
            ),
            Error::InternalError(m) => "InternalError: "@ + m@,
            Error::IoError { .. } => "IOError: "@,
            Error::ModuleError(m) => "ModuleError: "@ + m@,
            Error::ResourceLimitError { kind, message } => "ResourceLimitError: "@ + kind.text()
                + ": "@ + message@,
        }
    }

    /// The error as it is displayed.  An I/O error shows `IOError: ` and then
    /// the operating system's wording.
    pub fn display_string(&self) -> (r: String)
        ensures
            !(self is IoError) ==> r@ == self.text(),
            self is IoError ==> r@.len() >= self.text().len() && r@.take(self.text().len() as int)
                == self.text(),
    {
        match self {
            Error::LexerError { message, location, source_context } | Error::ParseError {
                message,
                location,
                source_context,
            } => {
                let mut s = string_of("SyntaxError: ");
                push_str(&mut s, message.as_str());
                push_str(&mut s, " at ");
                let loc = location.display_string();
                push_str(&mut s, loc.as_str());
                if source_context.as_str().unicode_len() > 0 {
                    push_str(&mut s, "\n");
                    push_str(&mut s, source_context.as_str());
                }
                assert(s@ =~= self.text());
                s
            },
            Error::RuntimeError { kind, message, stack_trace } => {
                let mut s = kind.display_string();
                push_str(&mut s, ": ");
                push_str(&mut s, message.as_str());
                proof {
                    lemma_frames_text_nonempty(stack_trace.frames@);
                }
                if !stack_trace.is_empty() {
                    let t = stack_trace.display_string();
                    push_str(&mut s, "\n");
                    push_str(&mut s, t.as_str());
                }
                assert(s@ =~= self.text());
                s
            },
            Error::InternalError(m) => {
                let mut s = string_of("InternalError: ");
                push_str(&mut s, m.as_str());
                s
            },
            Error::IoError { source } => {
                let mut s = string_of("IOError: ");
                let t = io_error_text(source);
                push_str(&mut s, t.as_str());
                assert(s@.take(self.text().len() as int) =~= self.text());
                s
            },
            Error::ModuleError(m) => {
                let mut s = string_of("ModuleError: ");
                push_str(&mut s, m.as_str());
                s
            },
            Error::ResourceLimitError { kind, message } => {
                let mut s = string_of("ResourceLimitError: ");
                let k = kind.display_string();
                push_str(&mut s, k.as_str());
                push_str(&mut s, ": ");
                push_str(&mut s, message.as_str());
                assert(s@ =~= self.text());
                s
            },
        }
    }
}

/// A stack trace with frames has a nonempty text, and one without has none.
pub proof fn lemma_frames_text_nonempty(frames: Seq<StackFrame>)
    ensures
        (frames_text(frames).len() == 0) == (frames.len() == 0),
{
    if frames.len() > 0 {
        assert("\n"@.len() == 1) by {
            reveal_strlit("\n");
        }
    }
}

/// Result type alias for Quicksilver
pub type Result<T> = std::result::Result<T, Error>;

} // verus!
