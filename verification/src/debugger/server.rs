//! The debug server's reading of HTTP requests: where a request line goes,
//! and the body length that a header announces.
use vstd::prelude::*;
use crate::debugger::console::{is_space, space, split_words, words, unsigned_text, parse_unsigned};
use crate::edge::lowercase_of;
use crate::debugger::{TimeTravelDebugger, ExecutionRecord};
use crate::value::{JsValue, typeof_text};
use crate::text::{chars_of, str_eq, string_from_chars, string_of, push_str, push_decimal, decimal};

verus! {

/// The port the debug server listens on unless told otherwise.
pub const DEFAULT_PORT: u16 = 9229;

/// Where a request is sent.
#[derive(Debug, Clone, PartialEq, Eq)]
pub enum Route {
    /// A CORS preflight (`OPTIONS`, any path).
    Preflight,
    /// `GET /`: the web page.
    WebUi,
    /// `GET /api/state`.
    State,
    /// `GET /api/current`.
    Current,
    /// `GET /api/history`.
    History,
    /// `GET /api/source`.
    Source,
    /// `GET /api/breakpoints`.
    Breakpoints,
    /// `GET /json` or `GET /json/list`: the inspector's target list.
    Discover,
    /// `POST /api/step/next`.
    StepNext,
    /// `POST /api/step/back`.
    StepBack,
    /// `POST /api/breakpoints`.
    AddBreakpoint,
    /// `/api/goto/<step>` with a step number.
    Goto(u64),
    /// `/api/goto/...` without a step number: answered 400.
    InvalidStep,
    /// `/api/changes/<name>`.
    Changes(String),
    /// Anything else: answered 404.
    NotFound,
    /// A request line of fewer than two words: answered 400.
    BadRequest,
}

/// `s` with every leading copy of `pre` taken off.
pub open spec fn strip_prefixes(s: Seq<char>, pre: Seq<char>) -> Seq<char>
    decreases s.len(),
{
    if pre.len() > 0 && s.len() >= pre.len() && s.take(pre.len() as int) == pre {
        strip_prefixes(s.skip(pre.len() as int), pre)
    } else {
        s
    }
}

/// Whether `s` begins with `pre`.
pub open spec fn starts_with(s: Seq<char>, pre: Seq<char>) -> bool {
    s.len() >= pre.len() && s.take(pre.len() as int) == pre
}

/// Where the request line `line` is sent: its first word is the method, its
/// second the path.
pub open spec fn routed(line: Seq<char>, r: Route) -> bool {
    let ws = words(line);
    if ws.len() < 2 {
        r == Route::BadRequest
    } else {
        let m = ws[0];
        let p = ws[1];
        if m == "OPTIONS"@ {
            r == Route::Preflight
        } else if m == "GET"@ && p == "/"@ {
            r == Route::WebUi
        } else if m == "GET"@ && p == "/api/state"@ {
            r == Route::State
        } else if m == "GET"@ && p == "/api/current"@ {
            r == Route::Current
        } else if m == "GET"@ && p == "/api/history"@ {
            r == Route::History
        } else if m == "GET"@ && p == "/api/source"@ {
            r == Route::Source
        } else if m == "GET"@ && p == "/api/breakpoints"@ {
            r == Route::Breakpoints
        } else if m == "GET"@ && (p == "/json"@ || p == "/json/list"@) {
            r == Route::Discover
        } else if m == "POST"@ && p == "/api/step/next"@ {
            r == Route::StepNext
        } else if m == "POST"@ && p == "/api/step/back"@ {
            r == Route::StepBack
        } else if m == "POST"@ && p == "/api/breakpoints"@ {
            r == Route::AddBreakpoint
        } else if starts_with(p, "/api/goto/"@) {
            match unsigned_text(strip_prefixes(p, "/api/goto/"@)) {
                Some(n) => if n <= u64::MAX {
                    r == Route::Goto(n as u64)
                } else {
                    r == Route::InvalidStep
                },
                None => r == Route::InvalidStep,
            }
        } else if starts_with(p, "/api/changes/"@) {
            r matches Route::Changes(name) && name@ == strip_prefixes(p, "/api/changes/"@)
        } else {
            r == Route::NotFound
        }
    }
}

pub(crate) fn has_prefix(s: &Vec<char>, from: usize, pre: &Vec<char>) -> (r: bool)
    requires
        from <= s@.len(),
    ensures
        r == starts_with(s@.skip(from as int), pre@),
{
    if s.len() - from < pre.len() {
        return false;
    }
    let mut i: usize = 0;
    while i < pre.len()
        invariant
            from + pre@.len() <= s@.len(),
            s@.len() == s.len(),
            i <= pre@.len(),
            forall|j: int| 0 <= j < i ==> s@[from + j] == pre@[j],
        decreases pre.len() - i,
    {
        if s[from + i] != pre[i] {
            assert(s@.skip(from as int).take(pre@.len() as int)[i as int] != pre@[i as int]);
            return false;
        }
        i = i + 1;
    }
    assert(s@.skip(from as int).take(pre@.len() as int) =~= pre@);
    true
}

/// `s` with every leading copy of `pre` taken off.
fn strip_all(s: &str, pre: &str) -> (r: String)
    ensures
        r@ == strip_prefixes(s@, pre@),
{
    let cs = chars_of(s);
    let ps = chars_of(pre);
    let mut from: usize = 0;
    assert(cs@.skip(0) =~= cs@);
    while ps.len() > 0 && has_prefix(&cs, from, &ps)
        invariant
            from <= cs@.len(),
            cs@ == s@,
            ps@ == pre@,
            strip_prefixes(cs@.skip(from as int), ps@) == strip_prefixes(s@, pre@),
        decreases cs.len() - from,
    {
        assert(cs@.skip(from as int).skip(ps@.len() as int) =~= cs@.skip(from + ps.len()));
        from = from + ps.len();
    }
    let mut out: Vec<char> = Vec::new();
    let mut i: usize = from;
    while i < cs.len()
        invariant
            from <= i <= cs@.len(),
            out@ == cs@.subrange(from as int, i as int),
        decreases cs.len() - i,
    {
        out.push(cs[i]);
        assert(out@ =~= cs@.subrange(from as int, i + 1));
        i = i + 1;
    }
    assert(out@ =~= cs@.skip(from as int));
    string_from_chars(&out)
}

/// Where a request line is sent.
pub fn route_request(line: &str) -> (r: Route)
    ensures
        routed(line@, r),
{
    let ws = split_words(line);
    proof {
        assert(ws@.len() == words(line@).len());
        if ws@.len() > 1 {
            assert(ws@[0]@ == words(line@)[0]);
            assert(ws@[1]@ == words(line@)[1]);
        }
    }
    if ws.len() < 2 {
        return Route::BadRequest;
    }
    let m = ws[0].as_str();
    let p = ws[1].as_str();
    let get = str_eq(m, "GET");
    let post = str_eq(m, "POST");
    if str_eq(m, "OPTIONS") {
        Route::Preflight
    } else if get && str_eq(p, "/") {
        Route::WebUi
    } else if get && str_eq(p, "/api/state") {
        Route::State
    } else if get && str_eq(p, "/api/current") {
        Route::Current
    } else if get && str_eq(p, "/api/history") {
        Route::History
    } else if get && str_eq(p, "/api/source") {
        Route::Source
    } else if get && str_eq(p, "/api/breakpoints") {
        Route::Breakpoints
    } else if get && (str_eq(p, "/json") || str_eq(p, "/json/list")) {
        Route::Discover
    } else if post && str_eq(p, "/api/step/next") {
        Route::StepNext
    } else if post && str_eq(p, "/api/step/back") {
        Route::StepBack
    } else if post && str_eq(p, "/api/breakpoints") {
        Route::AddBreakpoint
    } else if has_prefix(&chars_of(p), 0, &chars_of("/api/goto/")) {
        proof {
            assert(p@.skip(0) =~= p@);
        }
        let rest = strip_all(p, "/api/goto/");
        match parse_unsigned(rest.as_str(), u64::MAX) {
            Some(n) => Route::Goto(n),
            None => Route::InvalidStep,
        }
    } else if has_prefix(&chars_of(p), 0, &chars_of("/api/changes/")) {
        proof {
            assert(p@.skip(0) =~= p@);
        }
        Route::Changes(strip_all(p, "/api/changes/"))
    } else {
        proof {
            assert(p@.skip(0) =~= p@);
        }
        Route::NotFound
    }
}

/// The characters of `s` from the first `:` on up to the next `:` (or the
/// end); none when `s` has no `:`.
pub open spec fn second_field(s: Seq<char>) -> Option<Seq<char>>
    decreases s.len(),
{
    if s.len() == 0 {
        None
    } else if s[0] == ':' {
        Some(field_until_colon(s.drop_first()))
    } else {
        second_field(s.drop_first())
    }
}

/// The characters of `s` before its first `:`.
pub open spec fn field_until_colon(s: Seq<char>) -> Seq<char>
    decreases s.len(),
{
    if s.len() == 0 || s[0] == ':' {
        seq![]
    } else {
        seq![s[0]] + field_until_colon(s.drop_first())
    }
}

/// `s` without the white space at either end.
pub open spec fn trimmed(s: Seq<char>) -> Seq<char>
    decreases s.len(),
{
    if s.len() > 0 && is_space(s[0]) {
        trimmed(s.drop_first())
    } else if s.len() > 0 && is_space(s.last()) {
        trimmed(s.drop_last())
    } else {
        s
    }
}

/// The body length a request header announces: for a header whose lower
/// case begins with `content-length:`, the number between its first and
/// second `:` with the white space at either end taken off, or 0 when that
/// is no number that fits; none for any other header.
pub open spec fn announced_length(header: Seq<char>) -> Option<usize> {
    if starts_with(lowercase_of(header), "content-length:"@) {
        Some(
            match second_field(header) {
                Some(f) => match unsigned_text(trimmed(f)) {
                    Some(n) => if n <= usize::MAX {
                        n as usize
                    } else {
                        0
                    },
                    None => 0,
                },
                None => 0,
            },
        )
    } else {
        None
    }
}

/// The body length a request header announces, if it is a
/// `content-length` header.
pub fn content_length(header: &str) -> (r: Option<usize>)
    ensures
        r == announced_length(header@),
{
    let lower = crate::edge::to_lowercase(header);
    let lc = chars_of(lower.as_str());
    let tag = chars_of("content-length:");
    if !has_prefix(&lc, 0, &tag) {
        proof {
            assert(lc@.skip(0) =~= lc@);
        }
        return None;
    }
    proof {
        assert(lc@.skip(0) =~= lc@);
    }
    let cs = chars_of(header);
    let mut i: usize = 0;
    assert(cs@.skip(0) =~= cs@);
    while i < cs.len() && cs[i] != ':'
        invariant
            i <= cs@.len(),
            cs@ == header@,
            second_field(cs@.skip(i as int)) == second_field(header@),
        decreases cs.len() - i,
    {
        assert(cs@.skip(i as int).drop_first() =~= cs@.skip(i + 1));
        i = i + 1;
    }
    if i == cs.len() {
        assert(cs@.skip(i as int) =~= Seq::<char>::empty());
        return Some(0);
    }
    assert(cs@.skip(i as int)[0] == ':');
    assert(cs@.skip(i as int).drop_first() =~= cs@.skip(i + 1));
    let start = i + 1;
    let mut end = start;
    assert(cs@.subrange(start as int, start as int) + field_until_colon(cs@.skip(start as int)) =~= field_until_colon(
        cs@.skip(start as int),
    ));
    while end < cs.len() && cs[end] != ':'
        invariant
            start <= end <= cs@.len(),
            cs@ == header@,
            field_until_colon(cs@.skip(start as int)) == cs@.subrange(start as int, end as int) + field_until_colon(
                cs@.skip(end as int),
            ),
        decreases cs.len() - end,
    {
        assert(cs@.skip(end as int).drop_first() =~= cs@.skip(end + 1));
        assert(cs@.subrange(start as int, end + 1) =~= cs@.subrange(start as int, end as int) + seq![cs@[end as int]]);
        end = end + 1;
    }
    proof {
        if end == cs.len() {
            assert(cs@.skip(end as int) =~= Seq::<char>::empty());
        } else {
            assert(cs@.skip(end as int)[0] == ':');
        }
        assert(cs@.subrange(start as int, end as int) + Seq::<char>::empty() =~= cs@.subrange(start as int, end as int));
    }
    let mut lo = start;
    let mut hi = end;
    while lo < hi && space(cs[lo])
        invariant
            start <= lo <= hi <= end,
            end <= cs@.len(),
            hi == end,
            cs@ == header@,
            trimmed(cs@.subrange(lo as int, hi as int)) == trimmed(cs@.subrange(start as int, end as int)),
        decreases hi - lo,
    {
        assert(cs@.subrange(lo as int, hi as int).drop_first() =~= cs@.subrange(lo + 1, hi as int));
        assert(cs@.subrange(lo as int, hi as int)[0] == cs@[lo as int]);
        lo = lo + 1;
    }
    while lo < hi && space(cs[hi - 1])
        invariant
            start <= lo <= hi <= end,
            end <= cs@.len(),
            cs@ == header@,
            lo < hi ==> !is_space(cs@[lo as int]),
            trimmed(cs@.subrange(lo as int, hi as int)) == trimmed(cs@.subrange(start as int, end as int)),
        decreases hi - lo,
    {
        let ghost t = cs@.subrange(lo as int, hi as int);
        assert(t.drop_last() =~= cs@.subrange(lo as int, hi - 1));
        assert(t[0] == cs@[lo as int]);
        assert(t.last() == cs@[hi - 1]);
        hi = hi - 1;
    }
    let mut field: Vec<char> = Vec::new();
    let mut k: usize = lo;
    while k < hi
        invariant
            lo <= k <= hi,
            hi <= cs@.len(),
            field@ == cs@.subrange(lo as int, k as int),
        decreases hi - k,
    {
        field.push(cs[k]);
        assert(field@ =~= cs@.subrange(lo as int, k + 1));
        k = k + 1;
    }
    proof {
        let t = cs@.subrange(lo as int, hi as int);
        if t.len() > 0 {
            assert(t[0] == cs@[lo as int]);
            assert(t.last() == cs@[hi - 1]);
        }
        assert(trimmed(t) == t);
    }
    let text = string_from_chars(&field);
    match parse_unsigned(text.as_str(), usize::MAX as u64) {
        Some(n) => Some(n as usize),
        None => Some(0),
    }
}

// ───────────────────────────── Responses ─────────────────────────────

/// The number of bytes of a text in UTF-8, as `str::len` gives it.
pub open spec fn byte_len(t: Seq<char>) -> nat {
    (vstd::utf8::encode_utf8(t).len() as usize) as nat
}

/// The response carrying a JSON text, which any origin may read.
pub open spec fn json_response_text(json: Seq<char>) -> Seq<char> {
    "HTTP/1.1 200 OK\r\nContent-Type: application/json\r\nAccess-Control-Allow-Origin: *\r\nContent-Length: "@
        + decimal(byte_len(json)) + "\r\n\r\n"@ + json
}

/// The response carrying a web page.
pub open spec fn html_response_text(html: Seq<char>) -> Seq<char> {
    "HTTP/1.1 200 OK\r\nContent-Type: text/html; charset=utf-8\r\nContent-Length: "@ + decimal(byte_len(html))
        + "\r\n\r\n"@ + html
}

/// The reason phrase of an error status.
pub open spec fn error_reason(code: u16) -> Seq<char> {
    if code == 400 {
        "Bad Request"@
    } else if code == 404 {
        "Not Found"@
    } else if code == 500 {
        "Internal Server Error"@
    } else {
        "Error"@
    }
}

/// The JSON body of an error response.
pub open spec fn error_body(message: Seq<char>) -> Seq<char> {
    "{\"error\": \""@ + message + "\"}"@
}

/// The response for an error: its status, and its message in a JSON body.
pub open spec fn error_response_text(code: u16, message: Seq<char>) -> Seq<char> {
    "HTTP/1.1 "@ + decimal(code as nat) + " "@ + error_reason(code) + "\r\nContent-Type: application/json\r\nContent-Length: "@
        + decimal(byte_len(error_body(message))) + "\r\n\r\n"@ + error_body(message)
}

/// The answer to a CORS preflight.
pub open spec fn preflight_response_text() -> Seq<char> {
    "HTTP/1.1 204 No Content\r\nAccess-Control-Allow-Origin: *\r\nAccess-Control-Allow-Methods: GET, POST, OPTIONS\r\nAccess-Control-Allow-Headers: Content-Type\r\nAccess-Control-Max-Age: 86400\r\nContent-Length: 0\r\n\r\n"@
}

/// The response carrying a JSON text.
pub fn json_response(json: &str) -> (r: String)
    ensures
        r@ == json_response_text(json@),
{
    let mut r = string_of(
        "HTTP/1.1 200 OK\r\nContent-Type: application/json\r\nAccess-Control-Allow-Origin: *\r\nContent-Length: ",
    );
    push_decimal(&mut r, json.len() as u64);
    push_str(&mut r, "\r\n\r\n");
    push_str(&mut r, json);
    assert(r@ =~= json_response_text(json@));
    r
}

/// The response carrying a web page.
pub fn html_response(html: &str) -> (r: String)
    ensures
        r@ == html_response_text(html@),
{
    let mut r = string_of("HTTP/1.1 200 OK\r\nContent-Type: text/html; charset=utf-8\r\nContent-Length: ");
    push_decimal(&mut r, html.len() as u64);
    push_str(&mut r, "\r\n\r\n");
    push_str(&mut r, html);
    assert(r@ =~= html_response_text(html@));
    r
}

/// The response for an error.
pub fn error_response(code: u16, message: &str) -> (r: String)
    ensures
        r@ == error_response_text(code, message@),
{
    let mut body = string_of("{\"error\": \"");
    push_str(&mut body, message);
    push_str(&mut body, "\"}");
    let reason = if code == 400 {
        "Bad Request"
    } else if code == 404 {
        "Not Found"
    } else if code == 500 {
        "Internal Server Error"
    } else {
        "Error"
    };
    let mut r = string_of("HTTP/1.1 ");
    push_decimal(&mut r, code as u64);
    push_str(&mut r, " ");
    push_str(&mut r, reason);
    push_str(&mut r, "\r\nContent-Type: application/json\r\nContent-Length: ");
    push_decimal(&mut r, body.as_str().len() as u64);
    push_str(&mut r, "\r\n\r\n");
    push_str(&mut r, body.as_str());
    assert(body@ =~= error_body(message@));
    assert(r@ =~= error_response_text(code, message@));
    r
}

/// The answer to a CORS preflight.
pub fn preflight_response() -> (r: String)
    ensures
        r@ == preflight_response_text(),
{
    string_of(
        "HTTP/1.1 204 No Content\r\nAccess-Control-Allow-Origin: *\r\nAccess-Control-Allow-Methods: GET, POST, OPTIONS\r\nAccess-Control-Allow-Headers: Content-Type\r\nAccess-Control-Max-Age: 86400\r\nContent-Length: 0\r\n\r\n",
    )
}

// ───────────────────────────── Answers of the API ─────────────────────────────

/// The debugger's state as the API reports it.
#[derive(Debug, Clone, PartialEq, Eq)]
pub struct DebuggerState {
    pub current_step: u64,
    pub total_steps: u64,
    pub current_line: u32,
    pub current_position: usize,
    pub history_size: usize,
    pub is_paused: bool,
    pub filename: String,
}

/// One local variable as the API reports it.
#[derive(Debug, Clone, PartialEq, Eq)]
pub struct VariableInfo {
    pub name: String,
    pub value: String,
    pub var_type: String,
}

/// One execution step as the API reports it.
#[derive(Debug, Clone, PartialEq, Eq)]
pub struct RecordResponse {
    pub step: u64,
    pub line: u32,
    pub description: String,
    pub stack_size: usize,
    pub locals: Vec<VariableInfo>,
}

/// One entry of the history as the API reports it.
#[derive(Debug, Clone, PartialEq, Eq)]
pub struct HistoryEntry {
    pub step: u64,
    pub line: u32,
    pub description: String,
    pub is_current: bool,
}

/// One change of a variable as the API reports it.
#[derive(Debug, Clone, PartialEq, Eq)]
pub struct ChangeEntry {
    pub step: u64,
    pub old_value: Option<String>,
    pub new_value: String,
}

/// One breakpoint as the API reports it.
#[derive(Debug, Clone, PartialEq, Eq)]
pub struct BreakpointInfo {
    pub line: u32,
    pub enabled: bool,
    pub hit_count: u64,
    pub condition: Option<String>,
}

/// The debugged source as the API reports it.
#[derive(Debug, Clone, PartialEq, Eq)]
pub struct SourceInfo {
    pub filename: String,
    pub lines: Vec<String>,
    pub total_lines: usize,
}

/// The step at the debugger's position, if its history has one.
pub open spec fn current_step_of(d: TimeTravelDebugger) -> Option<ExecutionRecord> {
    if d.position() < d.steps().len() {
        Some(d.steps()[d.position() as int])
    } else {
        None
    }
}

/// The state the API reports of a debugger: the current step's number and
/// line (0 without one), the step counter, the position, the history's
/// size, the pause flag and the file.
pub fn api_state(d: &TimeTravelDebugger) -> (r: DebuggerState)
    ensures
        r.current_step == match current_step_of(*d) {
            Some(e) => e.step,
            None => 0,
        },
        r.current_line == match current_step_of(*d) {
            Some(e) => e.line,
            None => 0,
        },
        r.total_steps == d.counter(),
        r.current_position == d.position(),
        r.history_size == d.steps().len(),
        r.is_paused == d.is_paused_spec(),
        r.filename@ == d.file(),
{
    let info = d.recording_info();
    let (current_step, current_line) = match d.current() {
        Some(e) => (e.step, e.line),
        None => (0, 0),
    };
    DebuggerState {
        current_step,
        total_steps: info.total_steps,
        current_line,
        current_position: info.current_position,
        history_size: info.history_size,
        is_paused: d.is_paused(),
        filename: info.filename,
    }
}

/// A step as the API reports it, each local with the text `shown` gives it
/// and its `typeof`.
pub fn record_response(e: &ExecutionRecord, shown: &Vec<String>) -> (r: RecordResponse)
    requires
        shown@.len() == e.locals@.len(),
    ensures
        r.step == e.step,
        r.line == e.line,
        r.description@ == e.description@,
        r.stack_size == e.stack_size,
        r.locals@.len() == e.locals@.len(),
        forall|i: int| 0 <= i < r.locals@.len() ==> {
            &&& (#[trigger] r.locals@[i]).name@ == e.locals@[i].0@
            &&& r.locals@[i].value@ == shown@[i]@
            &&& r.locals@[i].var_type@ == typeof_text(e.locals@[i].1@)
        },
{
    let mut locals: Vec<VariableInfo> = Vec::new();
    let mut i: usize = 0;
    while i < e.locals.len()
        invariant
            i <= e.locals@.len(),
            shown@.len() == e.locals@.len(),
            locals@.len() == i,
            forall|j: int| 0 <= j < i ==> {
                &&& (#[trigger] locals@[j]).name@ == e.locals@[j].0@
                &&& locals@[j].value@ == shown@[j]@
                &&& locals@[j].var_type@ == typeof_text(e.locals@[j].1@)
            },
        decreases e.locals.len() - i,
    {
        let t = e.locals[i].1.type_of();
        locals.push(
            VariableInfo { name: e.locals[i].0.clone(), value: shown[i].clone(), var_type: string_of(t) },
        );
        i = i + 1;
    }
    RecordResponse {
        step: e.step,
        line: e.line,
        description: e.description.clone(),
        stack_size: e.stack_size,
        locals,
    }
}

/// The history as the API reports it: every step, the one at the position
/// marked current.
pub fn history_entries(d: &TimeTravelDebugger) -> (r: Vec<HistoryEntry>)
    ensures
        r@.len() == d.steps().len(),
        forall|i: int| 0 <= i < r@.len() ==> {
            &&& (#[trigger] r@[i]).step == d.steps()[i].step
            &&& r@[i].line == d.steps()[i].line
            &&& r@[i].description@ == d.steps()[i].description@
            &&& r@[i].is_current == (i == d.position())
        },
{
    let h = d.history();
    let pos = d.recording_info().current_position;
    let mut out: Vec<HistoryEntry> = Vec::new();
    let mut i: usize = 0;
    while i < h.len()
        invariant
            i <= h@.len(),
            h@ == d.steps(),
            pos == d.position(),
            out@.len() == i,
            forall|j: int| 0 <= j < i ==> {
                &&& (#[trigger] out@[j]).step == d.steps()[j].step
                &&& out@[j].line == d.steps()[j].line
                &&& out@[j].description@ == d.steps()[j].description@
                &&& out@[j].is_current == (j == d.position())
            },
        decreases h.len() - i,
    {
        out.push(HistoryEntry { step: h[i].step, line: h[i].line, description: h[i].description.clone(), is_current: i == pos });
        i = i + 1;
    }
    out
}

/// The changes of a variable as the API reports them: each step with the
/// text `shown` gives its new value, no old value.
pub fn change_entries(changes: &Vec<(u64, JsValue)>, shown: &Vec<String>) -> (r: Vec<ChangeEntry>)
    requires
        shown@.len() == changes@.len(),
    ensures
        r@.len() == changes@.len(),
        forall|i: int| 0 <= i < r@.len() ==> {
            &&& (#[trigger] r@[i]).step == changes@[i].0
            &&& r@[i].old_value is None
            &&& r@[i].new_value@ == shown@[i]@
        },
{
    let mut out: Vec<ChangeEntry> = Vec::new();
    let mut i: usize = 0;
    while i < changes.len()
        invariant
            i <= changes@.len(),
            shown@.len() == changes@.len(),
            out@.len() == i,
            forall|j: int| 0 <= j < i ==> {
                &&& (#[trigger] out@[j]).step == changes@[j].0
                &&& out@[j].old_value is None
                &&& out@[j].new_value@ == shown@[j]@
            },
        decreases changes.len() - i,
    {
        out.push(ChangeEntry { step: changes[i].0, old_value: None, new_value: shown[i].clone() });
        i = i + 1;
    }
    out
}

/// The breakpoints as the API reports them: each line's breakpoint once,
/// in an order the table's hasher decides.
pub fn breakpoint_infos(d: &TimeTravelDebugger) -> (r: Vec<BreakpointInfo>)
    ensures
        forall|i: int| 0 <= i < r@.len() ==> d.line_breakpoints().contains_key((#[trigger] r@[i]).line) && {
            let b = d.line_breakpoints()[r@[i].line];
            &&& r@[i].enabled == b.enabled
            &&& r@[i].hit_count == b.hit_count
            &&& r@[i].condition == b.condition
        },
        forall|i: int, j: int| 0 <= i < j < r@.len() ==> (#[trigger] r@[i]).line != (#[trigger] r@[j]).line,
        forall|l: u32| d.line_breakpoints().contains_key(l) ==> exists|i: int| 0 <= i < r@.len() && (#[trigger] r@[i]).line == l,
{
    let lines = d.breakpoint_lines();
    let mut out: Vec<BreakpointInfo> = Vec::new();
    let mut i: usize = 0;
    while i < lines.len()
        invariant
            i <= lines@.len(),
            forall|k: int| 0 <= k < lines@.len() ==> d.line_breakpoints().contains_key(#[trigger] lines@[k]),
            lines@.no_duplicates(),
            out@.len() == i,
            forall|j: int| 0 <= j < i ==> (#[trigger] out@[j]).line == lines@[j] && {
                let b = d.line_breakpoints()[lines@[j]];
                &&& out@[j].enabled == b.enabled
                &&& out@[j].hit_count == b.hit_count
                &&& out@[j].condition == b.condition
            },
        decreases lines.len() - i,
    {
        let l = lines[i];
        assert(d.line_breakpoints().contains_key(lines@[i as int]));
        match d.breakpoint_at(l) {
            Some(b) => {
                out.push(BreakpointInfo { line: l, enabled: b.enabled, hit_count: b.hit_count, condition: b.condition.clone() });
            },
            None => {
                assert(false);
            },
        }
        i = i + 1;
    }
    assert forall|l: u32| d.line_breakpoints().contains_key(l) implies exists|k: int| 0 <= k < out@.len() && (#[trigger] out@[k]).line == l by {
        assert(lines@.contains(l));
        let k = choose|k: int| 0 <= k < lines@.len() && lines@[k] == l;
        assert(out@[k].line == l);
    }
    out
}

/// `t` without the white space at either end.
pub fn trim_text(t: &str) -> (r: String)
    ensures
        r@ == trimmed(t@),
{
    let cs = chars_of(t);
    let mut lo: usize = 0;
    let mut hi: usize = cs.len();
    assert(cs@.subrange(0, cs@.len() as int) =~= cs@);
    while lo < hi && space(cs[lo])
        invariant
            lo <= hi <= cs@.len(),
            hi == cs@.len(),
            cs@ == t@,
            trimmed(cs@.subrange(lo as int, hi as int)) == trimmed(t@),
        decreases hi - lo,
    {
        assert(cs@.subrange(lo as int, hi as int).drop_first() =~= cs@.subrange(lo + 1, hi as int));
        assert(cs@.subrange(lo as int, hi as int)[0] == cs@[lo as int]);
        lo = lo + 1;
    }
    while lo < hi && space(cs[hi - 1])
        invariant
            lo <= hi <= cs@.len(),
            cs@ == t@,
            lo < hi ==> !is_space(cs@[lo as int]),
            trimmed(cs@.subrange(lo as int, hi as int)) == trimmed(t@),
        decreases hi - lo,
    {
        let ghost u = cs@.subrange(lo as int, hi as int);
        assert(u.drop_last() =~= cs@.subrange(lo as int, hi - 1));
        assert(u[0] == cs@[lo as int]);
        assert(u.last() == cs@[hi - 1]);
        hi = hi - 1;
    }
    let mut out: Vec<char> = Vec::new();
    let mut k: usize = lo;
    while k < hi
        invariant
            lo <= k <= hi,
            hi <= cs@.len(),
            out@ == cs@.subrange(lo as int, k as int),
        decreases hi - k,
    {
        out.push(cs[k]);
        assert(out@ =~= cs@.subrange(lo as int, k + 1));
        k = k + 1;
    }
    proof {
        let u = cs@.subrange(lo as int, hi as int);
        if u.len() > 0 {
            assert(u[0] == cs@[lo as int]);
            assert(u.last() == cs@[hi - 1]);
        }
        assert(trimmed(u) == u);
    }
    string_from_chars(&out)
}

} // verus!
