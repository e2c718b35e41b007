//! Edge function runtime: HTTP methods, headers, requests with their URL
//! components, responses, fetch events and the runtime's configuration.
use vstd::prelude::*;
use std::collections::HashMap;
use std::time::Duration;
use rustc_hash::FxBuildHasher;
use crate::error::{Error, is_runtime_error, ErrorKind};
use crate::text::{push_str, push_char, string_of, chars_of, string_from_chars, decimal, push_decimal};
use crate::value::JsValue;
use crate::event_loop::{duration_from_secs, duration_nanos};

verus! {

// ───────────────────────────── Outside helpers ─────────────────────────────

#[verifier::external_type_specification]
#[verifier::external_body]
pub struct ExFxBuildHasher(FxBuildHasher);

/// A string-keyed map hashed with `rustc_hash`.
pub type FxStringMap = HashMap<String, String, FxBuildHasher>;

/// The entries of a string-keyed map.
pub uninterp spec fn fx_contents(m: FxStringMap) -> Map<Seq<char>, Seq<char>>;

/// The map with no entries.
pub open spec fn no_entries() -> Map<Seq<char>, Seq<char>> {
    Map::empty()
}

/// `FxHashMap::default`: an empty map.
#[verifier::external_body]
fn fx_new() -> (r: FxStringMap)
    ensures
        fx_contents(r) == no_entries(),
{
    HashMap::default()
}

/// `HashMap::insert`: the key now maps to the value; other keys keep theirs.
#[verifier::external_body]
fn fx_insert(m: &mut FxStringMap, key: String, value: String)
    ensures
        fx_contents(*final(m)) == fx_contents(*old(m)).insert(key@, value@),
{
    m.insert(key, value);
}

/// `HashMap::get`: the value of the key, if it has one.
#[verifier::external_body]
fn fx_get<'a>(m: &'a FxStringMap, key: &str) -> (r: Option<&'a String>)
    ensures
        match r {
            Some(v) => fx_contents(*m).contains_key(key@) && fx_contents(*m)[key@] == v@,
            None => !fx_contents(*m).contains_key(key@),
        },
{
    m.get(key)
}

/// `HashMap::remove`: the key no longer has a value; the value it had is
/// returned.
#[verifier::external_body]
fn fx_remove(m: &mut FxStringMap, key: &str) -> (r: Option<String>)
    ensures
        fx_contents(*final(m)) == fx_contents(*old(m)).remove(key@),
        match r {
            Some(v) => fx_contents(*old(m)).contains_key(key@) && fx_contents(*old(m))[key@] == v@,
            None => !fx_contents(*old(m)).contains_key(key@),
        },
{
    m.remove(key)
}

/// `n` is the number of keys of a finite map.
pub open spec fn is_key_count(n: usize, m: Map<Seq<char>, Seq<char>>) -> bool {
    m.dom().finite() && n == m.dom().len()
}

/// `HashMap::len`: the number of keys.
#[verifier::external_body]
fn fx_len(m: &FxStringMap) -> (r: usize)
    ensures
        is_key_count(r, fx_contents(*m)),
{
    m.len()
}

/// `HashMap::iter`, each entry copied out: every key once, in an order the
/// hasher decides.
#[verifier::external_body]
fn fx_entries(m: &FxStringMap) -> (r: Vec<(String, String)>)
    ensures
        forall|i: int|
            0 <= i < r@.len() ==> fx_contents(*m).contains_key((#[trigger] r@[i]).0@) && fx_contents(*m)[r@[i].0@]
                == r@[i].1@,
        forall|i: int, j: int| 0 <= i < j < r@.len() ==> (#[trigger] r@[i]).0@ != (#[trigger] r@[j]).0@,
        forall|k: Seq<char>| fx_contents(*m).contains_key(k) ==> exists|i: int| 0 <= i < r@.len() && (#[trigger] r@[i]).0@ == k,
{
    m.iter().map(|(k, v)| (k.clone(), v.clone())).collect()
}

/// The text of `str::to_uppercase` (Unicode upper case).
pub uninterp spec fn uppercase_of(s: Seq<char>) -> Seq<char>;

/// The text of `str::to_lowercase` (Unicode lower case).
pub uninterp spec fn lowercase_of(s: Seq<char>) -> Seq<char>;

/// Whether every character is ASCII.
pub open spec fn all_ascii(s: Seq<char>) -> bool {
    forall|i: int| 0 <= i < s.len() ==> (s[i] as u32) < 128
}

/// ASCII upper case of a character.
pub open spec fn ascii_upper(c: char) -> char {
    if 'a' <= c <= 'z' {
        ((c as u32) - 32) as char
    } else {
        c
    }
}

/// ASCII lower case of a character.
pub open spec fn ascii_lower(c: char) -> char {
    if 'A' <= c <= 'Z' {
        ((c as u32) + 32) as char
    } else {
        c
    }
}

/// `str::to_uppercase`: the Unicode upper case of `s`; for ASCII text it is
/// the ASCII upper case, character for character.
#[verifier::external_body]
fn to_uppercase(s: &str) -> (r: String)
    ensures
        r@ == uppercase_of(s@),
        all_ascii(s@) ==> r@ == s@.map_values(|c: char| ascii_upper(c)),
{
    s.to_uppercase()
}

/// `str::to_lowercase`: the Unicode lower case of `s`; for ASCII text it is
/// the ASCII lower case, character for character.
#[verifier::external_body]
pub(crate) fn to_lowercase(s: &str) -> (r: String)
    ensures
        r@ == lowercase_of(s@),
        all_ascii(s@) ==> r@ == s@.map_values(|c: char| ascii_lower(c)),
{
    s.to_lowercase()
}

// ───────────────────────────── HTTP methods ─────────────────────────────

/// HTTP methods supported by the edge runtime
#[derive(Debug, Clone, Copy, PartialEq, Eq, Hash, Structural)]
pub enum HttpMethod {
    Get,
    Post,
    Put,
    Delete,
    Patch,
    Head,
    Options,
}

impl HttpMethod {
    /// The method's name in upper case.
    pub open spec fn name(self) -> Seq<char> {
        match self {
            HttpMethod::Get => "GET"@,
            HttpMethod::Post => "POST"@,
            HttpMethod::Put => "PUT"@,
            HttpMethod::Delete => "DELETE"@,
            HttpMethod::Patch => "PATCH"@,
            HttpMethod::Head => "HEAD"@,
            HttpMethod::Options => "OPTIONS"@,
        }
    }

    /// The method named by an upper-case text.
    pub open spec fn named(upper: Seq<char>) -> Option<HttpMethod> {
        if upper == "GET"@ {
            Some(HttpMethod::Get)
        } else if upper == "POST"@ {
            Some(HttpMethod::Post)
        } else if upper == "PUT"@ {
            Some(HttpMethod::Put)
        } else if upper == "DELETE"@ {
            Some(HttpMethod::Delete)
        } else if upper == "PATCH"@ {
            Some(HttpMethod::Patch)
        } else if upper == "HEAD"@ {
            Some(HttpMethod::Head)
        } else if upper == "OPTIONS"@ {
            Some(HttpMethod::Options)
        } else {
            None
        }
    }

    /// The method whose name is `upper`; for any other text a TypeError
    /// naming `original`.
    pub fn from_upper(upper: &str, original: &str) -> (r: Result<Self, Error>)
        ensures
            match HttpMethod::named(upper@) {
                Some(m) => r == Ok::<HttpMethod, Error>(m),
                None => r matches Err(e) && is_runtime_error(
                    e,
                    ErrorKind::TypeError,
                    "Unknown HTTP method: "@ + original@,
                ),
            },
    {
        let u = upper;
        if crate::text::str_eq(u, "GET") {
            Ok(HttpMethod::Get)
        } else if crate::text::str_eq(u, "POST") {
            Ok(HttpMethod::Post)
        } else if crate::text::str_eq(u, "PUT") {
            Ok(HttpMethod::Put)
        } else if crate::text::str_eq(u, "DELETE") {
            Ok(HttpMethod::Delete)
        } else if crate::text::str_eq(u, "PATCH") {
            Ok(HttpMethod::Patch)
        } else if crate::text::str_eq(u, "HEAD") {
            Ok(HttpMethod::Head)
        } else if crate::text::str_eq(u, "OPTIONS") {
            Ok(HttpMethod::Options)
        } else {
            let mut m = string_of("Unknown HTTP method: ");
            push_str(&mut m, original);
            Err(Error::type_error(m.as_str()))
        }
    }

    /// Parse an HTTP method from a string, in any case.
    pub fn from_str(s: &str) -> (r: Result<Self, Error>)
        ensures
            match HttpMethod::named(uppercase_of(s@)) {
                Some(m) => r == Ok::<HttpMethod, Error>(m),
                None => r matches Err(e) && is_runtime_error(e, ErrorKind::TypeError, "Unknown HTTP method: "@ + s@),
            },
    {
        let upper = to_uppercase(s);
        Self::from_upper(upper.as_str(), s)
    }

    /// Return the method as an uppercase string
    pub fn as_str(&self) -> (r: &'static str)
        ensures
            r@ == self.name(),
    {
        match self {
            HttpMethod::Get => "GET",
            HttpMethod::Post => "POST",
            HttpMethod::Put => "PUT",
            HttpMethod::Delete => "DELETE",
            HttpMethod::Patch => "PATCH",
            HttpMethod::Head => "HEAD",
            HttpMethod::Options => "OPTIONS",
        }
    }
}

// ───────────────────────────── Headers ─────────────────────────────

/// HTTP headers collection, case-insensitive by key
#[derive(Debug, Clone)]
pub struct Headers {
    entries: FxStringMap,
}

impl Headers {
    /// The headers by lower-case name.
    pub closed spec fn contents(&self) -> Map<Seq<char>, Seq<char>> {
        fx_contents(self.entries)
    }

    /// Create an empty headers collection
    pub fn new() -> (r: Self)
        ensures
            r.contents() == Map::<Seq<char>, Seq<char>>::empty(),
    {
        Headers { entries: fx_new() }
    }

    /// Set a header value, replacing any existing value
    pub fn set(&mut self, name: &str, value: &str)
        ensures
            final(self).contents() == old(self).contents().insert(lowercase_of(name@), value@),
    {
        let key = to_lowercase(name);
        fx_insert(&mut self.entries, key, string_of(value));
    }

    /// Get a header value by name
    pub fn get(&self, name: &str) -> (r: Option<&str>)
        ensures
            match r {
                Some(v) => self.contents().contains_key(lowercase_of(name@)) && self.contents()[lowercase_of(
                    name@,
                )] == v@,
                None => !self.contents().contains_key(lowercase_of(name@)),
            },
    {
        let key = to_lowercase(name);
        match fx_get(&self.entries, key.as_str()) {
            Some(v) => Some(v.as_str()),
            None => None,
        }
    }

    /// Check whether a header exists
    pub fn has(&self, name: &str) -> (r: bool)
        ensures
            r == self.contents().contains_key(lowercase_of(name@)),
    {
        let key = to_lowercase(name);
        fx_get(&self.entries, key.as_str()).is_some()
    }

    /// Delete a header by name
    pub fn delete(&mut self, name: &str)
        ensures
            final(self).contents() == old(self).contents().remove(lowercase_of(name@)),
    {
        let key = to_lowercase(name);
        let _ = fx_remove(&mut self.entries, key.as_str());
    }

    /// Return the number of headers
    pub fn len(&self) -> (r: usize)
        ensures
            r == self.contents().dom().len(),
    {
        fx_len(&self.entries)
    }

    /// Check whether the headers collection is empty
    pub fn is_empty(&self) -> (r: bool)
        ensures
            r == (self.contents().dom().len() == 0),
    {
        fx_len(&self.entries) == 0
    }

    /// All header entries, each name once, in the map's own order.
    pub fn entries(&self) -> (r: Vec<(String, String)>)
        ensures
            forall|i: int|
                0 <= i < r@.len() ==> self.contents().contains_key((#[trigger] r@[i]).0@)
                    && self.contents()[r@[i].0@] == r@[i].1@,
            forall|i: int, j: int| 0 <= i < j < r@.len() ==> (#[trigger] r@[i]).0@ != (#[trigger] r@[j]).0@,
            forall|k: Seq<char>|
                self.contents().contains_key(k) ==> exists|i: int| 0 <= i < r@.len() && (#[trigger] r@[i]).0@ == k,
    {
        fx_entries(&self.entries)
    }

    /// Convert headers to a runtime value: `name: value` for each header,
    /// joined with `, `, in the map's own order.
    pub fn to_value(&self) -> (r: JsValue)
        ensures
            r matches JsValue::String(s) && exists|es: Seq<(String, String)>| s@ == header_text(es) && es.len()
                == self.contents().dom().len() && forall|i: int|
                0 <= i < es.len() ==> self.contents().contains_key((#[trigger] es[i]).0@)
                    && self.contents()[es[i].0@] == es[i].1@,
    {
        let es = fx_entries(&self.entries);
        let n = fx_len(&self.entries);
        proof {
            lemma_entries_len(es@, self.contents());
        }
        let mut s = String::new();
        let mut i: usize = 0;
        while i < es.len()
            invariant
                i <= es.len(),
                s@ == header_text(es@.take(i as int)),
            decreases es.len() - i,
        {
            if i > 0 {
                push_str(&mut s, ", ");
            }
            push_str(&mut s, es[i].0.as_str());
            push_str(&mut s, ": ");
            push_str(&mut s, es[i].1.as_str());
            assert(es@.take(i as int + 1).drop_last() =~= es@.take(i as int));
            i = i + 1;
        }
        assert(es@.take(i as int) =~= es@);
        JsValue::String(s)
    }
}

/// `name: value` for each entry, joined with `, `.
pub open spec fn header_text(es: Seq<(String, String)>) -> Seq<char>
    decreases es.len(),
{
    if es.len() == 0 {
        seq![]
    } else {
        let prev = header_text(es.drop_last());
        (if es.len() > 1 {
            prev + ", "@
        } else {
            prev
        }) + es.last().0@ + ": "@ + es.last().1@
    }
}

proof fn lemma_entries_len(es: Seq<(String, String)>, m: Map<Seq<char>, Seq<char>>)
    requires
        m.dom().finite(),
        forall|i: int| 0 <= i < es.len() ==> m.contains_key((#[trigger] es[i]).0@),
        forall|i: int, j: int| 0 <= i < j < es.len() ==> (#[trigger] es[i]).0@ != (#[trigger] es[j]).0@,
        forall|k: Seq<char>| m.contains_key(k) ==> exists|i: int| 0 <= i < es.len() && (#[trigger] es[i]).0@ == k,
    ensures
        es.len() == m.dom().len(),
{
    let keys = es.map_values(|e: (String, String)| e.0@);
    assert forall|i: int, j: int| 0 <= i < keys.len() && 0 <= j < keys.len() && i != j implies keys[i] != keys[j] by {
        if i < j {
            assert(es[i].0@ != es[j].0@);
        } else {
            assert(es[j].0@ != es[i].0@);
        }
    }
    assert(keys.no_duplicates());
    assert(keys.to_set() =~= m.dom()) by {
        assert forall|k: Seq<char>| keys.to_set().contains(k) <==> m.dom().contains(k) by {
            if m.dom().contains(k) {
                let i = choose|i: int| 0 <= i < es.len() && (#[trigger] es[i]).0@ == k;
                assert(keys[i] == k);
            }
            if keys.to_set().contains(k) {
                let i = choose|i: int| 0 <= i < keys.len() && keys[i] == k;
                assert(es[i].0@ == k);
            }
        }
    }
    keys.unique_seq_to_set();
}

impl Default for Headers {
    fn default() -> (r: Self)
        ensures
            r.contents() == Map::<Seq<char>, Seq<char>>::empty(),
    {
        Headers::new()
    }
}

// ───────────────────────────── Requests and URLs ─────────────────────────────

/// Workers-compatible Request object
#[derive(Debug, Clone)]
pub struct Request {
    /// The request URL
    pub url: String,
    /// The HTTP method
    pub method: HttpMethod,
    /// Request headers
    pub headers: Headers,
    /// Request body (if any)
    pub body: Option<String>,
}

impl Request {
    /// Create a new GET request to the given URL
    pub fn new(url: &str) -> (r: Self)
        ensures
            r.url@ == url@,
            r.method == HttpMethod::Get,
            r.headers.contents() == no_entries(),
            r.body is None,
    {
        Request { url: string_of(url), method: HttpMethod::Get, headers: Headers::new(), body: None }
    }

    /// Create a request with a specific method and optional body
    pub fn with_method(url: &str, method: HttpMethod, body: Option<String>) -> (r: Self)
        ensures
            r.url@ == url@,
            r.method == method,
            r.headers.contents() == no_entries(),
            r.body == body,
    {
        Request { url: string_of(url), method, headers: Headers::new(), body }
    }

    /// Convert the request to a runtime value: its method and URL.
    pub fn to_value(&self) -> (r: JsValue)
        ensures
            r matches JsValue::String(s) && s@ == "Request { method: "@ + self.method.name() + ", url: "@
                + self.url@ + " }"@,
    {
        let mut s = string_of("Request { method: ");
        push_str(&mut s, self.method.as_str());
        push_str(&mut s, ", url: ");
        push_str(&mut s, self.url.as_str());
        push_str(&mut s, " }");
        JsValue::String(s)
    }

    /// Parse the URL into its components (WinterCG URL API)
    pub fn parse_url(&self) -> (r: UrlInfo)
        ensures
            r.parsed_from(self.url@),
    {
        UrlInfo::parse(self.url.as_str())
    }
}

/// Parsed URL components (WinterCG-compatible)
#[derive(Debug, Clone)]
pub struct UrlInfo {
    /// Full URL string
    pub href: String,
    /// Protocol (e.g., "https:")
    pub protocol: String,
    /// Hostname without port
    pub hostname: String,
    /// Port string (empty if default)
    pub port: String,
    /// Path component
    pub pathname: String,
    /// Query string including '?'
    pub search: String,
    /// Parsed query parameters
    pub search_params: FxStringMap,
    /// Hash/fragment
    pub hash: String,
}

/// The URL after its scheme and `://`.
pub open spec fn after_scheme(u: Seq<char>) -> Seq<char> {
    match crate::text::first_scheme_sep(u) {
        Some(i) => u.skip(i + 3),
        None => u,
    }
}

/// The scheme with a colon, or nothing.
pub open spec fn url_protocol(u: Seq<char>) -> Seq<char> {
    match crate::text::first_scheme_sep(u) {
        Some(i) => u.take(i) + ":"@,
        None => seq![],
    }
}

/// The text from the first `c` on, or nothing.
pub open spec fn from_char(s: Seq<char>, c: char) -> Seq<char> {
    match crate::text::first_char(s, c) {
        Some(i) => s.skip(i),
        None => seq![],
    }
}

/// The text before the first `c`, or all of it.
pub open spec fn before_char(s: Seq<char>, c: char) -> Seq<char> {
    match crate::text::first_char(s, c) {
        Some(i) => s.take(i),
        None => s,
    }
}

/// The text after the first `c`, or nothing.
pub open spec fn after_char(s: Seq<char>, c: char) -> Seq<char> {
    match crate::text::first_char(s, c) {
        Some(i) => s.skip(i + 1),
        None => seq![],
    }
}

/// The parameters added by one `key=value` piece; a piece without `=` adds none.
pub open spec fn add_param(m: Map<Seq<char>, Seq<char>>, piece: Seq<char>) -> Map<Seq<char>, Seq<char>> {
    match crate::text::first_char(piece, '=') {
        Some(i) => m.insert(piece.take(i), piece.skip(i + 1)),
        None => m,
    }
}

/// The parameters of the query text `s`, after the partial piece `cur` and
/// the parameters `m` already read; pieces are separated by `&` and a later
/// key overrides an earlier one.
pub open spec fn params_from(s: Seq<char>, cur: Seq<char>, m: Map<Seq<char>, Seq<char>>) -> Map<Seq<char>, Seq<char>>
    decreases s.len(),
{
    if s.len() == 0 {
        add_param(m, cur)
    } else if s[0] == '&' {
        params_from(s.drop_first(), seq![], add_param(m, cur))
    } else {
        params_from(s.drop_first(), cur.push(s[0]), m)
    }
}

/// The parameters of a query text.
pub open spec fn query_params(q: Seq<char>) -> Map<Seq<char>, Seq<char>> {
    params_from(q, seq![], no_entries())
}

/// The parts of a URL: the hash is cut first, then the query, then the path;
/// what is left is the host with its port.
pub open spec fn url_rest_before_hash(u: Seq<char>) -> Seq<char> {
    before_char(after_scheme(u), '#')
}

/// The URL without scheme, hash and query.
pub open spec fn url_rest_before_query(u: Seq<char>) -> Seq<char> {
    before_char(url_rest_before_hash(u), '?')
}

/// The host with its port.
pub open spec fn url_host_port(u: Seq<char>) -> Seq<char> {
    before_char(url_rest_before_query(u), '/')
}

fn find(v: &Vec<char>, c: char) -> (r: Option<usize>)
    ensures
        match r {
            Some(i) => crate::text::first_char(v@, c) == Some(i as int) && i < v@.len(),
            None => crate::text::first_char(v@, c) is None,
        },
{
    crate::text::find_char(v, c)
}

fn query_map(q: &Vec<char>) -> (r: FxStringMap)
    ensures
        fx_contents(r) == query_params(q@),
{
    let mut m = fx_new();
    let mut cur: Vec<char> = Vec::new();
    let mut i: usize = 0;
    assert(q@.skip(0) =~= q@);
    while i < q.len()
        invariant
            i <= q.len(),
            params_from(q@.skip(i as int), cur@, fx_contents(m)) == query_params(q@),
        decreases q.len() - i,
    {
        assert(q@.skip(i as int).drop_first() =~= q@.skip(i as int + 1));
        assert(q@.skip(i as int)[0] == q@[i as int]);
        if q[i] == '&' {
            add_piece(&mut m, &cur);
            cur = Vec::new();
            assert(cur@ =~= Seq::<char>::empty());
        } else {
            cur.push(q[i]);
        }
        i = i + 1;
    }
    assert(q@.skip(i as int) =~= Seq::<char>::empty());
    add_piece(&mut m, &cur);
    m
}

fn add_piece(m: &mut FxStringMap, piece: &Vec<char>)
    ensures
        fx_contents(*final(m)) == add_param(fx_contents(*old(m)), piece@),
{
    let n = piece.len();
    match find(piece, '=') {
        Some(i) => {
            assert(i < n);
            let k = sub_and_string(piece, 0, i);
            let v = sub_and_string(piece, i + 1, piece.len());
            assert(piece@.subrange(0, i as int) =~= piece@.take(i as int));
            assert(piece@.subrange(i + 1, piece@.len() as int) =~= piece@.skip(i + 1));
            fx_insert(m, k, v);
        },
        None => {},
    }
}

fn sub_and_string(v: &Vec<char>, lo: usize, hi: usize) -> (r: String)
    requires
        lo <= hi <= v@.len(),
    ensures
        r@ == v@.subrange(lo as int, hi as int),
{
    let s = crate::text::sub_chars(v, lo, hi);
    string_from_chars(&s)
}

impl UrlInfo {
    /// This holds the components of URL `u`.
    pub open spec fn parsed_from(&self, u: Seq<char>) -> bool {
        &&& self.href@ == u
        &&& self.protocol@ == url_protocol(u)
        &&& self.hash@ == from_char(after_scheme(u), '#')
        &&& self.search@ == from_char(url_rest_before_hash(u), '?')
        &&& fx_contents(self.search_params) == match crate::text::first_char(url_rest_before_hash(u), '?') {
            Some(i) => query_params(url_rest_before_hash(u).skip(i + 1)),
            None => no_entries(),
        }
        &&& self.pathname@ == match crate::text::first_char(url_rest_before_query(u), '/') {
            Some(i) => url_rest_before_query(u).skip(i),
            None => "/"@,
        }
        &&& self.hostname@ == before_char(url_host_port(u), ':')
        &&& self.port@ == after_char(url_host_port(u), ':')
    }

    /// Parse a URL string into components
    pub fn parse(url: &str) -> (r: Self)
        ensures
            r.parsed_from(url@),
    {
        let u = chars_of(url);
        let (protocol, r1) = split_scheme(&u);
        let (hash, r2) = split_at_char(&r1, '#');
        let (search, search_params, r3) = split_query(&r2);
        let (pathname, r4) = split_path(&r3);
        let (hostname, port) = split_host(&r4);
        UrlInfo {
            href: string_of(url),
            protocol,
            hostname,
            port,
            pathname,
            search,
            search_params,
            hash,
        }
    }
}

fn split_scheme(u: &Vec<char>) -> (r: (String, Vec<char>))
    ensures
        r.0@ == url_protocol(u@),
        r.1@ == after_scheme(u@),
{
    let n = u.len();
    match crate::text::find_scheme_sep(u) {
        Some(i) => {
            assert(i + 3 <= n);
            let mut p = sub_and_string(u, 0, i);
            push_char(&mut p, ':');
            proof {
                reveal_strlit(":");
                assert(p@ =~= u@.subrange(0, i as int) + ":"@);
            }
            assert(u@.subrange(0, i as int) =~= u@.take(i as int));
            assert(u@.subrange(i + 3, u@.len() as int) =~= u@.skip(i + 3));
            (p, crate::text::sub_chars(u, i + 3, n))
        },
        None => {
            assert(u@.subrange(0, u@.len() as int) =~= u@);
            (String::new(), crate::text::sub_chars(u, 0, n))
        },
    }
}

fn split_at_char(v: &Vec<char>, c: char) -> (r: (String, Vec<char>))
    ensures
        r.0@ == from_char(v@, c),
        r.1@ == before_char(v@, c),
{
    let n = v.len();
    match find(v, c) {
        Some(i) => {
            assert(v@.subrange(i as int, v@.len() as int) =~= v@.skip(i as int));
            assert(v@.subrange(0, i as int) =~= v@.take(i as int));
            (sub_and_string(v, i, n), crate::text::sub_chars(v, 0, i))
        },
        None => {
            assert(v@.subrange(0, v@.len() as int) =~= v@);
            (String::new(), crate::text::sub_chars(v, 0, n))
        },
    }
}

fn split_query(v: &Vec<char>) -> (r: (String, FxStringMap, Vec<char>))
    ensures
        r.0@ == from_char(v@, '?'),
        fx_contents(r.1) == match crate::text::first_char(v@, '?') {
            Some(i) => query_params(v@.skip(i + 1)),
            None => no_entries(),
        },
        r.2@ == before_char(v@, '?'),
{
    let n = v.len();
    match find(v, '?') {
        Some(i) => {
            assert(v@.subrange(i as int, v@.len() as int) =~= v@.skip(i as int));
            assert(v@.subrange(0, i as int) =~= v@.take(i as int));
            assert(v@.subrange(i + 1, v@.len() as int) =~= v@.skip(i + 1));
            let q = crate::text::sub_chars(v, i + 1, n);
            (sub_and_string(v, i, n), query_map(&q), crate::text::sub_chars(v, 0, i))
        },
        None => {
            assert(v@.subrange(0, v@.len() as int) =~= v@);
            (String::new(), fx_new(), crate::text::sub_chars(v, 0, n))
        },
    }
}

fn split_path(v: &Vec<char>) -> (r: (String, Vec<char>))
    ensures
        r.0@ == match crate::text::first_char(v@, '/') {
            Some(i) => v@.skip(i),
            None => "/"@,
        },
        r.1@ == before_char(v@, '/'),
{
    let n = v.len();
    match find(v, '/') {
        Some(i) => {
            assert(v@.subrange(i as int, v@.len() as int) =~= v@.skip(i as int));
            assert(v@.subrange(0, i as int) =~= v@.take(i as int));
            (sub_and_string(v, i, n), crate::text::sub_chars(v, 0, i))
        },
        None => {
            assert(v@.subrange(0, v@.len() as int) =~= v@);
            (string_of("/"), crate::text::sub_chars(v, 0, n))
        },
    }
}

fn split_host(v: &Vec<char>) -> (r: (String, String))
    ensures
        r.0@ == before_char(v@, ':'),
        r.1@ == after_char(v@, ':'),
{
    let n = v.len();
    match find(v, ':') {
        Some(i) => {
            assert(v@.subrange(0, i as int) =~= v@.take(i as int));
            assert(v@.subrange(i + 1, v@.len() as int) =~= v@.skip(i + 1));
            (sub_and_string(v, 0, i), sub_and_string(v, i + 1, n))
        },
        None => {
            assert(v@.subrange(0, v@.len() as int) =~= v@);
            (sub_and_string(v, 0, n), String::new())
        },
    }
}

// ───────────────────────────── Responses ─────────────────────────────

/// Workers-compatible Response object
#[derive(Debug, Clone)]
pub struct Response {
    /// HTTP status code
    pub status: u16,
    /// HTTP status text
    pub status_text: String,
    /// Response headers
    pub headers: Headers,
    /// Response body
    pub body: String,
}

/// The reason phrase of a common HTTP status; `Unknown` for any other.
pub open spec fn status_text_of(status: u16) -> Seq<char> {
    if status == 200 {
        "OK"@
    } else if status == 201 {
        "Created"@
    } else if status == 204 {
        "No Content"@
    } else if status == 301 {
        "Moved Permanently"@
    } else if status == 302 {
        "Found"@
    } else if status == 304 {
        "Not Modified"@
    } else if status == 400 {
        "Bad Request"@
    } else if status == 401 {
        "Unauthorized"@
    } else if status == 403 {
        "Forbidden"@
    } else if status == 404 {
        "Not Found"@
    } else if status == 405 {
        "Method Not Allowed"@
    } else if status == 500 {
        "Internal Server Error"@
    } else if status == 502 {
        "Bad Gateway"@
    } else if status == 503 {
        "Service Unavailable"@
    } else {
        "Unknown"@
    }
}

/// Map common HTTP status codes to their default text
pub fn default_status_text(status: u16) -> (r: &'static str)
    ensures
        r@ == status_text_of(status),
{
    match status {
        200 => "OK",
        201 => "Created",
        204 => "No Content",
        301 => "Moved Permanently",
        302 => "Found",
        304 => "Not Modified",
        400 => "Bad Request",
        401 => "Unauthorized",
        403 => "Forbidden",
        404 => "Not Found",
        405 => "Method Not Allowed",
        500 => "Internal Server Error",
        502 => "Bad Gateway",
        503 => "Service Unavailable",
        _ => "Unknown",
    }
}

/// The number of UTF-8 bytes of a character.
pub open spec fn utf8_width(c: char) -> nat {
    if (c as u32) < 0x80 {
        1
    } else if (c as u32) < 0x800 {
        2
    } else if (c as u32) < 0x10000 {
        3
    } else {
        4
    }
}

/// The number of UTF-8 bytes of a text.
pub open spec fn utf8_len(s: Seq<char>) -> nat
    decreases s.len(),
{
    if s.len() == 0 {
        0
    } else {
        utf8_len(s.drop_last()) + utf8_width(s.last())
    }
}

proof fn lemma_utf8_len_prefix(s: Seq<char>, i: int)
    requires
        0 <= i <= s.len(),
    ensures
        utf8_len(s.take(i)) <= utf8_len(s),
    decreases s.len(),
{
    if i < s.len() {
        assert(s.drop_last().take(i) =~= s.take(i));
        lemma_utf8_len_prefix(s.drop_last(), i);
    } else {
        assert(s.take(i) =~= s);
    }
}

fn byte_len(s: &str) -> (r: u64)
    requires
        utf8_len(s@) <= u64::MAX,
    ensures
        r == utf8_len(s@),
{
    let cs = chars_of(s);
    let mut n: u64 = 0;
    let mut i: usize = 0;
    while i < cs.len()
        invariant
            i <= cs.len(),
            cs@ == s@,
            n == utf8_len(cs@.take(i as int)),
            utf8_len(s@) <= u64::MAX,
        decreases cs.len() - i,
    {
        let c = cs[i] as u32;
        let w: u64 = if c < 0x80 {
            1
        } else if c < 0x800 {
            2
        } else if c < 0x10000 {
            3
        } else {
            4
        };
        assert(cs@.take(i as int + 1).drop_last() =~= cs@.take(i as int));
        proof {
            lemma_utf8_len_prefix(cs@, i as int + 1);
        }
        n = n + w;
        i = i + 1;
    }
    assert(cs@.take(i as int) =~= cs@);
    n
}

impl Response {
    fn plain(body: &str, status: u16, status_text: &str, headers: Headers) -> (r: Self)
        ensures
            r.body@ == body@,
            r.status == status,
            r.status_text@ == status_text@,
            r.headers == headers,
    {
        Response { status, status_text: string_of(status_text), headers, body: string_of(body) }
    }

    /// Create a new 200 OK response with the given body
    pub fn new(body: &str) -> (r: Self)
        ensures
            r.status == 200,
            r.status_text@ == "OK"@,
            r.headers.contents() == no_entries(),
            r.body@ == body@,
    {
        Self::plain(body, 200, "OK", Headers::new())
    }

    /// Create a response with a specific status code
    pub fn with_status(body: &str, status: u16) -> (r: Self)
        ensures
            r.status == status,
            r.status_text@ == status_text_of(status),
            r.headers.contents() == no_entries(),
            r.body@ == body@,
    {
        Self::plain(body, status, default_status_text(status), Headers::new())
    }

    /// Create a JSON response with appropriate Content-Type
    pub fn json(data: &str) -> (r: Self)
        ensures
            r.status == 200,
            r.status_text@ == "OK"@,
            r.headers.contents() == no_entries().insert(lowercase_of("content-type"@), "application/json"@),
            r.body@ == data@,
    {
        let mut headers = Headers::new();
        headers.set("content-type", "application/json");
        Self::plain(data, 200, "OK", headers)
    }

    /// Create a redirect response
    pub fn redirect(url: &str, status: u16) -> (r: Self)
        ensures
            r.status == status,
            r.status_text@ == status_text_of(status),
            r.headers.contents() == no_entries().insert(lowercase_of("location"@), url@),
            r.body@.len() == 0,
    {
        let mut headers = Headers::new();
        headers.set("location", url);
        proof {
            reveal_strlit("");
        }
        Self::plain("", status, default_status_text(status), headers)
    }

    /// Convert the response to a runtime value: its status and the body's
    /// length in UTF-8 bytes.
    pub fn to_value(&self) -> (r: JsValue)
        requires
            utf8_len(self.body@) <= u64::MAX,
        ensures
            r matches JsValue::String(s) && s@ == "Response { status: "@ + decimal(self.status as nat)
                + ", body length: "@ + decimal(utf8_len(self.body@)) + " }"@,
    {
        let mut s = string_of("Response { status: ");
        push_decimal(&mut s, self.status as u64);
        push_str(&mut s, ", body length: ");
        let n = byte_len(self.body.as_str());
        push_decimal(&mut s, n);
        push_str(&mut s, " }");
        JsValue::String(s)
    }

    /// Create an HTML response with appropriate Content-Type
    pub fn html(body: &str) -> (r: Self)
        ensures
            r.status == 200,
            r.status_text@ == "OK"@,
            r.headers.contents() == no_entries().insert(
                lowercase_of("content-type"@),
                "text/html; charset=utf-8"@,
            ),
            r.body@ == body@,
    {
        let mut headers = Headers::new();
        headers.set("content-type", "text/html; charset=utf-8");
        Self::plain(body, 200, "OK", headers)
    }

    /// Create a plain text response with appropriate Content-Type
    pub fn text(body: &str) -> (r: Self)
        ensures
            r.status == 200,
            r.status_text@ == "OK"@,
            r.headers.contents() == no_entries().insert(
                lowercase_of("content-type"@),
                "text/plain; charset=utf-8"@,
            ),
            r.body@ == body@,
    {
        let mut headers = Headers::new();
        headers.set("content-type", "text/plain; charset=utf-8");
        Self::plain(body, 200, "OK", headers)
    }

    /// Add CORS headers to the response (returns a new Response)
    pub fn with_cors(self, origin: &str) -> (r: Self)
        ensures
            r.status == self.status,
            r.status_text == self.status_text,
            r.body == self.body,
            r.headers.contents() == self.headers.contents().insert(
                lowercase_of("access-control-allow-origin"@),
                origin@,
            ).insert(
                lowercase_of("access-control-allow-methods"@),
                "GET, POST, PUT, DELETE, OPTIONS"@,
            ).insert(lowercase_of("access-control-allow-headers"@), "Content-Type, Authorization"@).insert(
                lowercase_of("access-control-max-age"@),
                "86400"@,
            ),
    {
        let mut r = self;
        r.headers.set("access-control-allow-origin", origin);
        r.headers.set("access-control-allow-methods", "GET, POST, PUT, DELETE, OPTIONS");
        r.headers.set("access-control-allow-headers", "Content-Type, Authorization");
        r.headers.set("access-control-max-age", "86400");
        r
    }
}

/// Fetch event representing an incoming HTTP request
#[derive(Debug, Clone)]
pub struct FetchEvent {
    /// The incoming request
    pub request: Request,
    /// The response (set via `respond_with`)
    response: Option<Response>,
}

impl FetchEvent {
    /// The response given so far.
    pub closed spec fn spec_response(&self) -> Option<Response> {
        self.response
    }

    /// The incoming request.
    pub closed spec fn spec_request(&self) -> Request {
        self.request
    }

    /// An event for `request` with no response yet.
    pub fn new(request: Request) -> (r: Self)
        ensures
            r.spec_request() == request,
            r.spec_response() is None,
    {
        FetchEvent { request, response: None }
    }

    /// Set the response.
    pub fn respond_with(&mut self, response: Response)
        ensures
            final(self).spec_response() == Some(response),
            final(self).spec_request() == old(self).spec_request(),
    {
        self.response = Some(response);
    }

    /// The response given, or a 500 Internal Server Error when none was.
    pub fn into_response(self) -> (r: Response)
        ensures
            match self.spec_response() {
                Some(resp) => r == resp,
                None => r.status == 500 && r.status_text@ == "Internal Server Error"@ && r.body@
                    == "Internal Server Error"@ && r.headers.contents() == no_entries(),
            },
    {
        match self.response {
            Some(resp) => resp,
            None => Response::with_status("Internal Server Error", 500),
        }
    }
}

// ───────────────────────────── Configuration ─────────────────────────────

/// Limits of the edge runtime.
#[derive(Debug, Clone, Copy)]
pub struct EdgeConfig {
    pub max_body_size: usize,
    pub timeout: Duration,
    pub max_cache_entries: usize,
    pub cache_enabled: bool,
}

impl EdgeConfig {
    /// One megabyte of body, thirty seconds, 1024 cache entries, caching on.
    pub fn new() -> (r: Self)
        ensures
            r.max_body_size == 1_048_576,
            duration_nanos(r.timeout) == 30_000_000_000,
            r.max_cache_entries == 1024,
            r.cache_enabled,
    {
        EdgeConfig {
            max_body_size: 1_048_576,
            timeout: duration_from_secs(30),
            max_cache_entries: 1024,
            cache_enabled: true,
        }
    }

    /// Set the largest body accepted.
    pub fn with_max_body_size(self, size: usize) -> (r: Self)
        ensures
            r.max_body_size == size,
            r.timeout == self.timeout,
            r.max_cache_entries == self.max_cache_entries,
            r.cache_enabled == self.cache_enabled,
    {
        let mut c = self;
        c.max_body_size = size;
        c
    }

    /// Set the timeout.
    pub fn with_timeout(self, timeout: Duration) -> (r: Self)
        ensures
            r.timeout == timeout,
            r.max_body_size == self.max_body_size,
            r.max_cache_entries == self.max_cache_entries,
            r.cache_enabled == self.cache_enabled,
    {
        let mut c = self;
        c.timeout = timeout;
        c
    }

    /// Set the cache capacity.
    pub fn with_max_cache_entries(self, max: usize) -> (r: Self)
        ensures
            r.max_cache_entries == max,
            r.max_body_size == self.max_body_size,
            r.timeout == self.timeout,
            r.cache_enabled == self.cache_enabled,
    {
        let mut c = self;
        c.max_cache_entries = max;
        c
    }
}

impl Default for EdgeConfig {
    fn default() -> (r: Self)
        ensures
            r.max_body_size == 1_048_576,
            r.max_cache_entries == 1024,
            r.cache_enabled,
    {
        EdgeConfig::new()
    }
}

} // verus!
