use quicksilver::edge::{default_status_text, EdgeConfig, FetchEvent, Headers, HttpMethod, Request, Response, UrlInfo};
use quicksilver::error::Error;
use quicksilver::value::JsValue;
use std::time::Duration;

#[test]
fn test_http_method_parsing() {
    assert_eq!(HttpMethod::from_str("GET").unwrap(), HttpMethod::Get);
    assert_eq!(HttpMethod::from_str("post").unwrap(), HttpMethod::Post);
    assert_eq!(HttpMethod::from_str("Delete").unwrap(), HttpMethod::Delete);
    assert!(HttpMethod::from_str("INVALID").is_err());
}

#[test]
fn http_method_error_text() {
    match HttpMethod::from_str("brew") {
        Err(e) => assert_eq!(e.display_string(), "TypeError: Unknown HTTP method: brew"),
        Ok(_) => panic!("accepted"),
    }
    assert_eq!(HttpMethod::Options.as_str(), "OPTIONS");
    assert!(matches!(HttpMethod::from_str("poſt"), Ok(HttpMethod::Post)));
}

#[test]
fn test_edge_config_builder() {
    let config = EdgeConfig::new()
        .with_max_body_size(512)
        .with_timeout(Duration::from_secs(5))
        .with_max_cache_entries(256);

    assert_eq!(config.max_body_size, 512);
    assert_eq!(config.timeout, Duration::from_secs(5));
    assert_eq!(config.max_cache_entries, 256);
}

#[test]
fn test_headers_case_insensitive() {
    let mut headers = Headers::new();
    headers.set("Content-Type", "text/html");
    assert_eq!(headers.get("content-type"), Some("text/html"));
    assert_eq!(headers.get("CONTENT-TYPE"), Some("text/html"));
    assert!(headers.has("Content-Type"));
    assert_eq!(headers.len(), 1);
}

#[test]
fn test_headers_delete() {
    let mut headers = Headers::new();
    headers.set("X-Custom", "value");
    assert!(headers.has("x-custom"));
    headers.delete("X-Custom");
    assert!(!headers.has("x-custom"));
    assert!(headers.is_empty());
}

#[test]
fn headers_to_value() {
    let mut headers = Headers::new();
    headers.set("A", "1");
    match headers.to_value() {
        JsValue::String(s) => assert_eq!(s, "a: 1"),
        _ => panic!("not a string"),
    }
    assert_eq!(headers.entries(), vec![("a".to_string(), "1".to_string())]);
}

#[test]
fn test_request_creation() {
    let req = Request::new("https://example.com/api");
    assert_eq!(req.method, HttpMethod::Get);
    assert_eq!(req.url, "https://example.com/api");
    assert!(req.body.is_none());

    let req = Request::with_method(
        "https://example.com/api",
        HttpMethod::Post,
        Some(r#"{"key":"value"}"#.to_string()),
    );
    assert_eq!(req.method, HttpMethod::Post);
    assert_eq!(req.body.as_deref(), Some(r#"{"key":"value"}"#));
    match req.to_value() {
        JsValue::String(s) => assert_eq!(s, "Request { method: POST, url: https://example.com/api }"),
        _ => panic!("not a string"),
    }
}

#[test]
fn test_response_constructors() {
    let resp = Response::new("Hello");
    assert_eq!(resp.status, 200);
    assert_eq!(resp.body, "Hello");

    let resp = Response::with_status("Not Found", 404);
    assert_eq!(resp.status, 404);
    assert_eq!(resp.status_text, "Not Found");

    let resp = Response::json(r#"{"ok":true}"#);
    assert_eq!(resp.headers.get("content-type"), Some("application/json"));

    let resp = Response::redirect("https://example.com", 301);
    assert_eq!(resp.status, 301);
    assert_eq!(resp.headers.get("location"), Some("https://example.com"));
}

#[test]
fn test_fetch_event_lifecycle() {
    let req = Request::new("https://example.com");
    let mut event = FetchEvent::new(req);
    event.respond_with(Response::new("OK"));
    let resp = event.into_response();
    assert_eq!(resp.status, 200);
    assert_eq!(resp.body, "OK");
    let unanswered = FetchEvent::new(Request::new("https://example.com"));
    assert_eq!(unanswered.into_response().status, 500);
}

#[test]
fn test_response_html() {
    let resp = Response::html("<h1>Hello</h1>");
    assert_eq!(resp.status, 200);
    assert_eq!(resp.headers.get("content-type"), Some("text/html; charset=utf-8"));
    assert_eq!(resp.body, "<h1>Hello</h1>");
}

#[test]
fn test_response_text() {
    let resp = Response::text("plain text");
    assert_eq!(resp.status, 200);
    assert_eq!(resp.headers.get("content-type"), Some("text/plain; charset=utf-8"));
}

#[test]
fn test_response_cors() {
    let resp = Response::json("{}").with_cors("https://example.com");
    assert_eq!(resp.headers.get("access-control-allow-origin"), Some("https://example.com"));
    assert!(resp.headers.has("access-control-allow-methods"));
}

#[test]
fn response_to_value_counts_bytes() {
    match Response::new("héllo").to_value() {
        JsValue::String(s) => assert_eq!(s, "Response { status: 200, body length: 6 }"),
        _ => panic!("not a string"),
    }
    assert_eq!(default_status_text(418), "Unknown");
    assert_eq!(default_status_text(503), "Service Unavailable");
}

#[test]
fn test_request_url_parsing() {
    let req = Request::new("https://api.example.com:8080/v1/users?page=2&limit=10");
    let url_info = req.parse_url();
    assert_eq!(url_info.pathname, "/v1/users");
    assert_eq!(url_info.hostname, "api.example.com");
    assert_eq!(url_info.search_params.get("page"), Some(&"2".to_string()));
    assert_eq!(url_info.search_params.get("limit"), Some(&"10".to_string()));
}

#[test]
fn test_request_url_parsing_no_query() {
    let req = Request::new("https://example.com/path");
    let url_info = req.parse_url();
    assert_eq!(url_info.pathname, "/path");
    assert!(url_info.search_params.is_empty());
}

#[test]
fn url_parse_all_parts() {
    let u = UrlInfo::parse("http://h:81/a/b?x=1&y&x=3#frag?z");
    assert_eq!(u.protocol, "http:");
    assert_eq!(u.hostname, "h");
    assert_eq!(u.port, "81");
    assert_eq!(u.pathname, "/a/b");
    assert_eq!(u.search, "?x=1&y&x=3");
    assert_eq!(u.hash, "#frag?z");
    assert_eq!(u.search_params.len(), 1);
    assert_eq!(u.search_params.get("x"), Some(&"3".to_string()));
    let bare = UrlInfo::parse("example.com");
    assert_eq!(bare.protocol, "");
    assert_eq!(bare.pathname, "/");
    assert_eq!(bare.hostname, "example.com");
    assert_eq!(bare.port, "");
}

#[test]
fn type_error_from_method_is_runtime_error() {
    assert!(matches!(HttpMethod::from_str(""), Err(Error::RuntimeError { .. })));
}
