use quicksilver::debugger::server::{content_length, route_request, Route};
use quicksilver::ffi::{base64_decode, base64_encode, FfiError};

#[test]
fn requests_are_routed_by_method_and_path() {
    assert_eq!(route_request("GET /api/state HTTP/1.1\r\n"), Route::State);
    assert_eq!(route_request("OPTIONS /anything HTTP/1.1"), Route::Preflight);
    assert_eq!(route_request("GET / HTTP/1.1"), Route::WebUi);
    assert_eq!(route_request("GET /json/list HTTP/1.1"), Route::Discover);
    assert_eq!(route_request("POST /api/step/back HTTP/1.1"), Route::StepBack);
    assert_eq!(route_request("POST /api/breakpoints HTTP/1.1"), Route::AddBreakpoint);
    assert_eq!(route_request("GET /api/breakpoints HTTP/1.1"), Route::Breakpoints);
    assert_eq!(route_request("POST /api/goto/42 HTTP/1.1"), Route::Goto(42));
    assert_eq!(route_request("POST /api/goto//api/goto/7 HTTP/1.1"), Route::Goto(7));
    assert_eq!(route_request("POST /api/goto/x HTTP/1.1"), Route::InvalidStep);
    assert_eq!(route_request("GET /api/changes/count HTTP/1.1"), Route::Changes("count".to_string()));
    assert_eq!(route_request("GET /nowhere HTTP/1.1"), Route::NotFound);
    assert_eq!(route_request("DELETE /api/state HTTP/1.1"), Route::NotFound);
    assert_eq!(route_request("GET\r\n"), Route::BadRequest);
}

#[test]
fn content_length_headers_are_read() {
    assert_eq!(content_length("Content-Length: 27\r\n"), Some(27));
    assert_eq!(content_length("content-length:5"), Some(5));
    assert_eq!(content_length("CONTENT-LENGTH: abc\r\n"), Some(0));
    assert_eq!(content_length("Content-Type: text/plain\r\n"), None);
}

#[test]
fn ffi_errors_read_as_kind_and_message() {
    assert_eq!(FfiError::TypeError("bad".to_string()).message(), "type error: bad");
    assert_eq!(FfiError::ConversionError("x".to_string()).message(), "conversion error: x");
    assert_eq!(FfiError::CallError("boom".to_string()).message(), "call error: boom");
    assert_eq!(FfiError::NotFound("f".to_string()).message(), "not found: f");
}

#[test]
fn base64_encodes_with_padding_and_decodes_back() {
    assert_eq!(base64_encode(b""), "");
    assert_eq!(base64_encode(b"f"), "Zg==");
    assert_eq!(base64_encode(b"fo"), "Zm8=");
    assert_eq!(base64_encode(b"foo"), "Zm9v");
    assert_eq!(base64_encode(b"Hello, World!"), "SGVsbG8sIFdvcmxkIQ==");
    assert_eq!(base64_decode("SGVsbG8sIFdvcmxkIQ==").unwrap(), b"Hello, World!".to_vec());
    assert_eq!(base64_decode("Zm8").unwrap(), b"fo".to_vec());
    assert_eq!(base64_decode("Zg!=").unwrap_err(), "invalid base64 character: !");
    assert_eq!(base64_decode("Zé==").unwrap_err(), "invalid base64 character: \u{c3}");
}
