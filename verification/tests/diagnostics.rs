use quicksilver::diagnostics::{
    Diagnostic, DiagnosticError, DiagnosticRenderer, DiagnosticWarning, SourceMapV3, VlqEncoder,
};
use quicksilver::error::Error;

// -- VLQ tests ----------------------------------------------------------

#[test]
fn test_vlq_encode_zero() {
    assert_eq!(VlqEncoder::encode_vlq(0), "A");
}

#[test]
fn test_vlq_encode_positive() {
    // 1 → VLQ unsigned 2 → binary 00010 → 'C'
    assert_eq!(VlqEncoder::encode_vlq(1), "C");
}

#[test]
fn test_vlq_encode_negative() {
    // -1 → VLQ unsigned 3 → binary 00011 → 'D'
    assert_eq!(VlqEncoder::encode_vlq(-1), "D");
}

#[test]
fn test_vlq_encode_large_positive() {
    // 16 → VLQ unsigned 32 → needs two digits
    let encoded = VlqEncoder::encode_vlq(16);
    let decoded = VlqEncoder::decode_vlq(&encoded);
    assert_eq!(decoded, vec![16]);
}

#[test]
fn test_vlq_decode_roundtrip() {
    let values = vec![0, 1, -1, 5, -5, 100, -100, 1000, -1000];
    for &v in &values {
        let encoded = VlqEncoder::encode_vlq(v);
        let decoded = VlqEncoder::decode_vlq(&encoded);
        assert_eq!(decoded, vec![v], "roundtrip failed for {}", v);
    }
}

#[test]
fn test_vlq_decode_multiple_values() {
    // Concatenate encodings of several values
    let vals = vec![0i64, 3, -7, 42];
    let encoded: String = vals.iter().map(|&v| VlqEncoder::encode_vlq(v)).collect();
    let decoded = VlqEncoder::decode_vlq(&encoded);
    assert_eq!(decoded, vals);
}

#[test]
fn vlq_encode_extremes_roundtrip() {
    for v in [i64::MAX, i64::MIN + 1, 1 << 40, -(1 << 40)] {
        let encoded = VlqEncoder::encode_vlq(v);
        assert_eq!(VlqEncoder::decode_vlq(&encoded), vec![v]);
    }
}

#[test]
fn vlq_encode_exact_texts() {
    assert_eq!(VlqEncoder::encode_vlq(16), "gB");
    assert_eq!(VlqEncoder::encode_vlq(-16), "hB");
    assert_eq!(VlqEncoder::encode_vlq(15), "e");
    assert_eq!(VlqEncoder::encode_vlq(1000), "w+B");
}

#[test]
fn vlq_decode_stops_at_invalid_character() {
    assert_eq!(VlqEncoder::decode_vlq("CD!C"), vec![1, -1]);
    assert_eq!(VlqEncoder::decode_vlq(""), Vec::<i64>::new());
    // an unfinished value at the end is dropped
    assert_eq!(VlqEncoder::decode_vlq("Cg"), vec![1]);
}

// -- Source Map V3 tests ------------------------------------------------

#[test]
fn test_source_map_encode_decode_roundtrip() {
    let mut sm = SourceMapV3::new();
    sm.file = Some("out.js".to_string());
    let src_idx = sm.add_source("input.js");
    let name_idx = sm.add_name("foo");
    sm.add_mapping(0, 0, src_idx, 0, 0, Some(name_idx));
    sm.add_mapping(0, 5, src_idx, 1, 3, None);
    sm.add_mapping(1, 0, src_idx, 2, 0, None);

    let json = sm.encode();
    let decoded = SourceMapV3::decode(&json).expect("decode failed");

    assert_eq!(decoded.version, 3);
    assert_eq!(decoded.file.as_deref(), Some("out.js"));
    assert_eq!(decoded.sources, vec!["input.js"]);
    assert_eq!(decoded.names, vec!["foo"]);
}

#[test]
fn mod_test_source_map_lookup() {
    let mut sm = SourceMapV3::new();
    let src = sm.add_source("app.js");
    sm.add_mapping(0, 0, src, 10, 5, None);
    sm.add_mapping(0, 8, src, 10, 20, None);
    sm.add_mapping(1, 0, src, 15, 0, None);

    // Exact match
    let pos = sm.lookup(0, 0).expect("lookup(0,0)");
    assert_eq!(pos.line, 10);
    assert_eq!(pos.column, 5);
    assert_eq!(pos.source, "app.js");

    // Between two segments on same line – should pick the earlier one
    let pos2 = sm.lookup(0, 4).expect("lookup(0,4)");
    assert_eq!(pos2.line, 10);
    assert_eq!(pos2.column, 5);

    // Exact match on second segment
    let pos3 = sm.lookup(0, 8).expect("lookup(0,8)");
    assert_eq!(pos3.line, 10);
    assert_eq!(pos3.column, 20);

    // No match
    assert!(sm.lookup(5, 0).is_none());
}

#[test]
fn test_source_map_lookup_after_decode() {
    let mut sm = SourceMapV3::new();
    let src = sm.add_source("lib.ts");
    let name = sm.add_name("greet");
    sm.add_mapping(0, 0, src, 3, 4, Some(name));

    let json = sm.encode();
    let decoded = SourceMapV3::decode(&json).unwrap();
    let pos = decoded.lookup(0, 0).unwrap();
    assert_eq!(pos.source, "lib.ts");
    assert_eq!(pos.line, 3);
    assert_eq!(pos.column, 4);
    assert_eq!(pos.name.as_deref(), Some("greet"));
}

#[test]
fn test_decode_invalid_version() {
    let json = r#"{"version": 2, "sources": [], "names": [], "mappings": ""}"#;
    assert!(SourceMapV3::decode(json).is_err());
}

#[test]
fn source_map_encode_exact_text() {
    let mut sm = SourceMapV3::new();
    let src = sm.add_source("a\"b.js");
    sm.sources_content[0] = Some("x\ny".to_string());
    sm.add_mapping(1, 4, src, 2, 3, None);
    sm.add_mapping(0, 0, src, 0, 0, None);
    let json = sm.encode();
    assert_eq!(
        json,
        "{\n  \"version\": 3,\n  \"sources\": [\"a\\\"b.js\"],\n  \"sourcesContent\": [\"x\\ny\"],\n  \"names\": [],\n  \"mappings\": \"AAAA;IAEG\"\n}"
    );
}

#[test]
fn source_map_decode_reports_errors() {
    match SourceMapV3::decode("{not json") {
        Err(Error::InternalError(m)) => assert!(m.starts_with("Invalid source map JSON: ")),
        other => panic!("unexpected: {:?}", other.is_ok()),
    }
    match SourceMapV3::decode(r#"{"version": 7}"#) {
        Err(Error::InternalError(m)) => assert_eq!(m, "Unsupported source map version: 7"),
        other => panic!("unexpected: {:?}", other.is_ok()),
    }
}

#[test]
fn source_map_decode_reads_mappings() {
    let json = r#"{"version":3,"sources":["s.js", 5],"names":["n"],"mappings":"AAAAA;;IACA,C"}"#;
    let sm = SourceMapV3::decode(json).unwrap();
    assert_eq!(sm.sources, vec!["s.js"]);
    let p = sm.lookup(0, 0).unwrap();
    assert_eq!((p.line, p.column, p.name.as_deref()), (0, 0, Some("n")));
    let q = sm.lookup(2, 4).unwrap();
    assert_eq!((q.line, q.column, q.name), (1, 0, None));
    // a segment with only a generated column maps nowhere
    assert!(sm.lookup(2, 5).is_none());
}

#[test]
fn source_map_decode_checked_refuses_overflow() {
    // two columns of i64::MAX overflow the running column
    let big = VlqEncoder::encode_vlq(i64::MAX);
    let json = format!("{{\"version\":3,\"mappings\":\"{},{}\"}}", big, big);
    assert!(SourceMapV3::decode_checked(&json).is_none());
    assert!(SourceMapV3::decode_checked(r#"{"version":3,"mappings":"AAAA"}"#).unwrap().is_ok());
}

// -- Diagnostic rendering tests -----------------------------------------

#[test]
fn test_render_error_basic() {
    let err = DiagnosticError {
        message: "Cannot assign to constant variable".to_string(),
        source_file: "script.js".to_string(),
        source_code: "const x = 5;\nx = 10;".to_string(),
        line: 2,
        column: 1,
        length: 6,
        hint: Some("cannot reassign `const` variable".to_string()),
        notes: vec!["declare with `let` instead of `const` to allow reassignment".to_string()],
    };
    let rendered = DiagnosticRenderer::render_error(&err);

    assert!(rendered.contains("error: Cannot assign to constant variable"));
    assert!(rendered.contains("--> script.js:2:1"));
    assert!(rendered.contains("x = 10;"));
    assert!(rendered.contains("^^^^^^"));
    assert!(rendered.contains("cannot reassign `const` variable"));
    assert!(rendered.contains("= help: declare with `let`"));
}

#[test]
fn test_render_warning() {
    let warn = DiagnosticWarning {
        message: "Unused variable 'y'".to_string(),
        source_file: "app.js".to_string(),
        source_code: "let y = 42;".to_string(),
        line: 1,
        column: 5,
        length: 1,
        hint: None,
        notes: vec![],
    };
    let rendered = DiagnosticRenderer::render_warning(&warn);
    assert!(rendered.contains("warning: Unused variable 'y'"));
    assert!(rendered.contains("--> app.js:1:5"));
    assert!(rendered.contains("let y = 42;"));
}

#[test]
fn test_render_diagnostic_enum() {
    let diag = Diagnostic::Error(DiagnosticError {
        message: "test".to_string(),
        source_file: "a.js".to_string(),
        source_code: "x".to_string(),
        line: 1,
        column: 1,
        length: 1,
        hint: None,
        notes: vec![],
    });
    let rendered = DiagnosticRenderer::render(&diag);
    assert!(rendered.starts_with("error:"));
}

#[test]
fn render_exact_layout() {
    let err = DiagnosticError {
        message: "bad".to_string(),
        source_file: "f.js".to_string(),
        source_code: "a\r\nbb\n".to_string(),
        line: 2,
        column: 2,
        length: 0,
        hint: Some("here".to_string()),
        notes: vec!["n1".to_string(), "n2".to_string()],
    };
    assert_eq!(
        DiagnosticRenderer::render_error(&err),
        "error: bad\n  --> f.js:2:2\n   |\n 2 | bb\n   |  ^ here\n   |\n   = help: n1\n   = help: n2\n"
    );
}

#[test]
fn render_line_past_end_has_no_source() {
    let warn = DiagnosticWarning {
        message: "m".to_string(),
        source_file: "f".to_string(),
        source_code: "one".to_string(),
        line: 100,
        column: 3,
        length: 2,
        hint: None,
        notes: vec![],
    };
    assert_eq!(DiagnosticRenderer::render_warning(&warn), "warning: m\n   --> f:100:3\n    |\n");
}
