use quicksilver::debugger::sourcemap::{
    base64_char_to_int, decode_vlq, encode_vlq, int_to_base64_char, SourceMap, SourceMapRegistry,
};

#[test]
fn test_vlq_decode() {
    assert_eq!(decode_vlq("A").unwrap(), vec![0]);
    assert_eq!(decode_vlq("C").unwrap(), vec![1]);
    assert_eq!(decode_vlq("D").unwrap(), vec![-1]);
    assert_eq!(decode_vlq("AAAA").unwrap(), vec![0, 0, 0, 0]);
}

#[test]
fn test_vlq_roundtrip() {
    let values = vec![0, 5, -3, 100, -50];
    let encoded = encode_vlq(&values);
    let decoded = decode_vlq(&encoded).unwrap();
    assert_eq!(values, decoded);
}

#[test]
fn test_base64_roundtrip() {
    for i in 0..64u8 {
        let ch = int_to_base64_char(i).unwrap();
        assert_eq!(base64_char_to_int(ch), Some(i));
    }
}

#[test]
fn base64_out_of_range() {
    assert_eq!(int_to_base64_char(64), None);
    assert_eq!(base64_char_to_int('='), None);
    assert_eq!(int_to_base64_char(0), Some('A'));
    assert_eq!(int_to_base64_char(63), Some('/'));
}

#[test]
fn vlq_decode_invalid_character() {
    assert_eq!(decode_vlq("AB*C").unwrap_err(), "Invalid VLQ character: *");
}

#[test]
fn vlq_encode_exact_text() {
    assert_eq!(encode_vlq(&[16, -16, 1000]), "gBhBw+B");
}

#[test]
fn test_source_map_parse() {
    let json = r#"{
        "version": 3,
        "file": "out.js",
        "sourceRoot": "",
        "sources": ["input.ts"],
        "names": ["greet"],
        "mappings": "AAAA,SAASA;IACL,OAAO"
    }"#;

    let map = SourceMap::from_json(json).unwrap();
    assert_eq!(map.version, 3);
    assert_eq!(map.file, Some("out.js".to_string()));
    assert_eq!(map.sources, vec!["input.ts"]);
    assert_eq!(map.names, vec!["greet"]);
    assert!(!map.mappings.is_empty());
}

#[test]
fn test_source_map_empty_mappings() {
    let json = r#"{"version":3,"sources":[],"names":[],"mappings":""}"#;
    let map = SourceMap::from_json(json).unwrap();
    assert!(map.sources.is_empty());
}

#[test]
fn test_source_map_lookup() {
    let json = r#"{
        "version": 3,
        "sources": ["app.ts"],
        "names": [],
        "mappings": "AAAA;AACA"
    }"#;
    let map = SourceMap::from_json(json).unwrap();

    // Line 0, column 0 should map to app.ts
    if let Some(pos) = map.original_position_for(0, 0) {
        assert_eq!(pos.source, "app.ts");
        assert_eq!(pos.line, 0);
    }
}

#[test]
fn test_source_map_with_source_root() {
    let json = r#"{
        "version": 3,
        "sourceRoot": "src/",
        "sources": ["app.ts"],
        "names": [],
        "mappings": "AAAA"
    }"#;
    let map = SourceMap::from_json(json).unwrap();
    if let Some(pos) = map.original_position_for(0, 0) {
        assert_eq!(pos.source, "src/app.ts");
    }
}

#[test]
fn test_invalid_version() {
    let json = r#"{"version":2,"sources":[],"names":[],"mappings":""}"#;
    assert!(SourceMap::from_json(json).is_err());
}

#[test]
fn source_map_errors_are_exact() {
    assert_eq!(SourceMap::from_json(r#"{"sources":[]}"#).unwrap_err(), "Missing version field");
    assert_eq!(
        SourceMap::from_json(r#"{"version":4}"#).unwrap_err(),
        "Unsupported source map version: 4"
    );
    assert_eq!(
        SourceMap::from_json(r#"{"version":3,"mappings":"A?A"}"#).unwrap_err(),
        "Invalid VLQ character: ?"
    );
}

#[test]
fn source_map_lines_and_lookups() {
    let json = r#"{"version":3,"sources":["a.ts","b.ts"],"sourcesContent":["A", null],"names":["f"],"mappings":"AAAAA,IACA;;ACAA"}"#;
    let map = SourceMap::from_json(json).unwrap();
    assert_eq!(map.mappings.len(), 3);
    assert_eq!(map.mappings[0].len(), 2);
    assert!(map.mappings[1].is_empty());
    let p = map.original_position_for(0, 5).unwrap();
    assert_eq!((p.source.as_str(), p.line, p.column, p.name), ("a.ts", 1, 0, None));
    let q = map.original_position_for(0, 3).unwrap();
    assert_eq!(q.name.as_deref(), Some("f"));
    let r = map.original_position_for(2, 0).unwrap();
    assert_eq!((r.source.as_str(), r.line), ("b.ts", 1));
    assert!(map.original_position_for(7, 0).is_none());
    let g = map.generated_position_for("a.ts", 1, 9).unwrap();
    assert_eq!((g.line, g.column), (0, 4));
    assert!(map.generated_position_for("c.ts", 0, 0).is_none());
    assert_eq!(map.source_content(0), Some("A"));
    assert_eq!(map.source_content(1), None);
    assert_eq!(map.source_content(2), None);
}

#[test]
fn registry_answers_by_file() {
    let json = r#"{"version":3,"sources":["input.ts"],"names":[],"mappings":"AAAA"}"#;
    let mut reg = SourceMapRegistry::new();
    reg.register("out.js".to_string(), SourceMap::from_json(json).unwrap());
    assert!(reg.get("out.js").is_some());
    assert!(reg.get("other.js").is_none());
    let pos = reg.original_position("out.js", 0, 0).unwrap();
    assert_eq!(pos.source, "input.ts");
    assert!(reg.original_position("other.js", 0, 0).is_none());
}
