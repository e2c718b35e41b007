use quicksilver::debugger::ui::{compute_diff, ChangeType};
use quicksilver::debugger::server::{
    api_state, breakpoint_infos, change_entries, error_response, history_entries, html_response, json_response,
    preflight_response, record_response, trim_text,
};
use quicksilver::debugger::sourcemap::{source_map_reference, MapReference};
use quicksilver::debugger::TimeTravelDebugger;
use quicksilver::durable::{stored_members, stored_text};
use quicksilver::error::Error;
use quicksilver::json::JsonValue;
use quicksilver::value::{strict_equals, JsValue};

fn num(x: f64) -> JsValue {
    JsValue::Number(x.to_bits())
}

#[test]
fn stored_state_text_is_read_member_by_member() {
    let ms = stored_members("{\"a\": 1, \"b\": \"x\"}").unwrap();
    assert_eq!(ms.len(), 2);
    assert_eq!(ms[0].0, "a");
    match &ms[0].1 {
        JsonValue::Number(Some(1), t) => assert_eq!(t, "1"),
        other => panic!("unexpected {:?}", other),
    }
    assert!(stored_members("[1, 2]").unwrap().is_empty());
    match stored_members("{oops") {
        Err(Error::ModuleError(m)) => assert!(m.starts_with("Invalid JSON: ")),
        other => panic!("unexpected {:?}", other),
    }
}

#[test]
fn stored_state_is_written_as_indented_json() {
    let text = stored_text(vec![
        ("b".to_string(), JsonValue::Number(None, "2.5".to_string())),
        ("a".to_string(), JsonValue::Bool(true)),
    ])
    .unwrap();
    assert_eq!(text, "{\n  \"a\": true,\n  \"b\": 2.5\n}");
    let back = stored_members(&text).unwrap();
    assert_eq!(back.len(), 2);
}

#[test]
fn responses_carry_their_length_and_headers() {
    assert_eq!(
        json_response("{\"é\":1}"),
        "HTTP/1.1 200 OK\r\nContent-Type: application/json\r\nAccess-Control-Allow-Origin: *\r\nContent-Length: 8\r\n\r\n{\"é\":1}"
    );
    assert_eq!(html_response("<p>"), "HTTP/1.1 200 OK\r\nContent-Type: text/html; charset=utf-8\r\nContent-Length: 3\r\n\r\n<p>");
    assert_eq!(
        error_response(404, "Not Found"),
        "HTTP/1.1 404 Not Found\r\nContent-Type: application/json\r\nContent-Length: 22\r\n\r\n{\"error\": \"Not Found\"}"
    );
    assert!(error_response(418, "x").starts_with("HTTP/1.1 418 Error\r\n"));
    assert!(preflight_response().contains("Access-Control-Max-Age: 86400\r\n"));
}

#[test]
fn api_answers_are_built_from_the_debugger() {
    let mut d = TimeTravelDebugger::new();
    d.load_source("app.js", "a\nb\n");
    let locals = vec![("x".to_string(), num(1.0))];
    d.record_step(None, 0, 1, &vec![], &locals, "one");
    d.record_step(None, 1, 2, &vec![], &locals, "two");
    d.add_breakpoint(2, Some("x > 1".to_string()));
    let st = api_state(&d);
    assert_eq!((st.current_step, st.current_line, st.history_size, st.is_paused), (2, 2, 2, false));
    assert_eq!(st.filename, "app.js");
    let h = history_entries(&d);
    assert_eq!(h.len(), 2);
    assert!(!h[0].is_current && h[1].is_current);
    let r = record_response(d.current().unwrap(), &vec!["1".to_string()]);
    assert_eq!(r.locals[0].value, "1");
    assert_eq!(r.locals[0].var_type, "number");
    let b = breakpoint_infos(&d);
    assert_eq!(b.len(), 1);
    assert_eq!(b[0].condition, Some("x > 1".to_string()));
    let c = change_entries(&vec![(3, num(2.0))], &vec!["2".to_string()]);
    assert_eq!((c[0].step, c[0].old_value.clone(), c[0].new_value.clone()), (3, None, "2".to_string()));
}

#[test]
fn variable_changes_use_strict_equality() {
    let mut d = TimeTravelDebugger::new();
    for (i, v) in [num(1.0), num(1.0), num(0.0), num(-0.0), num(f64::NAN), num(f64::NAN)].into_iter().enumerate() {
        d.record_step(None, i, 1, &vec![], &vec![("x".to_string(), v)], "s");
    }
    let steps: Vec<u64> = d.find_variable_changes("x").iter().map(|c| c.0).collect();
    assert_eq!(steps, vec![1, 3, 5, 6]);
    assert!(strict_equals(&num(0.0), &num(-0.0)));
    assert!(!strict_equals(&num(f64::NAN), &num(f64::NAN)));
    assert!(strict_equals(&JsValue::String("a".to_string()), &JsValue::String("a".to_string())));
}

#[test]
fn scripts_name_their_source_maps() {
    assert_eq!(source_map_reference("let a;\n//# sourceMappingURL=app.js.map \n"), MapReference::External("app.js.map".to_string()));
    assert_eq!(source_map_reference("//# sourceMappingURL=data:application/json;base64,e30="), MapReference::Inline);
    assert_eq!(source_map_reference("let a;\n"), MapReference::NoMap);
    assert_eq!(
        source_map_reference("//# sourceMappingURL=a.map\n//# sourceMappingURL=b.map\n"),
        MapReference::External("b.map".to_string())
    );
    assert_eq!(trim_text(" \t x y \n"), "x y");
}

#[test]
fn history_search_ignores_case_in_names_and_values() {
    let mut d = TimeTravelDebugger::new();
    d.record_step(None, 0, 1, &vec![], &vec![("count".to_string(), num(1.0))], "a");
    d.record_step(None, 1, 2, &vec![], &vec![("Name".to_string(), JsValue::String("Alice".to_string()))], "b");
    let shown = vec![vec!["1".to_string()], vec!["Alice".to_string()]];
    assert_eq!(d.search_history("NAME", &shown), vec![1]);
    assert_eq!(d.search_history("ali", &shown), vec![1]);
    assert_eq!(d.search_history("1", &shown), vec![0]);
    assert_eq!(d.search_history("zzz", &shown), Vec::<usize>::new());
}

#[test]
fn diff_names_created_modified_and_deleted_variables() {
    let mut d = TimeTravelDebugger::new();
    d.record_step(None, 0, 1, &vec![], &vec![("a".to_string(), num(1.0)), ("b".to_string(), num(2.0))], "s1");
    d.record_step(None, 1, 2, &vec![], &vec![("a".to_string(), num(1.0)), ("b".to_string(), num(3.0)), ("c".to_string(), num(4.0))], "s2");
    d.record_step(None, 2, 3, &vec![], &vec![("c".to_string(), num(4.0))], "s3");
    let h = d.history();
    let first = compute_diff(None, &h[0]);
    assert_eq!(first.len(), 2);
    assert!(first.iter().all(|x| x.change_type == ChangeType::Created));
    let second = compute_diff(Some(&h[0]), &h[1]);
    let kinds: Vec<(String, ChangeType)> = second.iter().map(|x| (x.name.clone(), x.change_type)).collect();
    assert_eq!(kinds, vec![("b".to_string(), ChangeType::Modified), ("c".to_string(), ChangeType::Created)]);
    let third = compute_diff(Some(&h[1]), &h[2]);
    let kinds: Vec<(String, ChangeType)> = third.iter().map(|x| (x.name.clone(), x.change_type)).collect();
    assert_eq!(kinds, vec![("a".to_string(), ChangeType::Deleted), ("b".to_string(), ChangeType::Deleted)]);
}
