use quicksilver::error::Error;
use quicksilver::ffi::marshal::NumberReading;
use quicksilver::ffi::native_bridge::{CallingConvention, FunctionSignature, NativeType, NativeValue, TypeMarshaler};
use quicksilver::json::JsonValue;

fn num(u: Option<u64>, text: &str) -> JsonValue {
    JsonValue::Number(u, text.to_string())
}

fn message(r: Result<NativeValue, Error>) -> String {
    match r {
        Err(Error::InternalError(m)) => m,
        other => panic!("expected an internal error, got {:?}", other),
    }
}

#[test]
fn test_type_marshaling_js_to_native() {
    let val = num(Some(42), "42");
    let result = TypeMarshaler::js_to_native(&val, &NativeType::Int32).unwrap();
    assert!(matches!(result, NativeValue::Int32(42)));

    let val = num(None, "3.14");
    let result = TypeMarshaler::js_to_native(&val, &NativeType::Float64).unwrap();
    assert!(matches!(result, NativeValue::Float64(ref t) if (t.parse::<f64>().unwrap() - 3.14).abs() < f64::EPSILON));

    let val = JsonValue::String("hello".to_string());
    let result = TypeMarshaler::js_to_native(&val, &NativeType::CString).unwrap();
    assert!(matches!(result, NativeValue::String(ref s) if s == "hello"));

    let val = JsonValue::Bool(true);
    let result = TypeMarshaler::js_to_native(&val, &NativeType::Bool).unwrap();
    assert!(matches!(result, NativeValue::Bool(true)));
}

#[test]
fn test_type_marshaling_native_to_js() {
    let val = TypeMarshaler::native_to_js(&NativeValue::Int32(42));
    assert_eq!(val, num(Some(42), "42"));

    let val = TypeMarshaler::native_to_js(&NativeValue::Float64("3.14".to_string()));
    assert_eq!(val, num(None, "3.14"));

    let val = TypeMarshaler::native_to_js(&NativeValue::String("hello".into()));
    assert_eq!(val, JsonValue::String("hello".to_string()));

    let val = TypeMarshaler::native_to_js(&NativeValue::Null);
    assert!(matches!(val, JsonValue::Null));
}

#[test]
fn test_type_marshaling_roundtrip() {
    let cases: Vec<(JsonValue, NativeType)> = vec![
        (num(Some(42), "42"), NativeType::Int32),
        (num(Some(255), "255"), NativeType::Uint8),
        (num(None, "3.14"), NativeType::Float64),
        (JsonValue::Bool(true), NativeType::Bool),
        (JsonValue::String("test".to_string()), NativeType::CString),
    ];

    for (js_val, native_type) in cases {
        let native = TypeMarshaler::js_to_native(&js_val, &native_type).unwrap();
        let back = TypeMarshaler::native_to_js(&native);
        assert_eq!(js_val, back, "roundtrip failed for {:?}", native_type);
    }
}

#[test]
fn test_type_marshaling_struct() {
    let struct_type = NativeType::Struct(vec![
        ("x".to_string(), NativeType::Int32),
        ("y".to_string(), NativeType::Int32),
    ]);
    let val = JsonValue::Object(vec![("x".to_string(), num(Some(10), "10")), ("y".to_string(), num(Some(20), "20"))]);
    let native = TypeMarshaler::js_to_native(&val, &struct_type).unwrap();

    if let NativeValue::Struct(fields) = &native {
        assert_eq!(fields.len(), 2);
        assert!(matches!(fields[0], (ref n, NativeValue::Int32(10)) if n == "x"));
        assert!(matches!(fields[1], (ref n, NativeValue::Int32(20)) if n == "y"));
    } else {
        panic!("expected struct");
    }

    let back = TypeMarshaler::native_to_js(&native);
    assert_eq!(back, JsonValue::Object(vec![("x".to_string(), num(Some(10), "10")), ("y".to_string(), num(Some(20), "20"))]));
}

#[test]
fn marshal_integers_truncate_to_the_target() {
    let r = TypeMarshaler::js_to_native(&num(Some(300), "300"), &NativeType::Uint8).unwrap();
    assert_eq!(r, NativeValue::Uint8(44));
    let r = TypeMarshaler::js_to_native(&num(None, "-1"), &NativeType::Uint32).unwrap();
    assert_eq!(r, NativeValue::Uint32(u32::MAX));
    let r = TypeMarshaler::js_to_native(&num(None, "-129"), &NativeType::Int8).unwrap();
    assert_eq!(r, NativeValue::Int8(127));
    let r = TypeMarshaler::js_to_native(&num(None, "3.7"), &NativeType::Int32).unwrap();
    assert_eq!(r, NativeValue::Int32(3));
    let r = TypeMarshaler::js_to_native(&num(None, "-2.9"), &NativeType::Int64).unwrap();
    assert_eq!(r, NativeValue::Int64(-2));
    let r = TypeMarshaler::js_to_native(&num(Some(18446744073709551615), "18446744073709551615"), &NativeType::Uint64).unwrap();
    assert_eq!(r, NativeValue::Uint64(i64::MAX as u64));
}

#[test]
fn marshal_booleans_from_numbers() {
    let r = TypeMarshaler::js_to_native(&num(Some(0), "0"), &NativeType::Bool).unwrap();
    assert_eq!(r, NativeValue::Bool(false));
    let r = TypeMarshaler::js_to_native(&num(None, "-0.0"), &NativeType::Bool).unwrap();
    assert_eq!(r, NativeValue::Bool(false));
    let r = TypeMarshaler::js_to_native(&num(Some(2), "2"), &NativeType::Bool).unwrap();
    assert_eq!(r, NativeValue::Bool(true));
    let r = TypeMarshaler::js_to_native(&num(None, "0.5"), &NativeType::Bool).unwrap();
    assert_eq!(r, NativeValue::Bool(true));
}

#[test]
fn marshal_floats_keep_their_json_text() {
    let r = TypeMarshaler::js_to_native(&num(None, "3.14"), &NativeType::Float32).unwrap();
    assert_eq!(r, NativeValue::Float32("3.140000104904175".to_string()));
    let r = TypeMarshaler::js_to_native(&num(Some(42), "42"), &NativeType::Float64).unwrap();
    assert_eq!(r, NativeValue::Float64("42.0".to_string()));
    let r = TypeMarshaler::js_to_native(&num(None, "1e39"), &NativeType::Float32).unwrap();
    assert_eq!(r, NativeValue::Float32("null".to_string()));
    assert_eq!(TypeMarshaler::native_to_js(&r), JsonValue::Null);
    let back = TypeMarshaler::native_to_js(&NativeValue::Float32("3.140000104904175".to_string()));
    assert_eq!(back, num(None, "3.140000104904175"));
}

#[test]
fn marshal_pointers_and_function_pointers() {
    let ptr = NativeType::Pointer(Box::new(NativeType::Void));
    assert_eq!(TypeMarshaler::js_to_native(&num(Some(4096), "4096"), &ptr).unwrap(), NativeValue::Pointer(4096));
    assert_eq!(TypeMarshaler::js_to_native(&num(None, "-3"), &ptr).unwrap(), NativeValue::Pointer(0));
    assert_eq!(TypeMarshaler::js_to_native(&JsonValue::Null, &ptr).unwrap(), NativeValue::Null);
    let sig = FunctionSignature {
        name: "cb".to_string(),
        params: vec![],
        return_type: NativeType::Void,
        calling_convention: CallingConvention::C,
        is_variadic: false,
    };
    let fp = NativeType::FunctionPointer(Box::new(sig));
    assert_eq!(TypeMarshaler::js_to_native(&num(Some(8), "8"), &fp).unwrap(), NativeValue::Pointer(8));
    assert_eq!(TypeMarshaler::js_to_native(&JsonValue::Null, &fp).map_err(|e| format!("{:?}", e)).unwrap_err(), "InternalError(\"expected function pointer address\")");
    assert_eq!(TypeMarshaler::js_to_native(&JsonValue::Bool(true), &NativeType::Void).unwrap(), NativeValue::Void);
}

#[test]
fn marshal_error_messages() {
    assert_eq!(message(TypeMarshaler::js_to_native(&JsonValue::Null, &NativeType::Bool)), "expected boolean");
    assert_eq!(message(TypeMarshaler::js_to_native(&JsonValue::Null, &NativeType::Int8)), "expected number for i8");
    assert_eq!(message(TypeMarshaler::js_to_native(&JsonValue::Bool(true), &NativeType::Uint64)), "expected number for u64");
    assert_eq!(message(TypeMarshaler::js_to_native(&JsonValue::Null, &NativeType::Float32)), "expected number for f32");
    assert_eq!(message(TypeMarshaler::js_to_native(&num(None, "x"), &NativeType::Uint16)), "cannot convert to u16");
    assert_eq!(message(TypeMarshaler::js_to_native(&num(None, "x"), &NativeType::Float64)), "cannot convert to f64");
    assert_eq!(message(TypeMarshaler::js_to_native(&num(Some(1), "1"), &NativeType::CString)), "expected string");
    let ptr = NativeType::Pointer(Box::new(NativeType::Int8));
    assert_eq!(message(TypeMarshaler::js_to_native(&JsonValue::Bool(false), &ptr)), "expected pointer (number or null)");
    let st = NativeType::Struct(vec![("a".to_string(), NativeType::Int8)]);
    assert_eq!(message(TypeMarshaler::js_to_native(&num(Some(1), "1"), &st)), "expected object for struct");
    let arr = NativeType::Array(Box::new(NativeType::Int8), 2);
    assert_eq!(message(TypeMarshaler::js_to_native(&JsonValue::Null, &arr)), "expected array");
    let three = JsonValue::Array(vec![num(Some(1), "1"), num(Some(2), "2"), num(Some(3), "3")]);
    assert_eq!(message(TypeMarshaler::js_to_native(&three, &arr)), "expected array of length 2, got 3");
}

#[test]
fn marshal_struct_missing_field_reads_null() {
    let st = NativeType::Struct(vec![
        ("p".to_string(), NativeType::Pointer(Box::new(NativeType::Void))),
        ("n".to_string(), NativeType::Int32),
    ]);
    let only_p = JsonValue::Object(vec![("q".to_string(), num(Some(1), "1"))]);
    assert_eq!(message(TypeMarshaler::js_to_native(&only_p, &st)), "expected number for i32");
    let with_n = JsonValue::Object(vec![("n".to_string(), num(Some(5), "5"))]);
    let r = TypeMarshaler::js_to_native(&with_n, &st).unwrap();
    assert_eq!(r, NativeValue::Struct(vec![("p".to_string(), NativeValue::Null), ("n".to_string(), NativeValue::Int32(5))]));
}

#[test]
fn marshal_arrays_item_by_item() {
    let arr = NativeType::Array(Box::new(NativeType::Int16), 2);
    let ok = JsonValue::Array(vec![num(None, "-7"), num(Some(70000), "70000")]);
    let r = TypeMarshaler::js_to_native(&ok, &arr).unwrap();
    assert_eq!(r, NativeValue::Array(vec![NativeValue::Int16(-7), NativeValue::Int16(4464)]));
    let bad = JsonValue::Array(vec![num(Some(1), "1"), JsonValue::Null]);
    assert_eq!(message(TypeMarshaler::js_to_native(&bad, &arr)), "expected number for i16");
    let back = TypeMarshaler::native_to_js(&r);
    assert_eq!(back, JsonValue::Array(vec![num(None, "-7"), num(Some(4464), "4464")]));
}

#[test]
fn native_to_js_sorts_members_and_keeps_the_last() {
    let v = NativeValue::Struct(vec![
        ("y".to_string(), NativeValue::Int8(-5)),
        ("x".to_string(), NativeValue::Uint64(7)),
        ("y".to_string(), NativeValue::Bool(true)),
        ("ab".to_string(), NativeValue::Void),
    ]);
    let j = TypeMarshaler::native_to_js(&v);
    assert_eq!(
        j,
        JsonValue::Object(vec![
            ("ab".to_string(), JsonValue::Null),
            ("x".to_string(), num(Some(7), "7")),
            ("y".to_string(), JsonValue::Bool(true)),
        ])
    );
    assert_eq!(TypeMarshaler::native_to_js(&NativeValue::Int64(i64::MIN)), num(None, "-9223372036854775808"));
    assert_eq!(TypeMarshaler::native_to_js(&NativeValue::Pointer(9)), num(Some(9), "9"));
    assert_eq!(TypeMarshaler::native_to_js(&NativeValue::Void), JsonValue::Null);
}

#[test]
fn number_reading_from_text() {
    let r = NumberReading::of_text("-12.5");
    assert_eq!(r.as_i64, None);
    assert_eq!(r.truncated, Some(-12));
    assert_eq!(r.bits, Some((-12.5f64).to_bits()));
    assert_eq!(r.double_json.as_deref(), Some("-12.5"));
    assert_eq!(r.single_json.as_deref(), Some("-12.5"));
    let r = NumberReading::of_text("17");
    assert_eq!(r.as_i64, Some(17));
    assert_eq!(r.double_json.as_deref(), Some("17.0"));
    let r = NumberReading::of_text("nope");
    assert!(r.as_i64.is_none() && r.truncated.is_none() && r.bits.is_none());
    assert!(r.double_json.is_none() && r.single_json.is_none());
}

#[test]
fn from_number_uses_the_reading_given() {
    let reading = NumberReading {
        as_i64: None,
        truncated: Some(-1),
        bits: Some(0x8000_0000_0000_0000),
        double_json: Some("2.5".to_string()),
        single_json: None,
    };
    assert_eq!(TypeMarshaler::from_number(&reading, &NativeType::Uint8).unwrap(), NativeValue::Uint8(255));
    assert_eq!(TypeMarshaler::from_number(&reading, &NativeType::Bool).unwrap(), NativeValue::Bool(false));
    assert_eq!(TypeMarshaler::from_number(&reading, &NativeType::Float64).unwrap(), NativeValue::Float64("2.5".to_string()));
    assert_eq!(message(TypeMarshaler::from_number(&reading, &NativeType::Float32)), "cannot convert to f32");
}
