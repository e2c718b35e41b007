use quicksilver::ffi::native_bridge::{CallingConvention, FfiPermissions, FunctionSignature, NativeType, NativeValue};

#[test]
fn test_native_type_size_of() {
    assert_eq!(NativeType::Void.size_of(), 0);
    assert_eq!(NativeType::Bool.size_of(), 1);
    assert_eq!(NativeType::Int32.size_of(), 4);
    assert_eq!(NativeType::Float64.size_of(), 8);
    assert_eq!(NativeType::Pointer(Box::new(NativeType::Void)).size_of(), 8);
    assert_eq!(NativeType::Array(Box::new(NativeType::Int32), 4).size_of(), 16);
}

#[test]
fn test_native_value_compatibility() {
    assert!(NativeValue::Int32(1).is_compatible_with(&NativeType::Int32));
    assert!(NativeValue::Float64("1.0".to_string()).is_compatible_with(&NativeType::Float64));
    assert!(NativeValue::String("a".into()).is_compatible_with(&NativeType::CString));
    assert!(NativeValue::Null.is_compatible_with(&NativeType::Pointer(Box::new(NativeType::Void))));
    assert!(!NativeValue::String("a".into()).is_compatible_with(&NativeType::Int32));
    assert!(!NativeValue::Int32(1).is_compatible_with(&NativeType::Float64));
}

#[test]
fn test_restrictive_permissions() {
    let perms = FfiPermissions::restrictive();
    assert!(!perms.is_library_allowed("anything"));
    assert_eq!(perms.max_calls_per_second, 100);
    assert!(!perms.allow_callbacks);
    assert!(!perms.allow_pointer_arithmetic);
}

#[test]
fn struct_size_is_sum_of_fields() {
    let t = NativeType::Struct(vec![("a".to_string(), NativeType::Int8), ("b".to_string(), NativeType::Float64)]);
    assert_eq!(t.size_of(), 9);
    assert!(NativeType::Uint16.is_integer());
    assert!(!NativeType::Float32.is_integer());
    assert!(NativeType::Float32.is_float());
}

#[test]
fn default_permissions_allow_every_library() {
    let mut perms = FfiPermissions::default();
    assert!(perms.is_library_allowed("libm"));
    perms.blocked_symbols.push("system".to_string());
    assert!(perms.is_symbol_blocked("system"));
    assert!(!perms.is_symbol_blocked("printf"));
}

#[test]
fn native_type_text_and_mismatch_message() {
    let t = NativeType::Struct(vec![
        ("a\"b".to_string(), NativeType::Int32),
        ("p".to_string(), NativeType::Array(Box::new(NativeType::Uint8), 3)),
    ]);
    let mut s = String::new();
    t.push_text(&mut s);
    assert_eq!(s, "Struct([(\"a\\\"b\", Int32), (\"p\", Array(Uint8, 3))])");
    let sig = FunctionSignature {
        name: "f".to_string(),
        params: vec![NativeType::Int32],
        return_type: NativeType::Void,
        calling_convention: CallingConvention::C,
        is_variadic: false,
    };
    let err = sig.validate_args(&vec![NativeValue::Bool(true)]).unwrap_err();
    assert!(matches!(err, quicksilver::error::Error::InternalError(m) if m == "argument 0 for 'f': type mismatch, expected Int32"));
}
