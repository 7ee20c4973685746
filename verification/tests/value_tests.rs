use serfig::merge::{merge, merge_with_default};
use serfig::value::{deep_clone, is_default, value_eq, Value};

fn s(x: &str) -> Value {
    Value::Str(x.to_string())
}

#[test]
fn test_is_default_scalars() {
    assert!(is_default(&Value::Unit));
    assert!(is_default(&Value::Bool(false)));
    assert!(!is_default(&Value::Bool(true)));
    assert!(is_default(&Value::I64(0)));
    assert!(!is_default(&Value::I64(7)));
    assert!(is_default(&Value::U8(0)));
    assert!(!is_default(&Value::U128(1)));
    assert!(is_default(&Value::Char('\0')));
    assert!(!is_default(&Value::Char('a')));
    assert!(is_default(&s("")));
    assert!(!is_default(&s("x")));
    assert!(is_default(&Value::Bytes(Vec::new())));
    assert!(!is_default(&Value::Bytes(vec![0u8])));
}

#[test]
fn test_is_default_floats() {
    assert!(is_default(&Value::F64Bits(0.0f64.to_bits())));
    assert!(is_default(&Value::F64Bits((-0.0f64).to_bits())));
    assert!(!is_default(&Value::F64Bits(1.5f64.to_bits())));
    assert!(is_default(&Value::F32Bits(0.0f32.to_bits())));
    assert!(is_default(&Value::F32Bits((-0.0f32).to_bits())));
    assert!(!is_default(&Value::F32Bits(2.5f32.to_bits())));
}

#[test]
fn test_is_default_optional_and_wrappers() {
    assert!(is_default(&Value::OptionNone));
    assert!(is_default(&Value::OptionSome(Box::new(Value::I64(0)))));
    assert!(!is_default(&Value::OptionSome(Box::new(Value::I64(3)))));
    assert!(is_default(&Value::UnitStruct("marker".to_string())));
    assert!(is_default(&Value::NewtypeStruct(
        "wrap".to_string(),
        Box::new(s("")),
    )));
    assert!(!is_default(&Value::NewtypeStruct(
        "wrap".to_string(),
        Box::new(s("x")),
    )));
}

// A bare enum case never counts as default: nothing says which variant a
// schema treats as the zero case.
#[test]
fn test_unit_variant_never_default() {
    let v = Value::UnitVariant {
        name: "Mode".to_string(),
        variant_index: 0,
        variant: "Off".to_string(),
    };
    assert!(!is_default(&v));
}

#[test]
fn test_is_default_collections() {
    assert!(is_default(&Value::Sequence(Vec::new())));
    assert!(!is_default(&Value::Sequence(vec![Value::Unit])));
    assert!(is_default(&Value::Mapping(Vec::new())));
    assert!(!is_default(&Value::Mapping(vec![(s("k"), s("v"))])));
    assert!(is_default(&Value::Struct("cfg".to_string(), Vec::new())));
    assert!(is_default(&Value::Tuple(Vec::new())));
}

#[test]
fn test_value_eq_deep() {
    let a = Value::Mapping(vec![
        (s("k"), Value::Sequence(vec![Value::I64(1), s("two")])),
        (s("m"), Value::OptionSome(Box::new(Value::Bool(true)))),
    ]);
    let b = deep_clone(&a);
    assert!(value_eq(&a, &b));

    let c = Value::Mapping(vec![
        (s("k"), Value::Sequence(vec![Value::I64(1), s("two")])),
        (s("m"), Value::OptionSome(Box::new(Value::Bool(false)))),
    ]);
    assert!(!value_eq(&a, &c));

    // Different shapes are never equal.
    assert!(!value_eq(&Value::I64(0), &Value::U64(0)));
    assert!(!value_eq(&Value::Unit, &Value::OptionNone));
}

#[test]
fn test_value_eq_entry_order_matters() {
    let a = Value::Mapping(vec![(s("x"), Value::I64(1)), (s("y"), Value::I64(2))]);
    let b = Value::Mapping(vec![(s("y"), Value::I64(2)), (s("x"), Value::I64(1))]);
    assert!(!value_eq(&a, &b));
}

#[test]
fn test_deep_clone_variants() {
    let v = Value::StructVariant {
        name: "E".to_string(),
        variant_index: 3,
        variant: "V".to_string(),
        fields: vec![(
            "inner".to_string(),
            Value::TupleVariant {
                name: "T".to_string(),
                variant_index: 1,
                variant: "W".to_string(),
                elements: vec![Value::Bytes(vec![1, 2, 3]), Value::Char('q')],
            },
        )],
    };
    let w = deep_clone(&v);
    assert!(value_eq(&v, &w));
}

#[test]
fn test_empty_collections_merge_to_empty() {
    let got = merge(Value::Mapping(Vec::new()), Value::Mapping(Vec::new()));
    assert!(value_eq(&got, &Value::Mapping(Vec::new())));

    let d = Value::Struct("cfg".to_string(), vec![("x".to_string(), s("d"))]);
    let got = merge_with_default(d, Value::Struct("cfg".to_string(), Vec::new()));
    assert!(value_eq(&got, &Value::Struct("cfg".to_string(), Vec::new())));
}
