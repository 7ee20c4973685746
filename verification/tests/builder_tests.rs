use serfig::builder::{accumulate, build_value, finish_build, BuildError, SourceOutcome};
use serfig::merge::MergeError;
use serfig::value::{deep_clone, value_eq, Value};

fn s(x: &str) -> Value {
    Value::Str(x.to_string())
}

fn structure(name: &str, fields: Vec<(&str, Value)>) -> Value {
    Value::Struct(
        name.to_string(),
        fields.into_iter().map(|(k, v)| (k.to_string(), v)).collect(),
    )
}

// The concrete layered scenario: an environment-like source sets `test_a`
// and leaves `test_b` at its own default-for-string, a file-like source
// sets `test_b`; neither layer's unset field erases the other's explicit
// setting.
#[test]
fn test_layered_scenario() {
    let default = structure(
        "TestConfig",
        vec![("test_a", s("")), ("test_b", s("Hello, World!"))],
    );
    let source1 = structure(
        "TestConfig",
        vec![("test_a", s("test_a")), ("test_b", s(""))],
    );
    let source2 = structure("TestConfig", vec![("test_b", s("test_b"))]);
    let got = build_value(
        default,
        vec![
            SourceOutcome::Collected(source1),
            SourceOutcome::Collected(source2),
        ],
    )
    .expect("must success");
    let expect = structure(
        "TestConfig",
        vec![("test_a", s("test_a")), ("test_b", s("test_b"))],
    );
    assert!(value_eq(&got, &expect));
}

// Order sensitivity: two sources that set the same field to different
// non-default values give different results in the two orders.
#[test]
fn test_order_sensitivity() {
    let default = structure("cfg", vec![("x", s("")), ("y", s(""))]);
    let a = structure("cfg", vec![("x", s("from_a")), ("y", s("side"))]);
    let b = structure("cfg", vec![("x", s("from_b"))]);

    let got_ab = build_value(
        deep_clone(&default),
        vec![
            SourceOutcome::Collected(deep_clone(&a)),
            SourceOutcome::Collected(deep_clone(&b)),
        ],
    )
    .expect("must success");
    let got_ba = build_value(
        default,
        vec![SourceOutcome::Collected(b), SourceOutcome::Collected(a)],
    )
    .expect("must success");

    let expect_ab = structure("cfg", vec![("x", s("from_b")), ("y", s("side"))]);
    let expect_ba = structure("cfg", vec![("x", s("from_a")), ("y", s("side"))]);
    assert!(value_eq(&got_ab, &expect_ab));
    assert!(value_eq(&got_ba, &expect_ba));
    assert!(!value_eq(&got_ab, &got_ba));
}

// Recovery: a middle source that fails to collect contributes nothing, and
// the build's outcome is as if it were absent.
#[test]
fn test_middle_source_recovery() {
    let default = structure("cfg", vec![("x", s("")), ("y", s(""))]);
    let a = structure("cfg", vec![("x", s("first"))]);
    let b = structure("cfg", vec![("y", s("second"))]);

    let with_failed = build_value(
        deep_clone(&default),
        vec![
            SourceOutcome::Collected(deep_clone(&a)),
            SourceOutcome::Failed,
            SourceOutcome::Collected(deep_clone(&b)),
        ],
    )
    .expect("must success");
    let without = build_value(
        default,
        vec![SourceOutcome::Collected(a), SourceOutcome::Collected(b)],
    )
    .expect("must success");

    let expect = structure("cfg", vec![("x", s("first")), ("y", s("second"))]);
    assert!(value_eq(&with_failed, &expect));
    assert!(value_eq(&without, &expect));
}

// With no layer at all, the final value is the default snapshot itself.
#[test]
fn test_no_layers_yields_default() {
    let default = structure("cfg", vec![("x", s("d"))]);
    let got = build_value(deep_clone(&default), Vec::new()).expect("must success");
    assert!(value_eq(&got, &default));
}

// Every source failing to collect leaves nothing to deserialize.
#[test]
fn test_all_sources_failed() {
    let default = structure("cfg", vec![("x", s(""))]);
    let accs = accumulate(
        &default,
        vec![SourceOutcome::Failed, SourceOutcome::Failed],
    )
    .expect("failed layers alone cannot be inconsistent");
    assert_eq!(accs.len(), 0);
    let candidates: Vec<Option<i64>> = accs.iter().map(|_| None).collect();
    let got = finish_build(candidates);
    assert!(matches!(got, Err(BuildError::NoValidValue)));
}

// The last successfully projected candidate wins; with none, the build
// reports the single terminal error.
#[test]
fn test_finish_build_selection() {
    let got = finish_build(vec![Some(1i64), None, Some(2i64), None]);
    assert!(matches!(got, Ok(2)));

    let got = finish_build::<i64>(vec![None, None, None]);
    assert!(matches!(got, Err(BuildError::NoValidValue)));

    let got = finish_build::<i64>(Vec::new());
    assert!(matches!(got, Err(BuildError::NoValidValue)));
}

// A layer whose snapshot carries a key the default lacks aborts the build
// with the internal-consistency error.
#[test]
fn test_inconsistent_layer_aborts() {
    let default = structure("cfg", vec![("x", s(""))]);
    let bad = structure("cfg", vec![("x", s("ok")), ("mystery", s("?"))]);
    let got = build_value(default, vec![SourceOutcome::Collected(bad)]);
    assert!(matches!(got, Err(MergeError::MissingDefault)));
}

// An enum-valued field is replaced wholesale by a later layer's different
// variant, never filled in field by field; and a later layer that sets it
// back to the default's variant is indistinguishable from leaving it unset.
#[test]
fn test_variant_replaced_wholesale() {
    let variant_a = Value::StructVariant {
        name: "Mode".to_string(),
        variant_index: 0,
        variant: "A".to_string(),
        fields: vec![("speed".to_string(), Value::I64(1))],
    };
    let variant_b = Value::StructVariant {
        name: "Mode".to_string(),
        variant_index: 1,
        variant: "B".to_string(),
        fields: vec![("depth".to_string(), Value::I64(2))],
    };
    let variant_c = Value::StructVariant {
        name: "Mode".to_string(),
        variant_index: 2,
        variant: "C".to_string(),
        fields: vec![("width".to_string(), Value::I64(3))],
    };
    let default = structure("cfg", vec![("mode", deep_clone(&variant_a))]);

    // A different variant in a later layer replaces the earlier one
    // wholesale: none of variant B's fields survive into variant C.
    let got = build_value(
        deep_clone(&default),
        vec![
            SourceOutcome::Collected(structure("cfg", vec![("mode", deep_clone(&variant_b))])),
            SourceOutcome::Collected(structure("cfg", vec![("mode", deep_clone(&variant_c))])),
        ],
    )
    .expect("must success");
    let expect = structure("cfg", vec![("mode", deep_clone(&variant_c))]);
    assert!(value_eq(&got, &expect));

    // Setting the field back to the default's variant counts as unset, so
    // the earlier layer's variant stays.
    let got = build_value(
        default,
        vec![
            SourceOutcome::Collected(structure("cfg", vec![("mode", deep_clone(&variant_b))])),
            SourceOutcome::Collected(structure("cfg", vec![("mode", variant_a)])),
        ],
    )
    .expect("must success");
    let expect = structure("cfg", vec![("mode", variant_b)]);
    assert!(value_eq(&got, &expect));
}
