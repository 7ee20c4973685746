use serfig::merge::{merge, merge_defaultable, merge_with_default, MergeError};
use serfig::value::{deep_clone, value_eq, Value};

fn s(x: &str) -> Value {
    Value::Str(x.to_string())
}

fn map(entries: Vec<(Value, Value)>) -> Value {
    Value::Mapping(entries)
}

fn structure(name: &str, fields: Vec<(&str, Value)>) -> Value {
    Value::Struct(
        name.to_string(),
        fields.into_iter().map(|(k, v)| (k.to_string(), v)).collect(),
    )
}

fn f64v(x: f64) -> Value {
    Value::F64Bits(x.to_bits())
}

#[test]
fn test_merge() {
    let l = map(vec![
        (s("only_in_l"), Value::I64(1)),
        (
            s("struct"),
            structure(
                "test",
                vec![("only_in_l", Value::U64(2)), ("common", f64v(3.4))],
            ),
        ),
    ]);
    let r = map(vec![
        (s("only_in_r"), Value::I64(2)),
        (
            s("struct"),
            structure(
                "test",
                vec![("only_in_r", Value::U64(1)), ("common", f64v(5.6))],
            ),
        ),
    ]);
    // The left operand's keys keep their positions and the right operand's
    // novel keys are appended, so the expected entry order follows from the
    // inputs' orders.
    let expect = map(vec![
        (s("only_in_l"), Value::I64(1)),
        (
            s("struct"),
            structure(
                "test",
                vec![
                    ("only_in_l", Value::U64(2)),
                    ("common", f64v(5.6)),
                    ("only_in_r", Value::U64(1)),
                ],
            ),
        ),
        (s("only_in_r"), Value::I64(2)),
    ]);
    let got = merge(l, r);
    assert!(value_eq(&got, &expect));
}

#[test]
fn test_merge_defaultable() {
    let default = map(vec![
        (s("default_value"), Value::I64(1)),
        (
            s("struct"),
            structure(
                "test",
                vec![("only_in_l", Value::U64(100)), ("common", f64v(9.7))],
            ),
        ),
    ]);
    let l = map(vec![
        (s("only_in_l"), Value::I64(1)),
        (
            s("struct"),
            structure(
                "test",
                vec![("only_in_l", Value::U64(2)), ("common", f64v(3.4))],
            ),
        ),
    ]);
    let r = map(vec![
        (s("only_in_r"), Value::I64(2)),
        (
            s("struct"),
            structure(
                "test",
                vec![("only_in_r", Value::U64(1)), ("common", f64v(5.6))],
            ),
        ),
    ]);
    // The candidate carries the key "only_in_r" that the default snapshot
    // lacks, so no precedence decision is possible for it: the merge
    // reports the internal-consistency error instead of guessing.
    let got = merge_defaultable(default, l, r);
    assert!(matches!(got, Err(MergeError::MissingDefault)));
}

#[test]
fn test_merge_defaultable_covering_default() {
    let default = map(vec![
        (s("default_value"), Value::I64(1)),
        (s("only_in_l"), Value::I64(0)),
        (s("only_in_r"), Value::I64(0)),
        (
            s("struct"),
            structure(
                "test",
                vec![
                    ("only_in_l", Value::U64(100)),
                    ("common", f64v(9.7)),
                    ("only_in_r", Value::U64(0)),
                ],
            ),
        ),
    ]);
    let l = map(vec![
        (s("only_in_l"), Value::I64(1)),
        (
            s("struct"),
            structure(
                "test",
                vec![("only_in_l", Value::U64(2)), ("common", f64v(3.4))],
            ),
        ),
    ]);
    let r = map(vec![
        (s("only_in_r"), Value::I64(2)),
        (
            s("struct"),
            structure(
                "test",
                vec![("only_in_r", Value::U64(1)), ("common", f64v(5.6))],
            ),
        ),
    ]);
    let expect = map(vec![
        (s("only_in_l"), Value::I64(1)),
        (
            s("struct"),
            structure(
                "test",
                vec![
                    ("only_in_l", Value::U64(2)),
                    ("common", f64v(5.6)),
                    ("only_in_r", Value::U64(1)),
                ],
            ),
        ),
        (s("only_in_r"), Value::I64(2)),
    ]);
    let got = merge_defaultable(default, l, r).expect("default covers every candidate key");
    assert!(value_eq(&got, &expect));
}

// Default-aware precedence: an untouched candidate field never overwrites a
// previously set field, but a touched one does.
#[test]
fn test_default_aware_precedence() {
    let d = structure("config", vec![("a", s("")), ("b", s("X"))]);
    let a1 = structure("config", vec![("a", s("set")), ("b", s("X"))]);
    let c1 = structure("config", vec![("a", s("")), ("b", s("Y"))]);
    let expect = structure("config", vec![("a", s("set")), ("b", s("Y"))]);
    let got = merge_defaultable(d, a1, c1).expect("compatible shapes and covering default");
    assert!(value_eq(&got, &expect));
}

// Right-bias of the two-way merge on scalars and on shape-mismatched values.
#[test]
fn test_merge_right_bias() {
    let got = merge(Value::I64(1), Value::I64(2));
    assert!(value_eq(&got, &Value::I64(2)));

    let got = merge(s("left"), Value::Bool(true));
    assert!(value_eq(&got, &Value::Bool(true)));

    let l = structure("a_struct", vec![("x", Value::I64(1))]);
    let r = map(vec![(s("x"), Value::I64(2))]);
    let expect = map(vec![(s("x"), Value::I64(2))]);
    let got = merge(l, r);
    assert!(value_eq(&got, &expect));
}

// Struct-name guard: different declared names are never merged field by
// field; the right operand replaces the left wholesale.
#[test]
fn test_struct_name_guard() {
    let l = structure("alpha", vec![("x", Value::I64(1)), ("y", Value::I64(3))]);
    let r = structure("beta", vec![("x", Value::I64(2))]);
    let expect = structure("beta", vec![("x", Value::I64(2))]);
    let got = merge(deep_clone(&l), deep_clone(&r));
    assert!(value_eq(&got, &expect));

    let d = structure("alpha", vec![("x", Value::I64(0)), ("y", Value::I64(0))]);
    let got3 = merge_defaultable(d, l, r).expect("mismatched names merge without recursion");
    assert!(value_eq(&got3, &expect));
}

// A variant identity must match in all three parts for recursion.
#[test]
fn test_struct_variant_identity() {
    let lv = Value::StructVariant {
        name: "E".to_string(),
        variant_index: 0,
        variant: "A".to_string(),
        fields: vec![("x".to_string(), Value::I64(1))],
    };
    let rv = Value::StructVariant {
        name: "E".to_string(),
        variant_index: 1,
        variant: "B".to_string(),
        fields: vec![("x".to_string(), Value::I64(2))],
    };
    let got = merge(lv, deep_clone(&rv));
    assert!(value_eq(&got, &rv));
}

// Normalization keeps exactly the candidate's keys, recursing where the
// default knows the key.
#[test]
fn test_merge_with_default_shape() {
    let d = structure(
        "config",
        vec![
            ("inner", structure("inner", vec![("x", s("")), ("y", s(""))])),
            ("z", s("")),
        ],
    );
    let v = structure(
        "config",
        vec![("inner", structure("inner", vec![("x", s("set"))]))],
    );
    let got = merge_with_default(d, v);
    let expect = structure(
        "config",
        vec![("inner", structure("inner", vec![("x", s("set"))]))],
    );
    assert!(value_eq(&got, &expect));
}

// Idempotence of defaults: merging a candidate equal to the default
// snapshot into an accumulated state whose keys cover the default's is a
// no-op.
#[test]
fn test_merge_default_candidate_is_noop() {
    let d = structure("config", vec![("a", s("")), ("b", s("X"))]);
    let a = structure(
        "config",
        vec![("a", s("set")), ("b", s("X")), ("extra", s("kept"))],
    );
    let got = merge_defaultable(deep_clone(&d), deep_clone(&a), d)
        .expect("the candidate is the default itself");
    assert!(value_eq(&got, &a));
}
