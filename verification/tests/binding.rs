//! End-to-end tests of the binder against concrete environments.

use env_bind::bind::{bind, bind_with_prefix, from_defaults, Bindable, FromEnv};
use env_bind::digits::DigitContainer;
use env_bind::env::{EnvMap, EnvVal};
use env_bind::error::FromEnvError;
use env_bind::schema::{FieldKind, FieldSchema, ScalarKind, Schema};
use env_bind::value::{record_default, Record, Scalar, Value};

fn field(fragment: &str, kind: FieldKind) -> FieldSchema {
    FieldSchema { fragment: fragment.to_string(), ignored: false, kind }
}

fn sub_fields() -> Vec<FieldSchema> {
    vec![field("PORT", FieldKind::Scalar(ScalarKind::U16))]
}

/// A schema like the motivating record: a text name, an ignored field, a
/// nested record, a sequence of scalars, and a sequence of nested records.
fn test_schema() -> Schema {
    Schema {
        prefix: "TEST_PREFIX_".to_string(),
        fields: vec![
            field("NAME", FieldKind::Scalar(ScalarKind::Text)),
            FieldSchema {
                fragment: "IGNORED".to_string(),
                ignored: true,
                kind: FieldKind::Scalar(ScalarKind::U32),
            },
            field("SUB", FieldKind::Nested(sub_fields())),
            field("ARRAY", FieldKind::Sequence(ScalarKind::U32)),
            field("SUB_STRUCTS", FieldKind::NestedSequence(sub_fields())),
        ],
    }
}

fn env_of(pairs: &[(&str, &str)]) -> EnvMap {
    let mut env = EnvMap::new();
    for (k, v) in pairs {
        env.insert(k.to_string(), EnvVal::Text(v.to_string()));
    }
    env
}

fn text_field(rec: &Record, i: usize) -> &str {
    match &rec.values[i] {
        Value::Scalar(Scalar::Text(s)) => s,
        other => panic!("expected a text field, got {other:?}"),
    }
}

fn sub_port(rec: &Record, i: usize) -> u16 {
    match &rec.values[i] {
        Value::Nested(sub) => match &sub.values[0] {
            Value::Scalar(Scalar::U16(p)) => *p,
            other => panic!("expected a u16 port, got {other:?}"),
        },
        other => panic!("expected a nested record, got {other:?}"),
    }
}

fn array_field(rec: &Record, i: usize) -> Vec<u32> {
    match &rec.values[i] {
        Value::Sequence(items) => items
            .iter()
            .map(|s| match s {
                Scalar::U32(v) => *v,
                other => panic!("expected a u32 item, got {other:?}"),
            })
            .collect(),
        other => panic!("expected a sequence, got {other:?}"),
    }
}

fn sub_struct_ports(rec: &Record, i: usize) -> Vec<u16> {
    match &rec.values[i] {
        Value::NestedSequence(items) => items
            .iter()
            .map(|r| match &r.values[0] {
                Value::Scalar(Scalar::U16(p)) => *p,
                other => panic!("expected a u16 port, got {other:?}"),
            })
            .collect(),
        other => panic!("expected a nested sequence, got {other:?}"),
    }
}

#[test]
fn absence_is_a_no_op() {
    let schema = test_schema();
    let mut rec = record_default(&schema.fields);
    let env = env_of(&[("UNRELATED", "zzz")]);
    let r = bind(&schema, &mut rec, &env);
    assert_eq!(r, Ok(false));
    assert_eq!(text_field(&rec, 0), "");
    assert_eq!(sub_port(&rec, 2), 0);
    assert_eq!(array_field(&rec, 3), Vec::<u32>::new());
    assert_eq!(sub_struct_ports(&rec, 4), Vec::<u16>::new());
}

#[test]
fn scalar_override() {
    let schema = Schema {
        prefix: "PREFIX_".to_string(),
        fields: vec![field("NAME", FieldKind::Scalar(ScalarKind::U32))],
    };
    let mut rec = record_default(&schema.fields);
    let env = env_of(&[("PREFIX_NAME", "42")]);
    assert_eq!(bind(&schema, &mut rec, &env), Ok(true));
    assert!(matches!(rec.values[0], Value::Scalar(Scalar::U32(42))));
}

#[test]
fn ignored_field_is_skipped() {
    let schema = test_schema();
    let mut rec = record_default(&schema.fields);
    let env = env_of(&[("TEST_PREFIX_IGNORED", "7")]);
    assert_eq!(bind(&schema, &mut rec, &env), Ok(false));
    assert!(matches!(rec.values[1], Value::Scalar(Scalar::U32(0))));
}

#[test]
fn nesting_colon_form() {
    let schema = test_schema();
    let mut rec = record_default(&schema.fields);
    let env = env_of(&[("TEST_PREFIX_SUB:PORT", "9000")]);
    assert_eq!(bind(&schema, &mut rec, &env), Ok(true));
    assert_eq!(sub_port(&rec, 2), 9000);
}

#[test]
fn nesting_underscore_form() {
    let schema = test_schema();
    let mut rec = record_default(&schema.fields);
    let env = env_of(&[("TEST_PREFIX_SUB__PORT", "9000")]);
    assert_eq!(bind(&schema, &mut rec, &env), Ok(true));
    assert_eq!(sub_port(&rec, 2), 9000);
}

#[test]
fn nesting_underscore_wins_over_colon() {
    let schema = test_schema();
    let mut rec = record_default(&schema.fields);
    let env = env_of(&[("TEST_PREFIX_SUB:PORT", "9000"), ("TEST_PREFIX_SUB__PORT", "9001")]);
    assert_eq!(bind(&schema, &mut rec, &env), Ok(true));
    assert_eq!(sub_port(&rec, 2), 9001);
}

#[test]
fn sequence_gap_truncates() {
    let schema = Schema {
        prefix: "PREFIX_".to_string(),
        fields: vec![field("ITEM", FieldKind::Sequence(ScalarKind::U32))],
    };
    let mut rec = record_default(&schema.fields);
    let env = env_of(&[("PREFIX_ITEM__0", "1"), ("PREFIX_ITEM__2", "3")]);
    assert_eq!(bind(&schema, &mut rec, &env), Ok(true));
    assert_eq!(array_field(&rec, 0), vec![1]);
}

#[test]
fn sequence_colon_and_underscore_mix() {
    let schema = test_schema();
    let mut rec = record_default(&schema.fields);
    let env = env_of(&[
        ("TEST_PREFIX_ARRAY:0", "10"),
        ("TEST_PREFIX_ARRAY__1", "11"),
        ("TEST_PREFIX_ARRAY:2", "12"),
    ]);
    assert_eq!(bind(&schema, &mut rec, &env), Ok(true));
    assert_eq!(array_field(&rec, 3), vec![10, 11, 12]);
}

#[test]
fn sequence_colon_preferred_over_underscore() {
    let schema = test_schema();
    let mut rec = record_default(&schema.fields);
    let env = env_of(&[("TEST_PREFIX_ARRAY:0", "5"), ("TEST_PREFIX_ARRAY__0", "6")]);
    assert_eq!(bind(&schema, &mut rec, &env), Ok(true));
    assert_eq!(array_field(&rec, 3), vec![5]);
}

#[test]
fn sequence_many_elements_index_strings() {
    let schema = test_schema();
    let mut rec = record_default(&schema.fields);
    let mut pairs: Vec<(String, String)> = Vec::new();
    for i in 0..12u32 {
        pairs.push((format!("TEST_PREFIX_ARRAY__{i}"), format!("{}", i * 100)));
    }
    let mut env = EnvMap::new();
    for (k, v) in &pairs {
        env.insert(k.clone(), EnvVal::Text(v.clone()));
    }
    assert_eq!(bind(&schema, &mut rec, &env), Ok(true));
    let expected: Vec<u32> = (0..12).map(|i| i * 100).collect();
    assert_eq!(array_field(&rec, 3), expected);
}

#[test]
fn nested_sequence_rollback() {
    let schema = test_schema();
    let mut rec = record_default(&schema.fields);
    let env = env_of(&[("TEST_PREFIX_SUB_STRUCTS__0__PORT", "10")]);
    assert_eq!(bind(&schema, &mut rec, &env), Ok(true));
    assert_eq!(sub_struct_ports(&rec, 4), vec![10]);
}

#[test]
fn nested_sequence_two_elements_mixed_forms() {
    let schema = test_schema();
    let mut rec = record_default(&schema.fields);
    let env = env_of(&[
        ("TEST_PREFIX_SUB_STRUCTS:0:PORT", "1"),
        ("TEST_PREFIX_SUB_STRUCTS__1__PORT", "2"),
    ]);
    assert_eq!(bind(&schema, &mut rec, &env), Ok(true));
    assert_eq!(sub_struct_ports(&rec, 4), vec![1, 2]);
}

#[test]
fn optional_clears_on_absence() {
    let schema = Schema {
        prefix: "PREFIX_".to_string(),
        fields: vec![field("LIMIT", FieldKind::OptionalScalar(ScalarKind::U32))],
    };
    let mut rec = Record { values: vec![Value::OptionalScalar(Some(Scalar::U32(9)))] };
    assert_eq!(bind(&schema, &mut rec, &env_of(&[])), Ok(false));
    assert!(matches!(rec.values[0], Value::OptionalScalar(None)));
}

#[test]
fn optional_set_on_presence() {
    let schema = Schema {
        prefix: "PREFIX_".to_string(),
        fields: vec![field("LIMIT", FieldKind::OptionalScalar(ScalarKind::U32))],
    };
    let mut rec = record_default(&schema.fields);
    let env = env_of(&[("PREFIX_LIMIT", "77")]);
    assert_eq!(bind(&schema, &mut rec, &env), Ok(true));
    assert!(matches!(rec.values[0], Value::OptionalScalar(Some(Scalar::U32(77)))));
}

#[test]
fn optional_nested_set_and_cleared() {
    let schema = Schema {
        prefix: "PREFIX_".to_string(),
        fields: vec![field("SUB", FieldKind::OptionalNested(sub_fields()))],
    };
    let mut rec = record_default(&schema.fields);
    let env = env_of(&[("PREFIX_SUB:PORT", "8080")]);
    assert_eq!(bind(&schema, &mut rec, &env), Ok(true));
    match &rec.values[0] {
        Value::OptionalNested(Some(sub)) => {
            assert!(matches!(sub.values[0], Value::Scalar(Scalar::U16(8080))));
        },
        other => panic!("expected a present nested record, got {other:?}"),
    }
    assert_eq!(bind(&schema, &mut rec, &env_of(&[])), Ok(false));
    assert!(matches!(rec.values[0], Value::OptionalNested(None)));
}

#[test]
fn fail_fast_names_the_variable() {
    let schema = Schema {
        prefix: "PREFIX_".to_string(),
        fields: vec![
            field("NAME", FieldKind::Scalar(ScalarKind::Text)),
            field("PORT", FieldKind::Scalar(ScalarKind::U16)),
            field("AFTER", FieldKind::Scalar(ScalarKind::U16)),
        ],
    };
    let mut rec = record_default(&schema.fields);
    let env = env_of(&[
        ("PREFIX_NAME", "host"),
        ("PREFIX_PORT", "notanumber"),
        ("PREFIX_AFTER", "7"),
    ]);
    let r = bind(&schema, &mut rec, &env);
    match r {
        Err(FromEnvError::ParseError(name, msg)) => {
            assert_eq!(name, "PREFIX_PORT");
            assert_eq!(msg, "not a decimal integer");
        },
        other => panic!("expected a parse error, got {other:?}"),
    }
    // The field before the failure was bound; the field after it was not.
    assert_eq!(text_field(&rec, 0), "host");
    assert!(matches!(rec.values[2], Value::Scalar(Scalar::U16(0))));
}

#[test]
fn out_of_range_integer_is_an_error() {
    let schema = Schema {
        prefix: "PREFIX_".to_string(),
        fields: vec![field("PORT", FieldKind::Scalar(ScalarKind::U8))],
    };
    let mut rec = record_default(&schema.fields);
    let r = bind(&schema, &mut rec, &env_of(&[("PREFIX_PORT", "256")]));
    match r {
        Err(FromEnvError::ParseError(name, msg)) => {
            assert_eq!(name, "PREFIX_PORT");
            assert_eq!(msg, "integer out of range for the field");
        },
        other => panic!("expected a range error, got {other:?}"),
    }
}

#[test]
fn negative_into_unsigned_is_out_of_range() {
    let schema = Schema {
        prefix: "P_".to_string(),
        fields: vec![field("N", FieldKind::Scalar(ScalarKind::U32))],
    };
    let mut rec = record_default(&schema.fields);
    let r = bind(&schema, &mut rec, &env_of(&[("P_N", "-5")]));
    assert!(matches!(r, Err(FromEnvError::ParseError(_, _))));
}

#[test]
fn signed_bounds_decode_exactly() {
    let schema = Schema {
        prefix: "P_".to_string(),
        fields: vec![
            field("A", FieldKind::Scalar(ScalarKind::I8)),
            field("B", FieldKind::Scalar(ScalarKind::I64)),
            field("C", FieldKind::Scalar(ScalarKind::U128)),
        ],
    };
    let mut rec = record_default(&schema.fields);
    let env = env_of(&[
        ("P_A", "-128"),
        ("P_B", "+9223372036854775807"),
        ("P_C", "340282366920938463463374607431768211455"),
    ]);
    assert_eq!(bind(&schema, &mut rec, &env), Ok(true));
    assert!(matches!(rec.values[0], Value::Scalar(Scalar::I8(-128))));
    assert!(matches!(rec.values[1], Value::Scalar(Scalar::I64(i64::MAX))));
    assert!(matches!(rec.values[2], Value::Scalar(Scalar::U128(u128::MAX))));
}

#[test]
fn bool_decoding() {
    let schema = Schema {
        prefix: "P_".to_string(),
        fields: vec![field("FLAG", FieldKind::Scalar(ScalarKind::Bool))],
    };
    let mut rec = record_default(&schema.fields);
    assert_eq!(bind(&schema, &mut rec, &env_of(&[("P_FLAG", "true")])), Ok(true));
    assert!(matches!(rec.values[0], Value::Scalar(Scalar::Bool(true))));
    assert_eq!(bind(&schema, &mut rec, &env_of(&[("P_FLAG", "false")])), Ok(true));
    assert!(matches!(rec.values[0], Value::Scalar(Scalar::Bool(false))));
    let r = bind(&schema, &mut rec, &env_of(&[("P_FLAG", "yes")]));
    assert!(matches!(r, Err(FromEnvError::ParseError(_, _))));
}

#[test]
fn not_unicode_value_is_an_error() {
    let schema = Schema {
        prefix: "P_".to_string(),
        fields: vec![field("NAME", FieldKind::Scalar(ScalarKind::Text))],
    };
    let mut rec = record_default(&schema.fields);
    let mut env = EnvMap::new();
    env.insert("P_NAME".to_string(), EnvVal::Raw(vec![0xff, 0xfe]));
    let r = bind(&schema, &mut rec, &env);
    match r {
        Err(FromEnvError::NotUnicode(name, raw)) => {
            assert_eq!(name, "P_NAME");
            assert_eq!(raw, vec![0xff, 0xfe]);
        },
        other => panic!("expected a unicode error, got {other:?}"),
    }
}

#[test]
fn idempotence_binding_twice() {
    let schema = test_schema();
    let env = env_of(&[
        ("TEST_PREFIX_NAME", "twice"),
        ("TEST_PREFIX_SUB__PORT", "8000"),
        ("TEST_PREFIX_ARRAY__0", "1"),
        ("TEST_PREFIX_SUB_STRUCTS__0__PORT", "2"),
    ]);
    let mut rec = record_default(&schema.fields);
    let first = bind(&schema, &mut rec, &env);
    let name1 = text_field(&rec, 0).to_string();
    let port1 = sub_port(&rec, 2);
    let array1 = array_field(&rec, 3);
    let subs1 = sub_struct_ports(&rec, 4);
    let second = bind(&schema, &mut rec, &env);
    assert_eq!(first, second);
    assert_eq!(text_field(&rec, 0), name1);
    assert_eq!(sub_port(&rec, 2), port1);
    assert_eq!(array_field(&rec, 3), array1);
    assert_eq!(sub_struct_ports(&rec, 4), subs1);
}

#[test]
fn bind_with_prefix_overrides_schema_prefix() {
    let schema = test_schema();
    let mut rec = record_default(&schema.fields);
    let env = env_of(&[("OTHER_NAME", "elsewhere")]);
    assert_eq!(bind_with_prefix(&schema, &mut rec, &env, "OTHER_"), Ok(true));
    assert_eq!(text_field(&rec, 0), "elsewhere");
}

#[test]
fn from_defaults_then_bind() {
    let schema = test_schema();
    let env = env_of(&[("TEST_PREFIX_NAME", "fresh")]);
    let rec = from_defaults(&schema, &env).expect("binding should succeed");
    assert_eq!(text_field(&rec, 0), "fresh");
    let bad = from_defaults(&schema, &env_of(&[("TEST_PREFIX_SUB:PORT", "99999999")]));
    assert!(matches!(bad, Err(FromEnvError::ParseError(_, _))));
}

#[test]
fn with_env_on_a_scalar() {
    let env = env_of(&[("VAR", "123")]);
    let mut s = Scalar::U32(0);
    assert_eq!(s.with_env(&env, "VAR"), Ok(true));
    assert!(matches!(s, Scalar::U32(123)));
    assert_eq!(s.with_env(&env, "MISSING"), Ok(false));
    assert!(matches!(s, Scalar::U32(123)));
}

#[test]
fn with_env_on_a_bindable_record() {
    let mut b = Bindable {
        record: record_default(&test_schema().fields),
        schema: test_schema(),
    };
    let env = env_of(&[("TEST_PREFIX_NAME", "loaded")]);
    assert_eq!(b.load_environment(&env), Ok(true));
    assert_eq!(text_field(&b.record, 0), "loaded");
    let env2 = env_of(&[("ELSEWHERE_NAME", "other")]);
    assert_eq!(b.with_env(&env2, "ELSEWHERE_"), Ok(true));
    assert_eq!(text_field(&b.record, 0), "other");
}

#[test]
fn digit_container_counts_in_decimal() {
    let mut digits = DigitContainer::new();
    let mut s = String::from("X_");
    for _ in 0..12 {
        digits.next(&mut s);
        s.push(';');
    }
    assert_eq!(s, "X_1;2;3;4;5;6;7;8;9;10;11;12;");
}

#[test]
fn sequence_element_decode_error_aborts() {
    let schema = test_schema();
    let mut rec = record_default(&schema.fields);
    let env = env_of(&[("TEST_PREFIX_ARRAY__0", "1"), ("TEST_PREFIX_ARRAY__1", "bad")]);
    let r = bind(&schema, &mut rec, &env);
    match r {
        Err(FromEnvError::ParseError(name, _)) => assert_eq!(name, "TEST_PREFIX_ARRAY__1"),
        other => panic!("expected a parse error, got {other:?}"),
    }
    // The values decoded before the failing index are kept.
    assert_eq!(array_field(&rec, 3), vec![1]);
}

#[test]
fn nested_sequence_failing_element_stays_attached() {
    let schema = test_schema();
    let mut rec = record_default(&schema.fields);
    let env = env_of(&[("TEST_PREFIX_SUB_STRUCTS__0__PORT", "bad")]);
    let r = bind(&schema, &mut rec, &env);
    match r {
        Err(FromEnvError::ParseError(name, _)) => {
            assert_eq!(name, "TEST_PREFIX_SUB_STRUCTS__0__PORT");
        },
        other => panic!("expected a parse error, got {other:?}"),
    }
    // The element whose binding failed is left attached, still default.
    assert_eq!(sub_struct_ports(&rec, 4), vec![0]);
}

#[test]
fn empty_text_value_overwrites() {
    let schema = Schema {
        prefix: "P_".to_string(),
        fields: vec![field("NAME", FieldKind::Scalar(ScalarKind::Text))],
    };
    let mut rec = Record { values: vec![Value::Scalar(Scalar::Text("old".to_string()))] };
    assert_eq!(bind(&schema, &mut rec, &env_of(&[("P_NAME", "")])), Ok(true));
    assert_eq!(text_field(&rec, 0), "");
}

#[test]
fn path_text_is_taken_verbatim() {
    let schema = Schema {
        prefix: "P_".to_string(),
        fields: vec![field("DIR", FieldKind::Scalar(ScalarKind::PathText))],
    };
    let mut rec = record_default(&schema.fields);
    assert_eq!(bind(&schema, &mut rec, &env_of(&[("P_DIR", "/tmp/a b/c")])), Ok(true));
    assert!(matches!(&rec.values[0], Value::Scalar(Scalar::PathText(p)) if p == "/tmp/a b/c"));
}

#[test]
fn error_variable_accessor() {
    let schema = Schema {
        prefix: "P_".to_string(),
        fields: vec![field("N", FieldKind::Scalar(ScalarKind::U8))],
    };
    let mut rec = record_default(&schema.fields);
    let err = bind(&schema, &mut rec, &env_of(&[("P_N", "x")])).unwrap_err();
    assert_eq!(err.variable(), "P_N");
}
