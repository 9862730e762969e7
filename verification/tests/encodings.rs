//! Tests of encoding-label fields against the real label table.

use env_bind::bind::bind;
use env_bind::env::{EnvMap, EnvVal};
use env_bind::error::FromEnvError;
use env_bind::schema::{FieldKind, FieldSchema, ScalarKind, Schema};
use env_bind::value::{record_default, Scalar, Value};

fn encoding_schema() -> Schema {
    Schema {
        prefix: "ENC_".to_string(),
        fields: vec![FieldSchema {
            fragment: "CHARSET".to_string(),
            ignored: false,
            kind: FieldKind::Scalar(ScalarKind::Encoding),
        }],
    }
}

fn env_with(label: &str) -> EnvMap {
    let mut env = EnvMap::new();
    env.insert("ENC_CHARSET".to_string(), EnvVal::Text(label.to_string()));
    env
}

fn canonical(rec: &env_bind::value::Record) -> &str {
    match &rec.values[0] {
        Value::Scalar(Scalar::Encoding(name)) => name,
        other => panic!("expected an encoding field, got {other:?}"),
    }
}

/// The label is looked up, not copied: the canonical name differs from the
/// label text.
#[test]
fn encoding_label_is_canonicalized() {
    let schema = encoding_schema();
    let mut rec = record_default(&schema.fields);
    assert_eq!(bind(&schema, &mut rec, &env_with("utf8")), Ok(true));
    assert_eq!(canonical(&rec), "UTF-8");
    assert_eq!(bind(&schema, &mut rec, &env_with("latin1")), Ok(true));
    assert_eq!(canonical(&rec), "windows-1252");
    assert_eq!(bind(&schema, &mut rec, &env_with(" UTF-16LE ")), Ok(true));
    assert_eq!(canonical(&rec), "UTF-16LE");
}

#[test]
fn unrecognized_encoding_label_is_an_error() {
    let schema = encoding_schema();
    let mut rec = record_default(&schema.fields);
    let r = bind(&schema, &mut rec, &env_with("no-such-charset"));
    match r {
        Err(FromEnvError::ParseError(name, msg)) => {
            assert_eq!(name, "ENC_CHARSET");
            assert_eq!(msg, "Unrecognized encoding");
        },
        other => panic!("expected an unrecognized-encoding error, got {other:?}"),
    }
}

/// The same outcome through the direct encoding_rs call, pinning the
/// canonical names the library is expected to store.
#[test]
fn canonical_names_match_the_label_table() {
    assert_eq!(encoding_rs::Encoding::for_label(b"utf8").unwrap().name(), "UTF-8");
    assert_eq!(encoding_rs::Encoding::for_label(b"latin1").unwrap().name(), "windows-1252");
    assert!(encoding_rs::Encoding::for_label(b"no-such-charset").is_none());
}
