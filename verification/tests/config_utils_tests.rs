use cdm::config_utils::extract_output_paths;
use cdm::json::{JsonNumber, JsonValue};
use std::path::PathBuf;

/// A JSON value written as text, as the library holds it.
fn json(text: &str) -> JsonValue {
    fn conv(v: serde_json::Value) -> JsonValue {
        match v {
            serde_json::Value::Null => JsonValue::Null,
            serde_json::Value::Bool(b) => JsonValue::Bool(b),
            serde_json::Value::Number(n) => {
                if let Some(u) = n.as_u64() {
                    JsonValue::Number(JsonNumber::PosInt(u))
                } else if let Some(i) = n.as_i64() {
                    JsonValue::Number(JsonNumber::NegInt(i))
                } else {
                    JsonValue::Number(JsonNumber::Float(n.as_f64().unwrap().to_bits()))
                }
            },
            serde_json::Value::String(s) => JsonValue::Str(s),
            serde_json::Value::Array(a) => JsonValue::Array(a.into_iter().map(conv).collect()),
            serde_json::Value::Object(o) => JsonValue::Object(o.into_iter().map(|(k, v)| (k, conv(v))).collect()),
        }
    }
    conv(serde_json::from_str(text).unwrap())
}

fn paths(config: &str, key: &str) -> Vec<PathBuf> {
    extract_output_paths(&json(config), key).into_iter().map(PathBuf::from).collect()
}

#[test]
fn test_extract_output_paths_single_string() {
    assert_eq!(paths(r#"{ "build_output": "./out" }"#, "build_output"), vec![PathBuf::from("./out")]);
}

#[test]
fn test_extract_output_paths_array_of_strings() {
    assert_eq!(
        paths(r#"{ "build_output": ["./out1", "./out2", "./out3"] }"#, "build_output"),
        vec![PathBuf::from("./out1"), PathBuf::from("./out2"), PathBuf::from("./out3")]
    );
}

#[test]
fn test_extract_output_paths_empty_string() {
    assert!(paths(r#"{ "build_output": "" }"#, "build_output").is_empty());
}

#[test]
fn test_extract_output_paths_empty_array() {
    assert!(paths(r#"{ "build_output": [] }"#, "build_output").is_empty());
}

#[test]
fn test_extract_output_paths_missing_key() {
    assert!(paths(r#"{ "other_key": "value" }"#, "build_output").is_empty());
}

#[test]
fn test_extract_output_paths_array_filters_non_strings() {
    assert_eq!(
        paths(r#"{ "build_output": ["./valid", 123, null, "./also_valid", ""] }"#, "build_output"),
        vec![PathBuf::from("./valid"), PathBuf::from("./also_valid")]
    );
}

#[test]
fn test_extract_output_paths_null_value() {
    assert!(paths(r#"{ "build_output": null }"#, "build_output").is_empty());
}

#[test]
fn test_extract_output_paths_works_with_migrations_output() {
    assert_eq!(
        paths(r#"{ "migrations_output": ["./migrations/sql", "./shared/migrations"] }"#, "migrations_output"),
        vec![PathBuf::from("./migrations/sql"), PathBuf::from("./shared/migrations")]
    );
}
