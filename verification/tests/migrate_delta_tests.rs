use cdm::json::{configs_equal, JsonNumber, JsonValue};
use cdm::migrate::{compute_deltas, compute_field_deltas, compute_inheritance_deltas, compute_model_deltas, compute_type_alias_deltas, transform_deltas_for_plugin, Delta};
use cdm::schema::{types_equal, values_equal, EntityId, FieldDefinition, ModelDefinition, Schema, TypeAliasDefinition, TypeExpression, Value};
use std::collections::HashMap;

fn local_id(id: u64) -> Option<EntityId> {
    Some(EntityId { source: 0, model_entity_id: None, local_id: id })
}

/// The IDs of template files: the caller numbers each template path.
fn local_template_id(path: &str, id: u64) -> Option<EntityId> {
    let source = match path {
        "database.cdm" => 1,
        "public.cdm" => 2,
        other => panic!("unknown template {}", other),
    };
    Some(EntityId { source, model_entity_id: None, local_id: id })
}

fn local_field(model: u64, id: u64) -> EntityId {
    EntityId { source: 0, model_entity_id: Some(model), local_id: id }
}

fn ident_type(name: &str) -> TypeExpression {
    TypeExpression::Identifier { name: name.to_string() }
}

fn array_type(element: TypeExpression) -> TypeExpression {
    TypeExpression::Array { element_type: Box::new(element) }
}

fn union_type(types: Vec<TypeExpression>) -> TypeExpression {
    TypeExpression::Union { types }
}

fn string_literal(value: &str) -> TypeExpression {
    TypeExpression::StringLiteral { value: value.to_string() }
}

/// A JSON value written as text, as the library holds it.
fn json(text: &str) -> JsonValue {
    fn conv(v: serde_json::Value) -> JsonValue {
        match v {
            serde_json::Value::Null => JsonValue::Null,
            serde_json::Value::Bool(b) => JsonValue::Bool(b),
            serde_json::Value::Number(n) => {
                if let Some(u) = n.as_u64() {
                    JsonValue::Number(JsonNumber::PosInt(u))
                } else if let Some(i) = n.as_i64() {
                    JsonValue::Number(JsonNumber::NegInt(i))
                } else {
                    JsonValue::Number(JsonNumber::Float(n.as_f64().unwrap().to_bits()))
                }
            },
            serde_json::Value::String(s) => JsonValue::Str(s),
            serde_json::Value::Array(a) => JsonValue::Array(a.into_iter().map(conv).collect()),
            serde_json::Value::Object(o) => JsonValue::Object(o.into_iter().map(|(k, v)| (k, conv(v))).collect()),
        }
    }
    conv(serde_json::from_str(text).unwrap())
}

fn num_eq(a: u64, b: u64) -> bool {
    f64::from_bits(a) == f64::from_bits(b)
}

fn num(x: f64) -> Value {
    Value::Number(x.to_bits())
}

fn field(name: &str, ty: TypeExpression, optional: bool, default: Option<Value>, config: &str, id: Option<EntityId>) -> FieldDefinition {
    FieldDefinition { name: name.to_string(), field_type: ty, optional, default, config: json(config), entity_id: id }
}

fn model(name: &str, parents: &[&str], fields: Vec<FieldDefinition>, config: &str, id: Option<EntityId>) -> ModelDefinition {
    ModelDefinition { name: name.to_string(), parents: parents.iter().map(|p| p.to_string()).collect(), fields, config: json(config), entity_id: id }
}

fn alias(name: &str, ty: TypeExpression, id: Option<EntityId>) -> TypeAliasDefinition {
    TypeAliasDefinition { name: name.to_string(), alias_type: ty, config: json("{}"), entity_id: id }
}

fn schema(models: Vec<ModelDefinition>, type_aliases: Vec<TypeAliasDefinition>) -> Schema {
    Schema { models, type_aliases }
}

fn get_str<'a>(config: &'a JsonValue, key: &str) -> Option<&'a str> {
    config.get(key).and_then(|v| v.as_str())
}

#[test]
fn test_types_equal_identifiers() {
    assert!(types_equal(&ident_type("string"), &ident_type("string")));
    assert!(!types_equal(&ident_type("string"), &ident_type("number")));
}

#[test]
fn test_types_equal_arrays() {
    assert!(types_equal(&array_type(ident_type("string")), &array_type(ident_type("string"))));
    assert!(!types_equal(&array_type(ident_type("string")), &array_type(ident_type("number"))));
}

#[test]
fn test_types_equal_unions_order_independent() {
    let union1 = union_type(vec![ident_type("string"), ident_type("number")]);
    let union2 = union_type(vec![ident_type("number"), ident_type("string")]);
    assert!(types_equal(&union1, &union2));
}

#[test]
fn test_types_equal_unions_different_length() {
    let union1 = union_type(vec![ident_type("string"), ident_type("number")]);
    let union2 = union_type(vec![ident_type("string")]);
    assert!(!types_equal(&union1, &union2));
}

#[test]
fn test_types_equal_string_literals() {
    assert!(types_equal(&string_literal("active"), &string_literal("active")));
    assert!(!types_equal(&string_literal("active"), &string_literal("pending")));
}

#[test]
fn test_types_equal_mixed_types() {
    assert!(!types_equal(&ident_type("string"), &array_type(ident_type("string"))));
    assert!(!types_equal(&ident_type("string"), &string_literal("string")));
}

#[test]
fn test_values_equal_none() {
    assert!(values_equal(&num_eq, &None, &None));
}

#[test]
fn test_values_equal_some_vs_none() {
    assert!(!values_equal(&num_eq, &Some(Value::Str("test".to_string())), &None));
    assert!(!values_equal(&num_eq, &None, &Some(Value::Str("test".to_string()))));
}

#[test]
fn test_values_equal_strings() {
    assert!(values_equal(&num_eq, &Some(Value::Str("test".to_string())), &Some(Value::Str("test".to_string()))));
    assert!(!values_equal(&num_eq, &Some(Value::Str("test".to_string())), &Some(Value::Str("other".to_string()))));
}

#[test]
fn test_values_equal_numbers() {
    assert!(values_equal(&num_eq, &Some(num(42.0)), &Some(num(42.0))));
    assert!(!values_equal(&num_eq, &Some(num(42.0)), &Some(num(43.0))));
}

#[test]
fn test_values_equal_booleans() {
    assert!(values_equal(&num_eq, &Some(Value::Boolean(true)), &Some(Value::Boolean(true))));
    assert!(!values_equal(&num_eq, &Some(Value::Boolean(true)), &Some(Value::Boolean(false))));
}

#[test]
fn test_values_equal_different_types() {
    assert!(!values_equal(&num_eq, &Some(Value::Str("42".to_string())), &Some(num(42.0))));
}

#[test]
fn test_configs_equal_same() {
    assert!(configs_equal(&json(r#"{"key": "value"}"#), &json(r#"{"key": "value"}"#)));
}

#[test]
fn test_configs_equal_different() {
    assert!(!configs_equal(&json(r#"{"key": "value"}"#), &json(r#"{"key": "other"}"#)));
}

#[test]
fn test_configs_equal_nested() {
    assert!(configs_equal(&json(r#"{"outer": {"inner": "value"}}"#), &json(r#"{"outer": {"inner": "value"}}"#)));
    assert!(!configs_equal(&json(r#"{"outer": {"inner": "value"}}"#), &json(r#"{"outer": {"inner": "other"}}"#)));
}

#[test]
fn test_compute_type_alias_deltas_addition() {
    let previous = schema(vec![], vec![]);
    let current = schema(vec![], vec![alias("Email", ident_type("string"), local_id(1))]);
    let deltas = compute_type_alias_deltas(&previous.type_aliases, &current.type_aliases);
    assert_eq!(deltas.len(), 1);
    match &deltas[0] {
        Delta::TypeAliasAdded { name, .. } => assert_eq!(name, "Email"),
        _ => panic!("Expected TypeAliasAdded delta"),
    }
}

#[test]
fn test_compute_type_alias_deltas_removal() {
    let previous = schema(vec![], vec![alias("Email", ident_type("string"), local_id(1))]);
    let current = schema(vec![], vec![]);
    let deltas = compute_type_alias_deltas(&previous.type_aliases, &current.type_aliases);
    assert_eq!(deltas.len(), 1);
    match &deltas[0] {
        Delta::TypeAliasRemoved { name, .. } => assert_eq!(name, "Email"),
        _ => panic!("Expected TypeAliasRemoved delta"),
    }
}

#[test]
fn test_compute_type_alias_deltas_rename() {
    let previous = schema(vec![], vec![alias("Email", ident_type("string"), local_id(1))]);
    let current = schema(vec![], vec![alias("EmailAddress", ident_type("string"), local_id(1))]);
    let deltas = compute_type_alias_deltas(&previous.type_aliases, &current.type_aliases);
    assert_eq!(deltas.len(), 1);
    match &deltas[0] {
        Delta::TypeAliasRenamed { old_name, new_name, id, .. } => {
            assert_eq!(old_name, "Email");
            assert_eq!(new_name, "EmailAddress");
            assert_eq!(id.as_ref().map(|e| e.local_id), Some(1));
        },
        _ => panic!("Expected TypeAliasRenamed delta"),
    }
}

#[test]
fn test_compute_type_alias_deltas_type_changed() {
    let previous = schema(vec![], vec![alias("Email", ident_type("string"), local_id(1))]);
    let current = schema(vec![], vec![alias("Email", array_type(ident_type("string")), local_id(1))]);
    let deltas = compute_type_alias_deltas(&previous.type_aliases, &current.type_aliases);
    assert_eq!(deltas.len(), 1);
    match &deltas[0] {
        Delta::TypeAliasTypeChanged { name, before, after } => {
            assert_eq!(name, "Email");
            assert!(types_equal(before, &ident_type("string")));
            assert!(types_equal(after, &array_type(ident_type("string"))));
        },
        _ => panic!("Expected TypeAliasTypeChanged delta"),
    }
}

#[test]
fn test_compute_model_deltas_addition() {
    let previous = schema(vec![], vec![]);
    let current = schema(vec![model("User", &[], vec![], "{}", local_id(1))], vec![]);
    let deltas = compute_model_deltas(&num_eq, &previous.type_aliases, &current.type_aliases, &previous.models, &current.models);
    assert_eq!(deltas.len(), 1);
    match &deltas[0] {
        Delta::ModelAdded { name, .. } => assert_eq!(name, "User"),
        _ => panic!("Expected ModelAdded delta"),
    }
}

#[test]
fn test_compute_model_deltas_removal() {
    let previous = schema(vec![model("User", &[], vec![], "{}", local_id(1))], vec![]);
    let current = schema(vec![], vec![]);
    let deltas = compute_model_deltas(&num_eq, &previous.type_aliases, &current.type_aliases, &previous.models, &current.models);
    assert_eq!(deltas.len(), 1);
    match &deltas[0] {
        Delta::ModelRemoved { name, .. } => assert_eq!(name, "User"),
        _ => panic!("Expected ModelRemoved delta"),
    }
}

#[test]
fn test_compute_model_deltas_rename() {
    let previous = schema(vec![model("User", &[], vec![], "{}", local_id(1))], vec![]);
    let current = schema(vec![model("Account", &[], vec![], "{}", local_id(1))], vec![]);
    let deltas = compute_model_deltas(&num_eq, &previous.type_aliases, &current.type_aliases, &previous.models, &current.models);
    assert_eq!(deltas.len(), 1);
    match &deltas[0] {
        Delta::ModelRenamed { old_name, new_name, id, .. } => {
            assert_eq!(old_name, "User");
            assert_eq!(new_name, "Account");
            assert_eq!(id.as_ref().map(|e| e.local_id), Some(1));
        },
        _ => panic!("Expected ModelRenamed delta"),
    }
}

#[test]
fn test_compute_model_deltas_config_changed() {
    let previous = schema(vec![model("User", &[], vec![], r#"{"table": "users"}"#, local_id(1))], vec![]);
    let current = schema(vec![model("User", &[], vec![], r#"{"table": "accounts"}"#, local_id(1))], vec![]);
    let deltas = compute_model_deltas(&num_eq, &previous.type_aliases, &current.type_aliases, &previous.models, &current.models);
    assert_eq!(deltas.len(), 1);
    match &deltas[0] {
        Delta::ModelConfigChanged { model, before, after } => {
            assert_eq!(model, "User");
            assert!(configs_equal(before, &json(r#"{"table": "users"}"#)));
            assert!(configs_equal(after, &json(r#"{"table": "accounts"}"#)));
        },
        _ => panic!("Expected ModelConfigChanged delta"),
    }
}

fn field_deltas(prev: &Vec<FieldDefinition>, curr: &Vec<FieldDefinition>) -> Vec<Delta> {
    compute_field_deltas(&num_eq, &vec![], &vec![], "User", prev, curr)
}

#[test]
fn test_compute_field_deltas_addition() {
    let deltas = field_deltas(&vec![], &vec![field("email", ident_type("string"), false, None, "{}", local_id(1))]);
    assert_eq!(deltas.len(), 1);
    match &deltas[0] {
        Delta::FieldAdded { model, field, .. } => {
            assert_eq!(model, "User");
            assert_eq!(field, "email");
        },
        _ => panic!("Expected FieldAdded delta"),
    }
}

#[test]
fn test_compute_field_deltas_removal() {
    let deltas = field_deltas(&vec![field("email", ident_type("string"), false, None, "{}", local_id(1))], &vec![]);
    assert_eq!(deltas.len(), 1);
    match &deltas[0] {
        Delta::FieldRemoved { model, field, .. } => {
            assert_eq!(model, "User");
            assert_eq!(field, "email");
        },
        _ => panic!("Expected FieldRemoved delta"),
    }
}

#[test]
fn test_compute_field_deltas_rename() {
    let deltas = field_deltas(
        &vec![field("email", ident_type("string"), false, None, "{}", local_id(1))],
        &vec![field("emailAddress", ident_type("string"), false, None, "{}", local_id(1))],
    );
    assert_eq!(deltas.len(), 1);
    match &deltas[0] {
        Delta::FieldRenamed { model, old_name, new_name, .. } => {
            assert_eq!(model, "User");
            assert_eq!(old_name, "email");
            assert_eq!(new_name, "emailAddress");
        },
        _ => panic!("Expected FieldRenamed delta"),
    }
}

#[test]
fn test_compute_field_deltas_type_changed() {
    let deltas = field_deltas(
        &vec![field("email", ident_type("string"), false, None, "{}", local_id(1))],
        &vec![field("email", array_type(ident_type("string")), false, None, "{}", local_id(1))],
    );
    assert_eq!(deltas.len(), 1);
    match &deltas[0] {
        Delta::FieldTypeChanged { model, field, before, after } => {
            assert_eq!(model, "User");
            assert_eq!(field, "email");
            assert!(types_equal(before, &ident_type("string")));
            assert!(types_equal(after, &array_type(ident_type("string"))));
        },
        _ => panic!("Expected FieldTypeChanged delta"),
    }
}

#[test]
fn test_compute_field_deltas_type_changed_from_implicit_string() {
    let deltas = field_deltas(
        &vec![field("count", ident_type("string"), false, None, "{}", local_id(1))],
        &vec![field("count", ident_type("number"), false, None, "{}", local_id(1))],
    );
    assert_eq!(deltas.len(), 1);
    match &deltas[0] {
        Delta::FieldTypeChanged { model, field, before, after } => {
            assert_eq!(model, "User");
            assert_eq!(field, "count");
            assert!(types_equal(before, &ident_type("string")));
            assert!(types_equal(after, &ident_type("number")));
        },
        _ => panic!("Expected FieldTypeChanged delta, got: {:?}", deltas[0]),
    }
}

#[test]
fn test_compute_field_deltas_type_changed_without_entity_id() {
    let deltas = field_deltas(
        &vec![field("count", ident_type("string"), false, None, "{}", None)],
        &vec![field("count", ident_type("number"), false, None, "{}", None)],
    );
    assert_eq!(deltas.len(), 1);
    match &deltas[0] {
        Delta::FieldTypeChanged { model, field, before, after } => {
            assert_eq!(model, "User");
            assert_eq!(field, "count");
            assert!(types_equal(before, &ident_type("string")));
            assert!(types_equal(after, &ident_type("number")));
        },
        _ => panic!("Expected FieldTypeChanged delta, got: {:?}", deltas[0]),
    }
}

#[test]
fn test_compute_field_deltas_optionality_changed_without_entity_id() {
    let deltas = field_deltas(
        &vec![field("bio", ident_type("string"), false, None, "{}", None)],
        &vec![field("bio", ident_type("string"), true, None, "{}", None)],
    );
    assert_eq!(deltas.len(), 1);
    match &deltas[0] {
        Delta::FieldOptionalityChanged { model, field, before, after } => {
            assert_eq!(model, "User");
            assert_eq!(field, "bio");
            assert!(!*before);
            assert!(*after);
        },
        _ => panic!("Expected FieldOptionalityChanged delta, got: {:?}", deltas[0]),
    }
}

#[test]
fn test_compute_field_deltas_default_changed_without_entity_id() {
    let deltas = field_deltas(
        &vec![field("status", ident_type("string"), false, Some(Value::Str("draft".to_string())), "{}", None)],
        &vec![field("status", ident_type("string"), false, Some(Value::Str("published".to_string())), "{}", None)],
    );
    assert_eq!(deltas.len(), 1);
    match &deltas[0] {
        Delta::FieldDefaultChanged { model, field, before, after } => {
            assert_eq!(model, "User");
            assert_eq!(field, "status");
            match (before, after) {
                (Some(Value::Str(b)), Some(Value::Str(a))) => {
                    assert_eq!(b, "draft");
                    assert_eq!(a, "published");
                },
                _ => panic!("Expected string values"),
            }
        },
        _ => panic!("Expected FieldDefaultChanged delta, got: {:?}", deltas[0]),
    }
}

#[test]
fn test_compute_field_deltas_multiple_changes_without_entity_id() {
    let deltas = field_deltas(
        &vec![field("score", ident_type("string"), false, None, "{}", None)],
        &vec![field("score", ident_type("number"), true, Some(num(0.0)), r#"{"indexed": true}"#, None)],
    );
    assert_eq!(deltas.len(), 4);
    assert!(deltas.iter().any(|d| matches!(d, Delta::FieldTypeChanged { .. })));
    assert!(deltas.iter().any(|d| matches!(d, Delta::FieldOptionalityChanged { .. })));
    assert!(deltas.iter().any(|d| matches!(d, Delta::FieldDefaultChanged { .. })));
    assert!(deltas.iter().any(|d| matches!(d, Delta::FieldConfigChanged { .. })));
}

#[test]
fn test_compute_field_deltas_optionality_changed() {
    let deltas = field_deltas(
        &vec![field("email", ident_type("string"), false, None, "{}", local_id(1))],
        &vec![field("email", ident_type("string"), true, None, "{}", local_id(1))],
    );
    assert_eq!(deltas.len(), 1);
    match &deltas[0] {
        Delta::FieldOptionalityChanged { model, field, before, after } => {
            assert_eq!(model, "User");
            assert_eq!(field, "email");
            assert!(!*before);
            assert!(*after);
        },
        _ => panic!("Expected FieldOptionalityChanged delta"),
    }
}

#[test]
fn test_compute_field_deltas_default_changed() {
    let deltas = field_deltas(
        &vec![field("status", ident_type("string"), false, Some(Value::Str("active".to_string())), "{}", local_id(1))],
        &vec![field("status", ident_type("string"), false, Some(Value::Str("pending".to_string())), "{}", local_id(1))],
    );
    assert_eq!(deltas.len(), 1);
    match &deltas[0] {
        Delta::FieldDefaultChanged { model, field, before, after } => {
            assert_eq!(model, "User");
            assert_eq!(field, "status");
            match (before, after) {
                (Some(Value::Str(b)), Some(Value::Str(a))) => {
                    assert_eq!(b, "active");
                    assert_eq!(a, "pending");
                },
                _ => panic!("Expected string values"),
            }
        },
        _ => panic!("Expected FieldDefaultChanged delta"),
    }
}

#[test]
fn test_compute_field_deltas_config_changed() {
    let deltas = field_deltas(
        &vec![field("email", ident_type("string"), false, None, r#"{"unique": true}"#, local_id(1))],
        &vec![field("email", ident_type("string"), false, None, r#"{"unique": false}"#, local_id(1))],
    );
    assert_eq!(deltas.len(), 1);
    match &deltas[0] {
        Delta::FieldConfigChanged { model, field, before, after } => {
            assert_eq!(model, "User");
            assert_eq!(field, "email");
            assert!(configs_equal(before, &json(r#"{"unique": true}"#)));
            assert!(configs_equal(after, &json(r#"{"unique": false}"#)));
        },
        _ => panic!("Expected FieldConfigChanged delta"),
    }
}

#[test]
fn test_compute_inheritance_deltas_added() {
    let deltas = compute_inheritance_deltas("User", &vec![], &vec!["Base".to_string()]);
    assert_eq!(deltas.len(), 1);
    match &deltas[0] {
        Delta::InheritanceAdded { model, parent } => {
            assert_eq!(model, "User");
            assert_eq!(parent, "Base");
        },
        _ => panic!("Expected InheritanceAdded delta"),
    }
}

#[test]
fn test_compute_inheritance_deltas_removed() {
    let deltas = compute_inheritance_deltas("User", &vec!["Base".to_string()], &vec![]);
    assert_eq!(deltas.len(), 1);
    match &deltas[0] {
        Delta::InheritanceRemoved { model, parent } => {
            assert_eq!(model, "User");
            assert_eq!(parent, "Base");
        },
        _ => panic!("Expected InheritanceRemoved delta"),
    }
}

#[test]
fn test_compute_field_deltas_without_entity_ids() {
    let deltas = field_deltas(
        &vec![field("email", ident_type("string"), false, None, "{}", None)],
        &vec![field("emailAddress", ident_type("string"), false, None, "{}", None)],
    );
    assert_eq!(deltas.len(), 2);
    assert!(deltas.iter().any(|d| matches!(d, Delta::FieldRemoved { field, .. } if field == "email")));
    assert!(deltas.iter().any(|d| matches!(d, Delta::FieldAdded { field, .. } if field == "emailAddress")));
}

#[test]
fn test_compute_deltas_comprehensive() {
    let previous = schema(
        vec![model("User", &[], vec![
            field("id", ident_type("number"), false, None, "{}", local_id(1)),
            field("name", ident_type("string"), false, None, "{}", local_id(2)),
        ], "{}", local_id(10))],
        vec![alias("Email", ident_type("string"), local_id(20))],
    );
    let current = schema(
        vec![model("User", &["Base"], vec![
            field("id", ident_type("number"), false, None, "{}", local_id(1)),
            field("fullName", ident_type("string"), false, None, "{}", local_id(2)),
            field("email", ident_type("string"), true, None, "{}", local_id(3)),
        ], "{}", local_id(10))],
        vec![alias("EmailAddress", ident_type("string"), local_id(20))],
    );
    let deltas = compute_deltas(&num_eq, &previous, &current);
    assert!(deltas.iter().any(|d| matches!(d, Delta::TypeAliasRenamed { old_name, new_name, .. } if old_name == "Email" && new_name == "EmailAddress")));
    assert!(deltas.iter().any(|d| matches!(d, Delta::InheritanceAdded { model, parent } if model == "User" && parent == "Base")));
    assert!(deltas.iter().any(|d| matches!(d, Delta::FieldRenamed { model, old_name, new_name, .. } if model == "User" && old_name == "name" && new_name == "fullName")));
    assert!(deltas.iter().any(|d| matches!(d, Delta::FieldAdded { model, field, .. } if model == "User" && field == "email")));
}

#[test]
fn test_compute_deltas_first_migration_no_previous_schema() {
    let previous = schema(vec![], vec![]);
    let current = schema(
        vec![
            model("User", &[], vec![
                field("id", ident_type("number"), false, None, "{}", local_id(1)),
                field("email", ident_type("string"), false, None, "{}", local_id(2)),
            ], "{}", local_id(10)),
            model("Post", &[], vec![field("title", ident_type("string"), false, None, "{}", local_id(3))], "{}", local_id(20)),
        ],
        vec![alias("Email", ident_type("string"), local_id(30))],
    );
    let deltas = compute_deltas(&num_eq, &previous, &current);
    assert!(!deltas.is_empty());
    assert!(deltas.iter().any(|d| matches!(d, Delta::ModelAdded { name, .. } if name == "User")));
    assert!(deltas.iter().any(|d| matches!(d, Delta::ModelAdded { name, .. } if name == "Post")));
    assert!(deltas.iter().any(|d| matches!(d, Delta::TypeAliasAdded { name, .. } if name == "Email")));
}

#[test]
fn test_compute_deltas_model_with_inherited_fields_from_skipped_parent() {
    let previous = schema(vec![], vec![]);
    let current = schema(vec![
        model("PublicUser", &[], vec![
            field("id", ident_type("string"), false, None, "{}", local_id(1)),
            field("name", ident_type("string"), true, None, "{}", local_id(2)),
        ], r#"{ "skip": true }"#, local_id(10)),
        model("User", &["PublicUser"], vec![
            field("id", ident_type("string"), false, None, "{}", local_id(1)),
            field("name", ident_type("string"), true, None, "{}", local_id(2)),
            field("email", ident_type("string"), false, None, "{}", local_id(20)),
        ], "{}", local_id(20)),
    ], vec![]);
    let deltas = compute_deltas(&num_eq, &previous, &current);
    let user_delta = deltas.iter().find(|d| matches!(d, Delta::ModelAdded { name, .. } if name == "User"));
    assert!(user_delta.is_some());
    if let Some(Delta::ModelAdded { name, after }) = user_delta {
        assert_eq!(name, "User");
        assert_eq!(after.fields.len(), 3);
        let field_names: Vec<_> = after.fields.iter().map(|f| f.name.as_str()).collect();
        assert!(field_names.contains(&"id"));
        assert!(field_names.contains(&"name"));
        assert!(field_names.contains(&"email"));
        assert!(after.fields.iter().find(|f| f.name == "name").unwrap().optional);
    }
}

#[test]
fn test_transform_deltas_for_plugin_unwraps_model_config() {
    let wrapped = Delta::ModelAdded {
        name: "User".to_string(),
        after: model("User", &[], vec![], r#"{"sql": {"table_name": "users", "indexes": [{ "fields": ["id"], "unique": true }]}}"#, local_id(100)),
    };
    let transformed = transform_deltas_for_plugin(&vec![wrapped], "sql");
    assert_eq!(transformed.len(), 1);
    if let Delta::ModelAdded { after, .. } = &transformed[0] {
        assert_eq!(get_str(&after.config, "table_name"), Some("users"));
        assert!(after.config.get("indexes").is_some());
        assert!(after.config.get("sql").is_none());
    } else {
        panic!("Expected ModelAdded delta");
    }
}

#[test]
fn test_transform_deltas_for_plugin_unwraps_field_config() {
    let wrapped = Delta::FieldAdded {
        model: "User".to_string(),
        field: "email".to_string(),
        after: field("email", ident_type("string"), false, None, r#"{"sql": {"column_name": "user_email", "type": "VARCHAR(320)"}}"#, local_id(2)),
    };
    let transformed = transform_deltas_for_plugin(&vec![wrapped], "sql");
    assert_eq!(transformed.len(), 1);
    if let Delta::FieldAdded { after, .. } = &transformed[0] {
        assert_eq!(get_str(&after.config, "column_name"), Some("user_email"));
        assert_eq!(get_str(&after.config, "type"), Some("VARCHAR(320)"));
        assert!(after.config.get("sql").is_none());
    } else {
        panic!("Expected FieldAdded delta");
    }
}

#[test]
fn test_transform_deltas_for_plugin_handles_missing_plugin_config() {
    let wrapped = Delta::ModelAdded {
        name: "User".to_string(),
        after: model("User", &[], vec![], r#"{"typescript": {"interface_name": "IUser"}}"#, local_id(100)),
    };
    let transformed = transform_deltas_for_plugin(&vec![wrapped], "sql");
    assert_eq!(transformed.len(), 1);
    if let Delta::ModelAdded { after, .. } = &transformed[0] {
        assert!(after.config.is_object());
        assert!(matches!(&after.config, JsonValue::Object(entries) if entries.is_empty()));
    } else {
        panic!("Expected ModelAdded delta");
    }
}

#[test]
fn test_transform_deltas_for_plugin_handles_model_config_changed() {
    let wrapped = Delta::ModelConfigChanged {
        model: "User".to_string(),
        before: json(r#"{"sql": { "table_name": "users" }}"#),
        after: json(r#"{"sql": {"table_name": "users", "indexes": [{ "fields": ["email"] }]}}"#),
    };
    let transformed = transform_deltas_for_plugin(&vec![wrapped], "sql");
    assert_eq!(transformed.len(), 1);
    if let Delta::ModelConfigChanged { before, after, .. } = &transformed[0] {
        assert_eq!(get_str(before, "table_name"), Some("users"));
        assert!(before.get("sql").is_none());
        assert_eq!(get_str(after, "table_name"), Some("users"));
        assert!(after.get("indexes").is_some());
        assert!(after.get("sql").is_none());
    } else {
        panic!("Expected ModelConfigChanged delta");
    }
}

#[test]
fn test_transform_deltas_for_plugin_transforms_nested_fields() {
    let wrapped = Delta::ModelAdded {
        name: "User".to_string(),
        after: model("User", &[], vec![
            field("id", ident_type("number"), false, None, r#"{"sql": { "type": "INTEGER" }}"#, local_id(1)),
            field("email", ident_type("string"), false, None, r#"{"sql": { "type": "VARCHAR(320)" }}"#, local_id(2)),
        ], r#"{"sql": {"table_name": "users", "indexes": [{ "fields": ["id"], "primary": true }]}}"#, local_id(100)),
    };
    let transformed = transform_deltas_for_plugin(&vec![wrapped], "sql");
    assert_eq!(transformed.len(), 1);
    if let Delta::ModelAdded { after, .. } = &transformed[0] {
        assert_eq!(get_str(&after.config, "table_name"), Some("users"));
        assert_eq!(after.fields.len(), 2);
        assert_eq!(get_str(&after.fields[0].config, "type"), Some("INTEGER"));
        assert_eq!(get_str(&after.fields[1].config, "type"), Some("VARCHAR(320)"));
    } else {
        panic!("Expected ModelAdded delta");
    }
}

fn auth_provider() -> TypeExpression {
    union_type(vec![string_literal("github"), string_literal("google"), string_literal("password")])
}

#[test]
fn test_compute_type_alias_deltas_same_local_id_different_source_not_rename() {
    let previous = schema(vec![], vec![alias("AuthProvider", auth_provider(), local_template_id("database.cdm", 6))]);
    let current = schema(vec![], vec![
        alias("AuthProvider", auth_provider(), local_template_id("database.cdm", 6)),
        alias("DaemonStatus", union_type(vec![string_literal("connected"), string_literal("disconnected")]), local_template_id("public.cdm", 6)),
    ]);
    let deltas = compute_type_alias_deltas(&previous.type_aliases, &current.type_aliases);
    assert!(!deltas.iter().any(|d| matches!(d, Delta::TypeAliasRenamed { .. })), "Got: {:?}", deltas);
    assert!(deltas.iter().any(|d| matches!(d, Delta::TypeAliasAdded { name, .. } if name == "DaemonStatus")), "Got: {:?}", deltas);
}

#[test]
fn test_compute_model_deltas_same_local_id_different_source_not_rename() {
    let previous = schema(vec![model("Session", &[], vec![], "{}", local_template_id("database.cdm", 6))], vec![]);
    let current = schema(vec![
        model("Session", &[], vec![], "{}", local_template_id("database.cdm", 6)),
        model("Daemon", &[], vec![], "{}", local_template_id("public.cdm", 6)),
    ], vec![]);
    let deltas = compute_model_deltas(&num_eq, &previous.type_aliases, &current.type_aliases, &previous.models, &current.models);
    assert!(!deltas.iter().any(|d| matches!(d, Delta::ModelRenamed { .. })), "Got: {:?}", deltas);
    assert!(deltas.iter().any(|d| matches!(d, Delta::ModelAdded { name, .. } if name == "Daemon")), "Got: {:?}", deltas);
}

#[test]
fn test_compute_field_deltas_same_local_id_different_source_not_rename() {
    let prev = vec![field("provider", ident_type("string"), false, None, "{}", local_template_id("database.cdm", 6))];
    let curr = vec![
        field("provider", ident_type("string"), false, None, "{}", local_template_id("database.cdm", 6)),
        field("status", ident_type("string"), false, None, "{}", local_template_id("public.cdm", 6)),
    ];
    let deltas = field_deltas(&prev, &curr);
    assert!(!deltas.iter().any(|d| matches!(d, Delta::FieldRenamed { .. })), "Got: {:?}", deltas);
    assert!(deltas.iter().any(|d| matches!(d, Delta::FieldAdded { field, .. } if field == "status")), "Got: {:?}", deltas);
}

#[test]
fn test_compute_deltas_inherited_field_optionality_change() {
    let parent = |optional: bool| model("PublicDaemonAuthRequest", &[], vec![
        field("repo_url", ident_type("string"), optional, None, "{}", local_id(2)),
    ], "{}", local_id(10));
    let child = |optional: bool| model("DaemonAuthRequest", &["PublicDaemonAuthRequest"], vec![
        field("repo_url", ident_type("string"), optional, None, "{}", local_id(2)),
        field("daemon_id", ident_type("string"), true, None, "{}", local_id(20)),
    ], "{}", local_id(14));
    let previous = schema(vec![parent(false), child(false)], vec![]);
    let current = schema(vec![parent(true), child(true)], vec![]);
    let deltas = compute_deltas(&num_eq, &previous, &current);
    let optionality: Vec<_> = deltas.iter().filter(|d| matches!(d, Delta::FieldOptionalityChanged { field, .. } if field == "repo_url")).collect();
    assert_eq!(optionality.len(), 2, "Got: {:?}", optionality);
    let parent_delta = optionality.iter().find(|d| matches!(d, Delta::FieldOptionalityChanged { model, .. } if model == "PublicDaemonAuthRequest"));
    let child_delta = optionality.iter().find(|d| matches!(d, Delta::FieldOptionalityChanged { model, .. } if model == "DaemonAuthRequest"));
    assert!(parent_delta.is_some());
    assert!(child_delta.is_some());
    for d in [parent_delta, child_delta] {
        if let Some(Delta::FieldOptionalityChanged { before, after, .. }) = d {
            assert!(!*before);
            assert!(*after);
        }
    }
}

#[test]
fn test_field_id_collision_inherited_vs_own_field() {
    let inherited = || field("repo_url", ident_type("string"), false, None, "{}", Some(local_field(1, 2)));
    let own = || field("daemon_id", ident_type("string"), false, None, "{}", Some(local_field(5, 2)));
    let curr = vec![inherited(), own()];
    let prev = vec![inherited(), own()];
    let deltas = compute_field_deltas(&num_eq, &vec![], &vec![], "Service", &prev, &curr);
    assert!(deltas.is_empty(), "Expected no deltas, got: {:?}", deltas);
}

#[test]
fn test_field_id_collision_distinct_fields_in_hashmap() {
    let field1 = field("repo_url", ident_type("string"), false, None, "{}", Some(local_field(1, 2)));
    let field2 = field("daemon_id", ident_type("string"), false, None, "{}", Some(local_field(5, 2)));
    let curr_fields = vec![field1, field2];
    let curr_by_id: HashMap<&EntityId, &FieldDefinition> = curr_fields.iter().filter_map(|f| f.entity_id.as_ref().map(|id| (id, f))).collect();
    assert_eq!(curr_by_id.len(), 2);
}

#[test]
fn test_field_id_collision_rename_detection() {
    let prev = vec![field("repo_url", ident_type("string"), false, None, "{}", Some(local_field(1, 2)))];
    let curr = vec![field("repository_url", ident_type("string"), false, None, "{}", Some(local_field(1, 2)))];
    let deltas = compute_field_deltas(&num_eq, &vec![], &vec![], "Entity", &prev, &curr);
    assert_eq!(deltas.len(), 1);
    match &deltas[0] {
        Delta::FieldRenamed { model, old_name, new_name, id, .. } => {
            assert_eq!(model, "Entity");
            assert_eq!(old_name, "repo_url");
            assert_eq!(new_name, "repository_url");
            let entity_id = id.as_ref().expect("Should have entity ID");
            assert_eq!(entity_id.model_entity_id, Some(1));
            assert_eq!(entity_id.local_id, 2);
        },
        _ => panic!("Expected FieldRenamed delta, got: {:?}", deltas[0]),
    }
}

#[test]
fn renamed_field_among_others_is_neither_removed_nor_added() {
    let deltas = field_deltas(
        &vec![
            field("name", ident_type("string"), false, None, "{}", local_id(1)),
            field("age", ident_type("number"), false, None, "{}", local_id(2)),
        ],
        &vec![
            field("fullName", ident_type("string"), false, None, "{}", local_id(1)),
            field("email", ident_type("string"), false, None, "{}", local_id(3)),
        ],
    );
    assert!(deltas.iter().any(|d| matches!(d, Delta::FieldRenamed { old_name, new_name, .. } if old_name == "name" && new_name == "fullName")));
    assert!(!deltas.iter().any(|d| matches!(d, Delta::FieldRemoved { field, .. } if field == "name")));
    assert!(!deltas.iter().any(|d| matches!(d, Delta::FieldAdded { field, .. } if field == "fullName")));
    assert!(deltas.iter().any(|d| matches!(d, Delta::FieldRemoved { field, .. } if field == "age")));
    assert!(deltas.iter().any(|d| matches!(d, Delta::FieldAdded { field, .. } if field == "email")));
}

#[test]
fn test_types_equal_unions_compare_both_ways() {
    let union1 = union_type(vec![ident_type("string"), ident_type("string")]);
    let union2 = union_type(vec![ident_type("string"), ident_type("number")]);
    assert!(!types_equal(&union1, &union2));
    assert!(!types_equal(&union2, &union1));
}

#[test]
fn test_field_type_alias_equals_resolved_type() {
    // A field typed by an alias equals the type the alias stands for.
    let auth_provider_union = union_type(vec![
        string_literal("github"),
        string_literal("google"),
        string_literal("password"),
    ]);

    let previous = schema(
        vec![model("Identity", &[], vec![
            field("provider", auth_provider_union.copy(), false, None, "{}", local_id(1)),
        ], "{}", local_id(10))],
        vec![alias("AuthProvider", auth_provider_union.copy(), local_id(100))],
    );
    let current = schema(
        vec![model("Identity", &[], vec![
            field("provider", ident_type("AuthProvider"), false, None, "{}", local_id(1)),
        ], "{}", local_id(10))],
        vec![alias("AuthProvider", auth_provider_union.copy(), local_id(100))],
    );

    let deltas = compute_deltas(&num_eq, &previous, &current);

    let has_type_change = deltas.iter().any(|d| {
        matches!(d, Delta::FieldTypeChanged { model, field, .. }
            if model == "Identity" && field == "provider")
    });

    assert!(
        !has_type_change,
        "No FieldTypeChanged delta should be generated when type alias resolves to same union. \
         Got deltas: {:?}",
        deltas
    );
}

#[test]
fn field_changed_to_a_different_alias_type_is_reported() {
    let previous = schema(
        vec![model("Identity", &[], vec![
            field("provider", ident_type("string"), false, None, "{}", local_id(1)),
        ], "{}", local_id(10))],
        vec![alias("AuthProvider", union_type(vec![string_literal("github")]), local_id(100))],
    );
    let current = schema(
        vec![model("Identity", &[], vec![
            field("provider", ident_type("AuthProvider"), false, None, "{}", local_id(1)),
        ], "{}", local_id(10))],
        vec![alias("AuthProvider", union_type(vec![string_literal("github")]), local_id(100))],
    );
    let deltas = compute_deltas(&num_eq, &previous, &current);
    assert!(deltas.iter().any(|d| matches!(d, Delta::FieldTypeChanged { field, .. } if field == "provider")));
}

#[test]
fn objects_are_equal_whatever_the_order_of_their_entries() {
    let a = JsonValue::Object(vec![
        ("a".to_string(), JsonValue::Number(JsonNumber::PosInt(1))),
        ("b".to_string(), JsonValue::Str("x".to_string())),
    ]);
    let b = JsonValue::Object(vec![
        ("b".to_string(), JsonValue::Str("x".to_string())),
        ("a".to_string(), JsonValue::Number(JsonNumber::PosInt(1))),
    ]);
    let c = JsonValue::Object(vec![
        ("b".to_string(), JsonValue::Str("y".to_string())),
        ("a".to_string(), JsonValue::Number(JsonNumber::PosInt(1))),
    ]);
    assert!(configs_equal(&a, &b));
    assert!(configs_equal(&b, &a));
    assert!(!configs_equal(&a, &c));
}

#[test]
fn schema_well_formedness_is_decided() {
    let good = schema(
        vec![model("User", &[], vec![
            field("id", ident_type("number"), false, None, "{}", local_id(1)),
            field("name", ident_type("string"), false, None, "{}", local_id(2)),
        ], "{}", local_id(10))],
        vec![alias("Email", ident_type("string"), local_id(20))],
    );
    assert!(cdm::migrate::schema_is_wf(&good));
    let twin_fields = schema(
        vec![model("User", &[], vec![
            field("id", ident_type("number"), false, None, "{}", local_id(1)),
            field("id", ident_type("string"), false, None, "{}", local_id(2)),
        ], "{}", local_id(10))],
        vec![],
    );
    assert!(!cdm::migrate::schema_is_wf(&twin_fields));
    let twin_ids = schema(
        vec![
            model("User", &[], vec![], "{}", local_id(10)),
            model("Post", &[], vec![], "{}", local_id(10)),
        ],
        vec![],
    );
    assert!(!cdm::migrate::schema_is_wf(&twin_ids));
    let twin_aliases = schema(vec![], vec![alias("A", ident_type("string"), None), alias("A", ident_type("number"), None)]);
    assert!(!cdm::migrate::schema_is_wf(&twin_aliases));
}
