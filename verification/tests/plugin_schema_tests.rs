use cdm::completion::ConfigLevel;
use cdm::plugin_schema::{
    extract_literal_values, extract_settings_fields, is_boolean_type, settings_schema, PluginSchemaCache,
    PluginSettingsSchema, ResolvedField, ResolvedModel, SettingsField,
};
use cdm::schema::TypeExpression;

fn field(name: &str) -> SettingsField {
    SettingsField { name: name.to_string(), type_expr: None, optional: false, default_value: None, literal_values: vec![], is_boolean: false }
}

fn empty_schema(has_build: bool, has_migrate: bool) -> PluginSettingsSchema {
    PluginSettingsSchema {
        global_settings: Vec::new(),
        type_alias_settings: Vec::new(),
        model_settings: Vec::new(),
        field_settings: Vec::new(),
        has_build,
        has_migrate,
    }
}

fn ident(name: &str) -> TypeExpression {
    TypeExpression::Identifier { name: name.to_string() }
}

fn lit(value: &str) -> TypeExpression {
    TypeExpression::StringLiteral { value: value.to_string() }
}

/// The text a JSON value has as serde_json writes it.
fn json_text(v: serde_json::Value) -> String {
    v.to_string()
}

#[test]
fn test_settings_field_struct() {
    let field = SettingsField {
        name: "test_field".to_string(),
        type_expr: Some("string".to_string()),
        optional: false,
        default_value: Some(json_text(serde_json::Value::String("default".to_string()))),
        literal_values: vec!["a".to_string(), "b".to_string()],
        is_boolean: false,
    };
    assert_eq!(field.name, "test_field");
    assert_eq!(field.type_expr, Some("string".to_string()));
    assert!(!field.optional);
    assert_eq!(field.default_value, Some("\"default\"".to_string()));
    assert_eq!(field.literal_values.len(), 2);
    assert!(!field.is_boolean);
}

#[test]
fn test_settings_field_debug() {
    let field = SettingsField {
        name: "debug_field".to_string(),
        type_expr: None,
        optional: true,
        default_value: None,
        literal_values: vec![],
        is_boolean: true,
    };
    let debug_str = format!("{:?}", field);
    assert!(debug_str.contains("debug_field"));
    assert!(debug_str.contains("is_boolean: true"));
}

#[test]
fn test_settings_field_clone() {
    let field = SettingsField {
        name: "clone_test".to_string(),
        type_expr: Some("number".to_string()),
        optional: true,
        default_value: Some(json_text(serde_json::Value::from(42))),
        literal_values: vec!["x".to_string()],
        is_boolean: false,
    };
    let cloned = field.copy();
    assert_eq!(cloned.name, field.name);
    assert_eq!(cloned.type_expr, field.type_expr);
    assert_eq!(cloned.optional, field.optional);
    assert_eq!(cloned.default_value, field.default_value);
    assert_eq!(cloned.literal_values, field.literal_values);
    assert_eq!(cloned.is_boolean, field.is_boolean);
}

#[test]
fn test_plugin_settings_schema_struct() {
    let mut schema = empty_schema(true, false);
    schema.global_settings = vec![field("global")];
    schema.model_settings = vec![field("model")];
    assert_eq!(schema.global_settings.len(), 1);
    assert_eq!(schema.type_alias_settings.len(), 0);
    assert_eq!(schema.model_settings.len(), 1);
    assert_eq!(schema.field_settings.len(), 0);
    assert!(schema.has_build);
    assert!(!schema.has_migrate);
}

#[test]
fn test_plugin_settings_schema_debug() {
    let schema = empty_schema(true, true);
    let debug_str = format!("{:?}", schema);
    assert!(debug_str.contains("has_build: true"));
    assert!(debug_str.contains("has_migrate: true"));
}

#[test]
fn test_plugin_settings_schema_clone() {
    let mut schema = empty_schema(true, false);
    schema.global_settings = vec![field("test")];
    let cloned = schema.copy();
    assert_eq!(cloned.global_settings.len(), 1);
    assert_eq!(cloned.has_build, schema.has_build);
    assert_eq!(cloned.has_migrate, schema.has_migrate);
}

#[test]
fn test_fields_for_level_global() {
    let mut schema = empty_schema(false, false);
    schema.global_settings = vec![field("global_field")];
    let fields = schema.fields_for_level(&ConfigLevel::Global);
    assert_eq!(fields.len(), 1);
    assert_eq!(fields[0].name, "global_field");
}

#[test]
fn test_fields_for_level_type_alias() {
    let mut schema = empty_schema(false, false);
    let mut f1 = field("type_alias_field_1");
    f1.type_expr = Some("string".to_string());
    let mut f2 = field("type_alias_field_2");
    f2.type_expr = Some("number".to_string());
    f2.optional = true;
    f2.default_value = Some(json_text(serde_json::Value::from(0)));
    schema.type_alias_settings = vec![f1, f2];
    let fields = schema.fields_for_level(&ConfigLevel::TypeAlias { name: "TestType".to_string() });
    assert_eq!(fields.len(), 2);
    assert_eq!(fields[0].name, "type_alias_field_1");
    assert_eq!(fields[1].name, "type_alias_field_2");
}

#[test]
fn test_fields_for_level_model() {
    let mut schema = empty_schema(false, false);
    schema.model_settings = vec![field("model_field")];
    let fields = schema.fields_for_level(&ConfigLevel::Model { name: "TestModel".to_string() });
    assert_eq!(fields.len(), 1);
    assert_eq!(fields[0].name, "model_field");
}

#[test]
fn test_fields_for_level_field() {
    let mut schema = empty_schema(false, false);
    schema.field_settings = vec![field("field_setting")];
    let fields = schema.fields_for_level(&ConfigLevel::Field { model: "TestModel".to_string(), field: "test_field".to_string() });
    assert_eq!(fields.len(), 1);
    assert_eq!(fields[0].name, "field_setting");
}

#[test]
fn test_fields_for_level_returns_slice() {
    let mut schema = empty_schema(false, false);
    schema.global_settings = vec![field("a"), field("b"), field("c")];
    let fields = schema.fields_for_level(&ConfigLevel::Global);
    let names: Vec<_> = fields.iter().map(|f| f.name.as_str()).collect();
    assert_eq!(names, vec!["a", "b", "c"]);
}

#[test]
fn test_cache_new() {
    let cache = PluginSchemaCache::new();
    assert!(!cache.contains("anything"));
    assert!(cache.get("anything").is_none());
}

#[test]
fn test_cache_default() {
    let cache = PluginSchemaCache::default();
    assert!(!cache.contains("anything"));
}

#[test]
fn test_cache_invalidate() {
    let mut cache = PluginSchemaCache::new();
    cache.insert("test_plugin", empty_schema(false, false));
    assert!(cache.contains("test_plugin"));
    cache.invalidate("test_plugin");
    assert!(!cache.contains("test_plugin"));
}

#[test]
fn test_cache_invalidate_nonexistent() {
    let mut cache = PluginSchemaCache::new();
    cache.invalidate("nonexistent_plugin");
    assert!(!cache.contains("nonexistent_plugin"));
}

#[test]
fn test_cache_clear() {
    let mut cache = PluginSchemaCache::new();
    for i in 0..5 {
        cache.insert(&format!("plugin_{}", i), empty_schema(false, false));
    }
    for i in 0..5 {
        assert!(cache.contains(&format!("plugin_{}", i)));
    }
    cache.clear();
    for i in 0..5 {
        assert!(!cache.contains(&format!("plugin_{}", i)));
    }
}

#[test]
fn test_cache_clear_empty() {
    let mut cache = PluginSchemaCache::new();
    cache.clear();
    assert!(!cache.contains("x"));
}

#[test]
fn test_cache_invalidate_partial() {
    let mut cache = PluginSchemaCache::new();
    cache.insert("keep_me", empty_schema(false, false));
    cache.insert("remove_me", empty_schema(false, false));
    cache.invalidate("remove_me");
    assert!(cache.contains("keep_me"));
    assert!(!cache.contains("remove_me"));
}

#[test]
fn cache_get_returns_a_copy_of_what_was_inserted() {
    let mut cache = PluginSchemaCache::new();
    let mut s = empty_schema(true, false);
    s.field_settings = vec![field("x")];
    cache.insert("sql", s);
    let got = cache.get("sql").unwrap();
    assert!(got.has_build && !got.has_migrate);
    assert_eq!(got.field_settings[0].name, "x");
    cache.insert("sql", empty_schema(false, true));
    assert!(cache.get("sql").unwrap().has_migrate);
}

#[test]
fn test_extract_literal_values_single_literal() {
    assert_eq!(extract_literal_values(&lit("postgres")), vec!["postgres"]);
}

#[test]
fn test_extract_literal_values_union_of_literals() {
    let parsed = TypeExpression::Union { types: vec![lit("active"), lit("inactive"), lit("pending")] };
    assert_eq!(extract_literal_values(&parsed), vec!["active", "inactive", "pending"]);
}

#[test]
fn test_extract_literal_values_mixed_union() {
    let parsed = TypeExpression::Union { types: vec![lit("literal_value"), ident("string"), lit("another_literal")] };
    assert_eq!(extract_literal_values(&parsed), vec!["literal_value", "another_literal"]);
}

#[test]
fn test_extract_literal_values_primitive() {
    assert!(extract_literal_values(&ident("string")).is_empty());
}

#[test]
fn test_extract_literal_values_array() {
    let parsed = TypeExpression::Array { element_type: Box::new(ident("string")) };
    assert!(extract_literal_values(&parsed).is_empty());
}

#[test]
fn test_extract_literal_values_reference() {
    assert!(extract_literal_values(&ident("CustomType")).is_empty());
}

#[test]
fn test_extract_literal_values_null() {
    assert!(extract_literal_values(&ident("null")).is_empty());
}

#[test]
fn test_extract_literal_values_union_no_literals() {
    let parsed = TypeExpression::Union { types: vec![ident("string"), ident("number")] };
    assert!(extract_literal_values(&parsed).is_empty());
}

#[test]
fn test_is_boolean_type_true() {
    assert!(is_boolean_type(&ident("boolean")));
}

#[test]
fn test_is_boolean_type_string() {
    assert!(!is_boolean_type(&ident("string")));
}

#[test]
fn test_is_boolean_type_number() {
    assert!(!is_boolean_type(&ident("number")));
}

#[test]
fn test_is_boolean_type_literal() {
    assert!(!is_boolean_type(&lit("true")));
}

#[test]
fn test_is_boolean_type_reference() {
    assert!(!is_boolean_type(&ident("Boolean")));
}

#[test]
fn test_is_boolean_type_array() {
    let parsed = TypeExpression::Array { element_type: Box::new(ident("boolean")) };
    assert!(!is_boolean_type(&parsed));
}

#[test]
fn test_is_boolean_type_union() {
    let parsed = TypeExpression::Union { types: vec![ident("boolean"), ident("string")] };
    assert!(!is_boolean_type(&parsed));
}

#[test]
fn test_is_boolean_type_null() {
    assert!(!is_boolean_type(&ident("null")));
}

fn resolved(name: &str, type_expr: &str, parsed: Option<TypeExpression>, optional: bool) -> ResolvedField {
    ResolvedField { name: name.to_string(), type_expr: Some(type_expr.to_string()), parsed_type: parsed, optional, default_value: None }
}

#[test]
fn settings_fields_come_from_the_named_model() {
    let models = vec![
        ResolvedModel {
            name: "GlobalSettings".to_string(),
            fields: vec![
                resolved("dialect", "\"postgres\" | \"sqlite\"", Some(TypeExpression::Union { types: vec![lit("postgres"), lit("sqlite")] }), false),
                resolved("strict", "boolean", Some(ident("boolean")), true),
                resolved("broken", "???", None, true),
            ],
        },
        ResolvedModel { name: "ModelSettings".to_string(), fields: vec![resolved("table", "string", Some(ident("string")), true)] },
    ];
    let global = extract_settings_fields(&models, "GlobalSettings");
    assert_eq!(global.len(), 3);
    assert_eq!(global[0].literal_values, vec!["postgres", "sqlite"]);
    assert!(!global[0].is_boolean && !global[0].optional);
    assert!(global[1].is_boolean && global[1].optional);
    assert!(global[2].literal_values.is_empty() && !global[2].is_boolean);
    assert_eq!(global[2].type_expr, Some("???".to_string()));
    assert!(extract_settings_fields(&models, "FieldSettings").is_empty());

    let schema = settings_schema(&models, true, false);
    assert_eq!(schema.global_settings.len(), 3);
    assert_eq!(schema.model_settings[0].name, "table");
    assert!(schema.type_alias_settings.is_empty() && schema.field_settings.is_empty());
    assert!(schema.has_build && !schema.has_migrate);
}
