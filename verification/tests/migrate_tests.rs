use cdm::json::JsonValue;
use cdm::migrate::{compute_deltas, compute_inheritance_deltas, transform_deltas_for_plugin, Delta};
use cdm::migrate_flow::{context_name, has_migrations_output, plugin_migrate_step, previous_schema_file, resolve_migration_output_dir, should_save_schema, MigrateStep};
use cdm::schema::{EntityId, FieldDefinition, ModelDefinition, Schema, TypeAliasDefinition, TypeExpression, Value};

fn ty(name: &str) -> TypeExpression {
    TypeExpression::Identifier { name: name.to_string() }
}

fn field(name: &str, t: &str, id: Option<u64>) -> FieldDefinition {
    FieldDefinition {
        name: name.to_string(),
        field_type: ty(t),
        optional: false,
        default: None,
        config: JsonValue::Object(vec![]),
        entity_id: id.map(|local_id| EntityId { source: 0, model_entity_id: None, local_id }),
    }
}

fn model(name: &str, fields: Vec<FieldDefinition>, id: Option<u64>) -> ModelDefinition {
    ModelDefinition { name: name.to_string(), parents: vec![], fields, config: JsonValue::Object(vec![]), entity_id: id.map(|local_id| EntityId { source: 0, model_entity_id: None, local_id }) }
}

fn num_eq(a: u64, b: u64) -> bool {
    f64::from_bits(a) == f64::from_bits(b)
}

fn schema() -> Schema {
    Schema {
        models: vec![model("User", vec![field("name", "string", Some(1)), field("age", "number", None)], Some(10))],
        type_aliases: vec![TypeAliasDefinition { name: "Email".to_string(), alias_type: ty("string"), config: JsonValue::Object(vec![]), entity_id: Some(EntityId { source: 0, model_entity_id: None, local_id: 5 }) }],
    }
}

#[test]
fn unchanged_schema_has_no_deltas() {
    let s = schema();
    let d = compute_deltas(&num_eq, &s, &s);
    assert!(d.is_empty());
}

#[test]
fn renamed_field_by_id_and_added_model() {
    let prev = schema();
    let mut curr = schema();
    curr.models[0].fields[0].name = "full_name".to_string();
    curr.models.push(model("Post", vec![], Some(11)));
    let d = compute_deltas(&num_eq, &prev, &curr);
    assert_eq!(d.len(), 2);
    match &d[0] {
        Delta::FieldRenamed { model, old_name, new_name, .. } => {
            assert_eq!(model, "User");
            assert_eq!(old_name, "name");
            assert_eq!(new_name, "full_name");
        },
        other => panic!("unexpected {:?}", other),
    }
    match &d[1] {
        Delta::ModelAdded { name, .. } => assert_eq!(name, "Post"),
        other => panic!("unexpected {:?}", other),
    }
}

#[test]
fn removed_type_alias_and_changed_default() {
    let prev = schema();
    let mut curr = schema();
    curr.type_aliases.clear();
    curr.models[0].fields[1].default = Some(Value::Number(1.5f64.to_bits()));
    let d = compute_deltas(&num_eq, &prev, &curr);
    assert_eq!(d.len(), 2);
    assert!(matches!(&d[0], Delta::TypeAliasRemoved { name, .. } if name == "Email"));
    assert!(matches!(&d[1], Delta::FieldDefaultChanged { field, .. } if field == "age"));
}

#[test]
fn inheritance_added_then_removed() {
    let d = compute_inheritance_deltas("User", &vec!["A".to_string(), "B".to_string()], &vec!["B".to_string(), "C".to_string()]);
    assert_eq!(d.len(), 2);
    assert!(matches!(&d[0], Delta::InheritanceAdded { parent, .. } if parent == "C"));
    assert!(matches!(&d[1], Delta::InheritanceRemoved { parent, .. } if parent == "A"));
}

#[test]
fn plugin_deltas_keep_count() {
    let prev = Schema { models: vec![], type_aliases: vec![] };
    let curr = schema();
    let d = compute_deltas(&num_eq, &prev, &curr);
    assert_eq!(d.len(), 2);
    let t = transform_deltas_for_plugin(&d, "sql");
    assert_eq!(t.len(), 2);
}

#[test]
fn migration_output_directory_priorities() {
    let cfg = JsonValue::Object(vec![("migrations_output".to_string(), JsonValue::Str("db".to_string()))]);
    let empty = JsonValue::Object(vec![]);
    assert_eq!(resolve_migration_output_dir(Some("/abs"), &cfg, "sql", "/src"), "/abs");
    assert_eq!(resolve_migration_output_dir(Some("rel"), &cfg, "sql", "/src"), "/src/rel");
    assert_eq!(resolve_migration_output_dir(None, &cfg, "sql", "/src"), "/src/db");
    assert_eq!(resolve_migration_output_dir(None, &empty, "sql", "/src"), "/src/migrations/sql");
    assert!(has_migrations_output(&Some(cfg)));
    assert!(!has_migrations_output(&Some(JsonValue::Object(vec![("migrations_output".to_string(), JsonValue::Str(String::new()))]))));
    assert!(!has_migrations_output(&None));
}

#[test]
fn migrate_decisions() {
    assert_eq!(plugin_migrate_step(Some(false), true, true), MigrateStep::SkipNoMigrate);
    assert_eq!(plugin_migrate_step(None, true, true), MigrateStep::SkipCheckFailed);
    assert_eq!(plugin_migrate_step(Some(true), false, false), MigrateStep::SkipNoOutput);
    assert_eq!(plugin_migrate_step(Some(true), true, false), MigrateStep::Run);
    assert!(!should_save_schema(true, false, true, false, false));
    assert!(should_save_schema(true, false, false, false, false));
    assert!(!should_save_schema(false, true, false, true, false));
    assert!(!should_save_schema(false, false, true, true, true));
    assert!(should_save_schema(false, false, false, false, false));
    assert_eq!(context_name("/a/base.cdm"), "base");
    assert_eq!(previous_schema_file("/a/base.cdm", "base"), "/a/.cdm/previous_schema_base.json");
}
