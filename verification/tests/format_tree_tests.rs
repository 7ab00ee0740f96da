use cdm::format::{assign_missing_ids, collect_entity_ids, EntityIdTracker, EntityType, FormatOptions};
use cdm::format_insert::reconstruct_source;
use cdm::format_plan::plan_format;
use cdm::format_text::format_source;
use cdm::syntax::SyntaxNode;

fn leaf(kind: &str, field: Option<&str>, text: &str, start: usize) -> SyntaxNode {
    SyntaxNode {
        kind: kind.to_string(),
        field_name: field.map(|f| f.to_string()),
        text: text.to_string(),
        start_byte: start,
        end_byte: start + text.len(),
        start_row: 0,
        start_column: start,
        end_row: 0,
        end_column: start + text.len(),
        is_missing: false,
        is_named: true,
        children: vec![],
    }
}

fn node(kind: &str, field: Option<&str>, text: &str, start: usize, children: Vec<SyntaxNode>) -> SyntaxNode {
    let mut n = leaf(kind, field, text, start);
    n.children = children;
    n
}

/// `Email: string` (no ID) then `User { name: string #1 age: number }` (model without ID).
fn sample() -> (String, SyntaxNode) {
    let source = "Email: string\nUser {\n  name: string #1\n  age: number\n}\n".to_string();
    let alias = node("type_alias", None, "Email: string", 0, vec![
        leaf("identifier", Some("name"), "Email", 0),
        leaf(":", None, ":", 5),
        leaf("type_identifier", Some("type"), "string", 7),
    ]);
    let name_field = node("field_definition", None, "name: string #1", 23, vec![
        leaf("identifier", Some("name"), "name", 23),
        leaf("type_identifier", Some("type"), "string", 29),
        leaf("entity_id", Some("id"), "#1", 36),
    ]);
    let age_field = node("field_definition", None, "age: number", 41, vec![
        leaf("identifier", Some("name"), "age", 41),
        leaf("type_identifier", Some("type"), "number", 46),
    ]);
    let body = node("model_body", Some("body"), "{\n  name: string #1\n  age: number\n}", 19, vec![
        leaf("{", None, "{", 19),
        name_field,
        age_field,
        leaf("}", None, "}", 53),
    ]);
    let model = node("model_definition", None, "User {\n  name: string #1\n  age: number\n}", 14, vec![
        leaf("identifier", Some("name"), "User", 14),
        body,
    ]);
    let root = node("source_file", None, &source, 0, vec![alias, model]);
    (source, root)
}

#[test]
fn collect_and_assign_ids_on_a_tree() {
    let (_, root) = sample();
    let mut tracker = EntityIdTracker::new();
    collect_entity_ids(&root, &mut tracker);
    let out = assign_missing_ids(&root, &mut tracker);
    assert_eq!(out.len(), 3);
    assert_eq!(out[0].entity_type, EntityType::TypeAlias);
    assert_eq!(out[0].entity_name, "Email");
    assert_eq!(out[0].assigned_id, 1);
    assert_eq!(out[1].entity_type, EntityType::Model);
    assert_eq!(out[1].entity_name, "User");
    assert_eq!(out[1].assigned_id, 2);
    assert_eq!(out[2].entity_type, EntityType::Field);
    assert_eq!(out[2].entity_name, "age");
    assert_eq!(out[2].model_name.as_deref(), Some("User"));
    assert_eq!(out[2].assigned_id, 2);
}

#[test]
fn format_source_writes_assigned_ids() {
    let (_, root) = sample();
    let mut tracker = EntityIdTracker::new();
    collect_entity_ids(&root, &mut tracker);
    let out = assign_missing_ids(&root, &mut tracker);
    let text = format_source(&root, &out, 2);
    assert_eq!(text, "Email: string #1\n\nUser {\n  name: string #1\n  age: number #2\n} #2\n");
    let four = format_source(&root, &vec![], 4);
    assert_eq!(four, "Email: string\n\nUser {\n    name: string #1\n    age: number\n}\n");
}

#[test]
fn reconstruct_source_inserts_ids_in_place() {
    let (source, root) = sample();
    let mut tracker = EntityIdTracker::new();
    collect_entity_ids(&root, &mut tracker);
    let out = assign_missing_ids(&root, &mut tracker);
    let text = reconstruct_source(&root, &source, &out);
    assert_eq!(text, "Email: string #1\nUser {\n  name: string #1\n  age: number #2\n} #2\n");
}

#[test]
fn plan_format_refuses_parse_errors() {
    let (source, root) = sample();
    let err = plan_format("a.cdm", &root, true, &source, &vec![], &FormatOptions::default()).unwrap_err();
    assert_eq!(err.len(), 1);
    assert_eq!(err[0].message, "File a.cdm has parse errors, cannot format");
}

#[test]
fn plan_format_assigns_above_ancestor_ids() {
    let (source, root) = sample();
    let ancestor = node("source_file", None, "Base: string #7", 0, vec![node("type_alias", None, "Base: string #7", 0, vec![
        leaf("identifier", Some("name"), "Base", 0),
        leaf("type_identifier", Some("type"), "string", 6),
        leaf("entity_id", Some("id"), "#7", 13),
    ])]);
    let options = FormatOptions { assign_ids: true, check: false, write: true, indent_size: 2, format_whitespace: false };
    let plan = plan_format("a.cdm", &root, false, &source, &vec![ancestor], &options).unwrap();
    assert!(plan.modified);
    assert_eq!(plan.assignments.len(), 3);
    assert_eq!(plan.assignments[0].assigned_id, 8);
    assert_eq!(plan.assignments[1].assigned_id, 9);
    assert_eq!(plan.assignments[2].assigned_id, 2);
    assert_eq!(plan.to_write.as_deref(), Some("Email: string #8\nUser {\n  name: string #1\n  age: number #2\n} #9\n"));
    let check = FormatOptions { check: true, ..options };
    let plan2 = plan_format("a.cdm", &root, false, &source, &vec![], &check).unwrap();
    assert!(plan2.modified);
    assert_eq!(plan2.to_write, None);
}

#[test]
fn plan_format_unchanged_document_is_not_modified() {
    let source = "A: string #1\n".to_string();
    let alias = node("type_alias", None, "A: string #1", 0, vec![
        leaf("identifier", Some("name"), "A", 0),
        leaf("type_identifier", Some("type"), "string", 3),
        leaf("entity_id", Some("id"), "#1", 10),
    ]);
    let root = node("source_file", None, &source, 0, vec![alias]);
    let plan = plan_format("a.cdm", &root, false, &source, &vec![], &FormatOptions::default()).unwrap();
    assert!(!plan.modified);
    assert_eq!(plan.to_write.as_deref(), Some("A: string #1\n"));
}

#[test]
fn a_document_with_small_ids_leaves_room_for_fresh_ones() {
    let (_, root) = sample();
    assert!(cdm::format_room::ids_leave_room(&vec![], &root));
}

#[test]
fn an_id_next_to_the_limit_leaves_no_room() {
    let text = "Email: string #18446744073709551614";
    let alias = node("type_alias", None, text, 0, vec![
        leaf("identifier", Some("name"), "Email", 0),
        leaf("type_identifier", Some("type"), "string", 7),
        leaf("entity_id", Some("id"), "#18446744073709551614", 14),
    ]);
    let root = node("source_file", None, text, 0, vec![alias]);
    assert!(!cdm::format_room::ids_leave_room(&vec![], &root));
}
