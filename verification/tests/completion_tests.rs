use cdm::completion::{determine_completion_context, extract_already_defined_fields, is_after_colon, is_at_top_level, should_show_plugin_field_completions, CompletionContext, ConfigLevel};
use cdm::completion_items::{
    builtin_type_completions, compute_completions, extract_model_completion, extract_type_alias_completion,
    format_field_detail, format_field_documentation, format_field_insert_text, model_name_completions,
    plugin_field_completions, plugin_name_completions, plugin_value_completions, snippet_completions,
    user_defined_type_completions, CompletionItem, CompletionItemKind, InsertTextFormat,
};
use cdm::lsp::{lsp_position_to_byte_offset, Position};
use cdm::plugin_schema::{PluginSettingsSchema, SettingsField};
use cdm::syntax::SyntaxNode;
use cdm::tree_path::find_node_at_offset;

/// Builds syntax trees over a source text; rows and columns come from byte offsets.
struct Src<'a> {
    text: &'a str,
}

impl<'a> Src<'a> {
    fn pos(&self, b: usize) -> (usize, usize) {
        let before = &self.text[..b];
        let row = before.matches('\n').count();
        let col = b - before.rfind('\n').map(|i| i + 1).unwrap_or(0);
        (row, col)
    }

    /// The byte offset of the `nth` occurrence of `needle`.
    fn at(&self, needle: &str, nth: usize) -> usize {
        self.text.match_indices(needle).nth(nth).unwrap_or_else(|| panic!("no {:?} #{}", needle, nth)).0
    }

    /// The offset just past the brace that closes the one at `open`.
    fn close(&self, open: usize) -> usize {
        let mut depth = 0usize;
        for (i, c) in self.text[open..].char_indices() {
            if c == '{' {
                depth += 1;
            } else if c == '}' {
                depth -= 1;
                if depth == 0 {
                    return open + i + 1;
                }
            }
        }
        panic!("unbalanced braces")
    }

    fn node(&self, kind: &str, field: Option<&str>, start: usize, end: usize, children: Vec<SyntaxNode>) -> SyntaxNode {
        let (sr, sc) = self.pos(start);
        let (er, ec) = self.pos(end);
        let named = kind.chars().next().map(|c| c.is_alphabetic() || c == '_').unwrap_or(false);
        SyntaxNode {
            kind: kind.to_string(),
            field_name: field.map(|f| f.to_string()),
            text: self.text[start..end].to_string(),
            start_byte: start,
            end_byte: end,
            start_row: sr,
            start_column: sc,
            end_row: er,
            end_column: ec,
            is_missing: false,
            is_named: named,
            children,
        }
    }

    /// A leaf over the `nth` occurrence of `needle`.
    fn leaf(&self, kind: &str, field: Option<&str>, needle: &str, nth: usize) -> SyntaxNode {
        let s = self.at(needle, nth);
        self.node(kind, field, s, s + needle.len(), vec![])
    }

    /// A node over the braces opened by the `nth` `{`.
    fn braces(&self, kind: &str, field: Option<&str>, nth: usize, children: Vec<SyntaxNode>) -> SyntaxNode {
        let s = self.at("{", nth);
        let e = self.close(s);
        self.node(kind, field, s, e, children)
    }

    fn root(&self, children: Vec<SyntaxNode>) -> SyntaxNode {
        self.node("source_file", None, 0, self.text.len(), children)
    }
}

impl<'a> Src<'a> {
    /// A type alias `Name: <type>` whose name is the `nth` occurrence of `name`; the
    /// type is the text `ty` after it, on the same line.
    fn alias(&self, name: &str, nth: usize, ty: &str, ty_kind: &str) -> SyntaxNode {
        let s = self.at(name, nth);
        let t = s + self.text[s..].find(ty).unwrap();
        let line_end = s + self.text[s..].find('\n').unwrap_or(self.text.len() - s);
        self.node("type_alias", None, s, line_end, vec![
            self.node("identifier", Some("name"), s, s + name.len(), vec![]),
            self.node(ty_kind, Some("type"), t, t + ty.len(), vec![]),
        ])
    }

    /// A field `name: type` inside a model, for the `nth` occurrence of `name`.
    fn field(&self, name: &str, nth: usize, ty: Option<&str>) -> SyntaxNode {
        let s = self.at(name, nth);
        let mut children = vec![self.node("identifier", Some("name"), s, s + name.len(), vec![])];
        let mut end = s + name.len() + 1;
        if let Some(ty) = ty {
            let t = s + self.text[s..].find(ty).unwrap();
            children.push(self.node("type_identifier", Some("type"), t, t + ty.len(), vec![]));
            end = t + ty.len();
        }
        self.node("field_definition", None, s, end, children)
    }

    /// A model whose name is the `nth` occurrence of `name` and whose body is the
    /// braces opened by the `brace` `{`.
    fn model(&self, name: &str, nth: usize, brace: usize, fields: Vec<SyntaxNode>) -> SyntaxNode {
        let s = self.at(name, nth);
        let body = self.braces("model_body", Some("body"), brace, fields);
        let end = body.end_byte;
        self.node("model_definition", None, s, end, vec![self.node("identifier", Some("name"), s, s + name.len(), vec![]), body])
    }

    /// A plugin import `@name { ... }` whose object literal is opened by the `brace` `{`.
    fn plugin(&self, name: &str, brace: usize, entries: Vec<SyntaxNode>) -> SyntaxNode {
        let at = self.at(&format!("@{}", name), 0);
        let obj = self.braces("object_literal", Some("config"), brace, entries);
        let end = obj.end_byte;
        self.node("plugin_import", None, at, end, vec![self.node("identifier", Some("name"), at + 1, at + 1 + name.len(), vec![]), obj])
    }

    /// An entry `key: value` of an object literal, the key being the `nth` occurrence.
    fn entry(&self, key: &str, nth: usize, value: &str) -> SyntaxNode {
        let s = self.at(key, nth);
        let v = s + self.text[s..].find(value).unwrap();
        self.node("object_entry", None, s, v + value.len(), vec![
            self.node("identifier", Some("key"), s, s + key.len(), vec![]),
            self.node("string_literal", Some("value"), v, v + value.len(), vec![]),
        ])
    }
}

fn labels(items: &[CompletionItem]) -> Vec<String> {
    items.iter().map(|i| i.label.clone()).collect()
}

fn has(items: &[CompletionItem], label: &str) -> bool {
    items.iter().any(|i| i.label == label)
}

fn settings(name: &str, ty: &str, optional: bool, default: Option<&str>, literals: &[&str], is_boolean: bool) -> SettingsField {
    SettingsField {
        name: name.to_string(),
        type_expr: Some(ty.to_string()),
        optional,
        default_value: default.map(|d| d.to_string()),
        literal_values: literals.iter().map(|l| l.to_string()).collect(),
        is_boolean,
    }
}

fn schema_with(global: Vec<SettingsField>, has_build: bool, has_migrate: bool) -> PluginSettingsSchema {
    PluginSettingsSchema {
        global_settings: global,
        type_alias_settings: vec![],
        model_settings: vec![],
        field_settings: vec![],
        has_build,
        has_migrate,
    }
}

/// `true` and `"postgresql"` as serde_json writes them.
fn json(v: serde_json::Value) -> String {
    v.to_string()
}

#[test]
fn test_builtin_type_completions() {
    let items = builtin_type_completions();
    assert_eq!(items.len(), 4);
    assert!(has(&items, "string"));
    assert!(has(&items, "number"));
    assert!(has(&items, "boolean"));
    assert!(has(&items, "JSON"));
}

#[test]
fn test_user_defined_type_completions() {
    let text = "\nEmail: string #1\nStatus: \"active\" | \"inactive\" #2\n\nUser {\n  name: string #1\n} #10\n";
    let s = Src { text };
    let root = s.root(vec![
        s.alias("Email", 0, "string", "type_identifier"),
        s.alias("Status", 0, "\"active\" | \"inactive\"", "union_type"),
        s.model("User", 0, 0, vec![s.field("name", 0, Some("string"))]),
    ]);
    let items = user_defined_type_completions(&root);
    assert_eq!(items.len(), 3);
    let email = items.iter().find(|i| i.label == "Email");
    assert!(email.is_some());
    assert_eq!(email.unwrap().kind, Some(CompletionItemKind::TypeParameter));
    let user = items.iter().find(|i| i.label == "User");
    assert!(user.is_some());
    assert_eq!(user.unwrap().kind, Some(CompletionItemKind::Class));
}

#[test]
fn test_model_name_completions() {
    let text = "\nEmail: string #1\n\nUser {\n  name: string #1\n} #10\n\nPost {\n  title: string #1\n} #20\n";
    let s = Src { text };
    let root = s.root(vec![
        s.alias("Email", 0, "string", "type_identifier"),
        s.model("User", 0, 0, vec![s.field("name", 0, Some("string"))]),
        s.model("Post", 0, 1, vec![s.field("title", 0, Some("string"))]),
    ]);
    let items = model_name_completions(&root);
    assert_eq!(items.len(), 2);
    assert!(has(&items, "User"));
    assert!(has(&items, "Post"));
    assert!(!has(&items, "Email"));
}

#[test]
fn test_snippet_completions() {
    let items = snippet_completions();
    assert!(items.len() >= 3);
    assert!(has(&items, "model"));
    assert!(has(&items, "type"));
    assert!(has(&items, "extends"));
}

#[test]
fn test_is_after_colon() {
    let text = "User {\n  name: ";
    assert!(is_after_colon(text, text.len()));
    let text2 = "User {\n  name";
    assert!(!is_after_colon(text2, text2.len()));
    let text3 = "User {\n  name:  ";
    assert!(is_after_colon(text3, text3.len()));
}

#[test]
fn test_compute_completions_after_colon() {
    let text = "\nEmail: string #1\n\nUser {\n  name:\n} #10\n";
    let s = Src { text };
    let root = s.root(vec![
        s.alias("Email", 0, "string", "type_identifier"),
        s.model("User", 0, 0, vec![s.field("name", 0, None)]),
    ]);
    let position = Position { line: 4, character: 8 };
    let items = compute_completions(&root, text, position, None).unwrap();
    assert!(items.len() >= 4);
    assert!(has(&items, "string"));
    assert!(has(&items, "Email"));
}

#[test]
fn test_compute_completions_after_colon_and_space() {
    let text = "Email: string #1\n\nUser {\n  name:\n} #10\n";
    let s = Src { text };
    let root = s.root(vec![
        s.alias("Email", 0, "string", "type_identifier"),
        s.model("User", 0, 0, vec![s.field("name", 0, None)]),
    ]);
    let position = Position { line: 3, character: 9 };
    let items = compute_completions(&root, text, position, None).unwrap();
    assert!(items.len() >= 4, "Expected at least 4 items, got {}", items.len());
    assert!(has(&items, "string"));
    assert!(has(&items, "Email"));
    assert!(!has(&items, "model"));
    assert!(!has(&items, "type"));
    assert!(!has(&items, "extends"));
}

#[test]
fn test_compute_completions_top_level() {
    let text = "\nEmail: string #1\n\n\n";
    let s = Src { text };
    let root = s.root(vec![s.alias("Email", 0, "string", "type_identifier")]);
    let position = Position { line: 3, character: 0 };
    let items = compute_completions(&root, text, position, None).unwrap();
    assert!(has(&items, "model"));
    assert!(has(&items, "type"));
}

#[test]
fn test_plugin_config_level_detection() {
    let text = "\n@sql {\n\n}\n";
    let s = Src { text };
    let root = s.root(vec![s.plugin("sql", 0, vec![])]);
    let position = Position { line: 2, character: 2 };
    let offset = lsp_position_to_byte_offset(text, position);
    match determine_completion_context(&root, text, offset) {
        Some(CompletionContext::PluginConfigField { plugin_name, config_level }) => {
            assert_eq!(plugin_name, "sql");
            assert!(matches!(config_level, ConfigLevel::Global));
        },
        other => panic!("Expected PluginConfigField context for global plugin config, got {:?}", other),
    }
}

#[test]
fn test_plugin_field_completions_with_mock_schema() {
    let schema = schema_with(vec![
        settings("dialect", "\"postgresql\" | \"sqlite\"", false, Some(&json(serde_json::Value::from("postgresql"))), &["postgresql", "sqlite"], false),
        settings("schema", "string", true, None, &[], false),
        settings("infer_not_null", "boolean", false, Some(&json(serde_json::Value::from(true))), &[], true),
    ], false, false);
    let already_defined: Vec<String> = Vec::new();
    let items = plugin_field_completions(&schema, &ConfigLevel::Global, &already_defined);
    assert_eq!(items.len(), 4);
    assert!(has(&items, "dialect"));
    assert!(has(&items, "schema"));
    assert!(has(&items, "infer_not_null"));
    assert!(has(&items, "version"));

    let already_defined = vec!["dialect".to_string()];
    let items = plugin_field_completions(&schema, &ConfigLevel::Global, &already_defined);
    assert_eq!(items.len(), 3);
    assert!(!has(&items, "dialect"));
}

#[test]
fn test_plugin_value_completions_with_mock_schema() {
    let schema = schema_with(vec![
        settings("dialect", "\"postgresql\" | \"sqlite\"", false, Some(&json(serde_json::Value::from("postgresql"))), &["postgresql", "sqlite"], false),
        settings("infer_not_null", "boolean", false, Some(&json(serde_json::Value::from(true))), &[], true),
    ], false, false);
    let items = plugin_value_completions(&schema, &ConfigLevel::Global, "dialect");
    assert_eq!(items.len(), 2);
    assert!(has(&items, "\"postgresql\""));
    assert!(has(&items, "\"sqlite\""));
    let items = plugin_value_completions(&schema, &ConfigLevel::Global, "infer_not_null");
    assert_eq!(items.len(), 2);
    assert!(has(&items, "true"));
    assert!(has(&items, "false"));
}

fn sql_dialect_tree(text: &str) -> SyntaxNode {
    let s = Src { text };
    s.root(vec![s.plugin("sql", 0, vec![s.entry("dialect", 0, "\"postgres\"")])])
}

#[test]
fn test_no_completions_immediately_after_comma_in_plugin_config() {
    let text = "@sql {\n  dialect: \"postgres\",\n}\n";
    let root = sql_dialect_tree(text);
    let position = Position { line: 1, character: 22 };
    let completions = compute_completions(&root, text, position, None);
    assert!(
        completions.is_none(),
        "Expected no completions immediately after comma, but got: {:?}",
        completions.map(|c| labels(&c))
    );
}

#[test]
fn test_completions_after_comma_and_space_in_plugin_config() {
    let text = "@sql {\n  dialect: \"postgres\",\n}\n";
    let root = sql_dialect_tree(text);
    let position = Position { line: 1, character: 23 };
    let completions = compute_completions(&root, text, position, None);
    if let Some(items) = &completions {
        assert!(!has(items, "boolean"));
        assert!(!has(items, "model"));
        assert!(!has(items, "string"));
    }
}

#[test]
fn test_should_show_plugin_field_completions() {
    assert!(should_show_plugin_field_completions("@sql {", 6));
    let text_comma_space = "@sql { dialect: \"postgres\", ";
    assert!(should_show_plugin_field_completions(text_comma_space, text_comma_space.len()));
    let text_comma_newline = "@sql { dialect: \"postgres\",\n";
    assert!(should_show_plugin_field_completions(text_comma_newline, text_comma_newline.len()));
    let text_comma_tab = "@sql { dialect: \"postgres\",\t";
    assert!(should_show_plugin_field_completions(text_comma_tab, text_comma_tab.len()));
    let text_comma_only = "@sql { dialect: \"postgres\",";
    assert!(!should_show_plugin_field_completions(text_comma_only, text_comma_only.len()));
    assert!(should_show_plugin_field_completions("@sql { }", 7));
    assert!(should_show_plugin_field_completions("", 0));
    assert!(should_show_plugin_field_completions("  ", 2));
}

#[test]
fn test_reserved_global_settings_version_always_shown() {
    let schema = schema_with(vec![], false, false);
    let items = plugin_field_completions(&schema, &ConfigLevel::Global, &Vec::new());
    assert_eq!(items.len(), 1);
    assert!(has(&items, "version"));
    assert!(!has(&items, "build_output"));
    assert!(!has(&items, "migrations_output"));
}

#[test]
fn test_reserved_global_settings_build_output_shown_when_plugin_has_build() {
    let schema = schema_with(vec![], true, false);
    let items = plugin_field_completions(&schema, &ConfigLevel::Global, &Vec::new());
    assert_eq!(items.len(), 2);
    assert!(has(&items, "version"));
    assert!(has(&items, "build_output"));
    assert!(!has(&items, "migrations_output"));
}

#[test]
fn test_reserved_global_settings_migrations_output_shown_when_plugin_has_migrate() {
    let schema = schema_with(vec![], false, true);
    let items = plugin_field_completions(&schema, &ConfigLevel::Global, &Vec::new());
    assert_eq!(items.len(), 2);
    assert!(has(&items, "version"));
    assert!(!has(&items, "build_output"));
    assert!(has(&items, "migrations_output"));
}

#[test]
fn test_reserved_global_settings_all_shown_when_plugin_has_both() {
    let schema = schema_with(vec![], true, true);
    let items = plugin_field_completions(&schema, &ConfigLevel::Global, &Vec::new());
    assert_eq!(items.len(), 3);
    assert!(has(&items, "version"));
    assert!(has(&items, "build_output"));
    assert!(has(&items, "migrations_output"));
}

#[test]
fn test_reserved_global_settings_filtered_when_already_defined() {
    let schema = schema_with(vec![], true, true);
    let already_defined = vec!["version".to_string(), "build_output".to_string()];
    let items = plugin_field_completions(&schema, &ConfigLevel::Global, &already_defined);
    assert_eq!(items.len(), 1);
    assert!(has(&items, "migrations_output"));
}

#[test]
fn test_reserved_settings_not_shown_for_non_global_levels() {
    let schema = schema_with(vec![], true, true);
    let items = plugin_field_completions(&schema, &ConfigLevel::Model { name: "User".to_string() }, &Vec::new());
    assert_eq!(items.len(), 0);
    let items = plugin_field_completions(&schema, &ConfigLevel::Field { model: "User".to_string(), field: "name".to_string() }, &Vec::new());
    assert_eq!(items.len(), 0);
}

fn user_model_tree(text: &str) -> SyntaxNode {
    let s = Src { text };
    s.root(vec![s.model("User", 0, 0, vec![s.field("name", 0, Some("string"))])])
}

#[test]
fn test_find_node_at_offset_basic() {
    let text = "User {\n  name: string #1\n} #10";
    let root = user_model_tree(text);
    assert!(find_node_at_offset(&root, 0).is_some());
    assert!(find_node_at_offset(&root, 10).is_some());
    assert!(find_node_at_offset(&root, text.len()).is_some());
}

#[test]
fn test_find_node_at_offset_out_of_bounds() {
    let text = "User {\n  name: string #1\n} #10";
    let root = user_model_tree(text);
    assert!(find_node_at_offset(&root, text.len() + 100).is_none());
}

#[test]
fn test_find_node_at_offset_empty_text() {
    let s = Src { text: "" };
    let root = s.root(vec![]);
    assert!(find_node_at_offset(&root, 0).is_some());
}

#[test]
fn test_is_at_top_level_outside_braces() {
    let text = "Email: string #1\n\nUser {\n  name: string\n}";
    let s = Src { text };
    let root = s.root(vec![
        s.alias("Email", 0, "string", "type_identifier"),
        s.model("User", 0, 0, vec![s.field("name", 0, Some("string"))]),
    ]);
    let path = find_node_at_offset(&root, 0).unwrap();
    let mut node = &root;
    for &i in &path {
        node = &node.children[i];
    }
    assert!(is_at_top_level(node, text));
}

#[test]
fn test_is_at_top_level_inside_braces() {
    let text = "User {\n  name: string\n}";
    let s = Src { text };
    let root = s.root(vec![s.model("User", 0, 0, vec![s.field("name", 0, Some("string"))])]);
    let path = find_node_at_offset(&root, 10).unwrap();
    let mut node = &root;
    for &i in &path {
        node = &node.children[i];
    }
    assert!(!is_at_top_level(node, text));
}

#[test]
fn test_is_after_colon_with_various_whitespace() {
    assert!(is_after_colon("name:", 5));
    assert!(is_after_colon("name: ", 6));
    assert!(is_after_colon("name:   ", 8));
    assert!(is_after_colon("name:\t", 6));
    assert!(!is_after_colon("name ", 5));
    assert!(!is_after_colon("", 0));
}

#[test]
fn test_is_after_colon_nested_context() {
    let text = "@sql { dialect: ";
    assert!(is_after_colon(text, text.len()));
    let text2 = "User {\n  email: ";
    assert!(is_after_colon(text2, text2.len()));
}

#[test]
fn test_completion_context_debug_impl() {
    let ctx = CompletionContext::TypeExpression;
    assert!(format!("{:?}", ctx).contains("TypeExpression"));
    let ctx2 = CompletionContext::PluginConfigField { plugin_name: "sql".to_string(), config_level: ConfigLevel::Global };
    let debug_str2 = format!("{:?}", ctx2);
    assert!(debug_str2.contains("PluginConfigField"));
    assert!(debug_str2.contains("sql"));
}

#[test]
fn test_completion_context_equality() {
    let ctx1 = CompletionContext::TypeExpression;
    let ctx2 = CompletionContext::TypeExpression;
    assert_eq!(ctx1, ctx2);
    let ctx3 = CompletionContext::ExtendsClause;
    assert_ne!(ctx1, ctx3);
}

#[test]
fn test_completion_context_clone() {
    let ctx = CompletionContext::PluginConfigValue {
        plugin_name: "sql".to_string(),
        config_level: ConfigLevel::Global,
        field_name: "dialect".to_string(),
    };
    let cloned = ctx.clone();
    assert_eq!(ctx, cloned);
}

#[test]
fn test_extract_type_alias_completion_simple() {
    let text = "Email: string #1";
    let s = Src { text };
    let root = s.root(vec![s.alias("Email", 0, "string", "type_identifier")]);
    let alias = root.children.iter().find(|n| n.kind == "type_alias").unwrap();
    let item = extract_type_alias_completion(alias).unwrap();
    assert_eq!(item.label, "Email");
    assert_eq!(item.kind, Some(CompletionItemKind::TypeParameter));
    assert_eq!(item.detail, Some("Type alias: string".to_string()));
}

#[test]
fn test_extract_type_alias_completion_union() {
    let text = "Status: \"active\" | \"inactive\" #1";
    let s = Src { text };
    let root = s.root(vec![s.alias("Status", 0, "\"active\" | \"inactive\"", "union_type")]);
    let alias = root.children.iter().find(|n| n.kind == "type_alias").unwrap();
    let item = extract_type_alias_completion(alias);
    assert!(item.is_some());
    assert_eq!(item.unwrap().label, "Status");
}

#[test]
fn test_extract_model_completion_basic() {
    let text = "User {\n  name: string #1\n  email: string #2\n} #10";
    let s = Src { text };
    let root = s.root(vec![s.model("User", 0, 0, vec![s.field("name", 0, Some("string")), s.field("email", 0, Some("string"))])]);
    let model = root.children.iter().find(|n| n.kind == "model_definition").unwrap();
    let item = extract_model_completion(model).unwrap();
    assert_eq!(item.label, "User");
    assert_eq!(item.kind, Some(CompletionItemKind::Class));
    assert!(item.detail.unwrap().contains("2 field"));
}

#[test]
fn test_extract_model_completion_empty_body() {
    let text = "EmptyModel {\n} #10";
    let s = Src { text };
    let root = s.root(vec![s.model("EmptyModel", 0, 0, vec![])]);
    let model = root.children.iter().find(|n| n.kind == "model_definition").unwrap();
    let item = extract_model_completion(model).unwrap();
    assert_eq!(item.label, "EmptyModel");
    assert!(item.detail.unwrap().contains("0 field"));
}

#[test]
fn test_extract_model_completion_with_extends() {
    let text = "Admin extends User {\n  role: string #1\n} #20";
    let s = Src { text };
    let root = s.root(vec![s.model("Admin", 0, 0, vec![s.field("role", 0, Some("string"))])]);
    let model = root.children.iter().find(|n| n.kind == "model_definition").unwrap();
    let item = extract_model_completion(model);
    assert!(item.is_some());
    assert_eq!(item.unwrap().label, "Admin");
}

#[test]
fn test_format_field_detail_required() {
    let field = settings("dialect", "string", false, None, &[], false);
    assert_eq!(format_field_detail(&field), "dialect: string");
}

#[test]
fn test_format_field_detail_optional() {
    let field = settings("schema", "string", true, None, &[], false);
    assert_eq!(format_field_detail(&field), "schema?: string");
}

#[test]
fn test_format_field_documentation_required() {
    let field = settings("dialect", "string", false, None, &[], false);
    let doc = format_field_documentation(&field);
    assert!(doc.contains("**Type:** `string`"));
    assert!(doc.contains("*Required*"));
    assert!(!doc.contains("*Optional*"));
}

#[test]
fn test_format_field_documentation_with_default() {
    let field = settings("infer_not_null", "boolean", false, Some(&json(serde_json::Value::from(true))), &[], true);
    let doc = format_field_documentation(&field);
    assert!(doc.contains("**Default:** `true`"));
}

#[test]
fn test_format_field_insert_text() {
    let field = settings("table_name", "string", true, None, &[], false);
    assert_eq!(format_field_insert_text(&field), "table_name: $1");
}

#[test]
fn test_compute_completions_empty_document() {
    let s = Src { text: "" };
    let root = s.root(vec![]);
    let completions = compute_completions(&root, "", Position { line: 0, character: 0 }, None);
    if let Some(items) = completions {
        assert!(items.iter().any(|i| i.label == "model" || i.label == "string"));
    }
}

#[test]
fn test_compute_completions_whitespace_only() {
    let text = "   \n\n   ";
    let s = Src { text };
    let root = s.root(vec![]);
    let completions = compute_completions(&root, text, Position { line: 1, character: 0 }, None);
    if let Some(items) = completions {
        assert!(items.iter().any(|i| i.label == "model" || i.label == "type" || i.label == "string"));
    }
}

#[test]
fn test_compute_completions_comment_only() {
    let text = "// This is a comment\n";
    let s = Src { text };
    let root = s.root(vec![s.leaf("comment", None, "// This is a comment", 0)]);
    let completions = compute_completions(&root, text, Position { line: 1, character: 0 }, None);
    if let Some(items) = completions {
        assert!(items.len() > 0);
    }
}

#[test]
fn test_compute_completions_extends_clause() {
    let text = "\nBaseModel {\n  id: number #1\n} #10\n\nChild extends BaseModel {\n  name: string #1\n} #20\n";
    let s = Src { text };
    let root = s.root(vec![
        s.model("BaseModel", 0, 0, vec![s.field("id", 0, Some("number"))]),
        s.model("Child", 0, 1, vec![s.field("name", 0, Some("string"))]),
    ]);
    let completions = compute_completions(&root, text, Position { line: 6, character: 8 }, None);
    if let Some(items) = completions {
        assert!(items.len() > 0);
    }
}

#[test]
fn test_compute_completions_multiple_models() {
    let text = "\nUser {\n  name: string #1\n} #10\n\nPost {\n  title: string #1\n  author:\n} #20\n";
    let s = Src { text };
    let root = s.root(vec![
        s.model("User", 0, 0, vec![s.field("name", 0, Some("string"))]),
        s.model("Post", 0, 1, vec![s.field("title", 0, Some("string")), s.field("author", 0, None)]),
    ]);
    let items = compute_completions(&root, text, Position { line: 7, character: 10 }, None).unwrap();
    assert!(has(&items, "User"));
    assert!(has(&items, "Post"));
    assert!(has(&items, "string"));
}

#[test]
fn test_compute_completions_array_type_position() {
    let text = "\nUser {\n  tags:\n} #10\n";
    let s = Src { text };
    let root = s.root(vec![s.model("User", 0, 0, vec![s.field("tags", 0, None)])]);
    let items = compute_completions(&root, text, Position { line: 2, character: 8 }, None).unwrap();
    assert!(has(&items, "string"));
}

#[test]
fn test_plugin_name_completions_multiple_plugins() {
    let text = "\n@sql { dialect: \"postgres\" }\n@typescript { output_dir: \"./types\" }\n\nUser {\n  name: string #1\n} #10\n";
    let s = Src { text };
    let root = s.root(vec![
        s.plugin("sql", 0, vec![s.entry("dialect", 0, "\"postgres\"")]),
        s.plugin("typescript", 1, vec![s.entry("output_dir", 0, "\"./types\"")]),
        s.model("User", 0, 2, vec![s.field("name", 0, Some("string"))]),
    ]);
    // the names come from `plugin_directive` nodes, which the grammar does not produce
    let items = plugin_name_completions(&root);
    assert!(items.is_empty());
}

#[test]
fn test_plugin_name_completions_no_plugins() {
    let text = "\nUser {\n  name: string #1\n} #10\n";
    let s = Src { text };
    let root = s.root(vec![s.model("User", 0, 0, vec![s.field("name", 0, Some("string"))])]);
    assert_eq!(plugin_name_completions(&root).len(), 0);
}

#[test]
fn test_extract_already_defined_fields_empty() {
    let text = "@sql { }";
    let s = Src { text };
    let root = s.root(vec![s.plugin("sql", 0, vec![])]);
    let path = find_node_at_offset(&root, 7).unwrap();
    assert!(extract_already_defined_fields(&root, &path).is_empty());
}

#[test]
fn test_extract_already_defined_fields_with_entries() {
    let text = "@sql { dialect: \"postgres\", schema: \"public\" }";
    let s = Src { text };
    let root = s.root(vec![s.plugin("sql", 0, vec![s.entry("dialect", 0, "\"postgres\""), s.entry("schema", 0, "\"public\"")])]);
    let path = find_node_at_offset(&root, 44).unwrap();
    assert_eq!(extract_already_defined_fields(&root, &path), vec!["dialect".to_string(), "schema".to_string()]);
}

#[test]
fn test_builtin_type_completions_have_correct_details() {
    let items = builtin_type_completions();
    let string_item = items.iter().find(|i| i.label == "string").unwrap();
    assert_eq!(string_item.kind, Some(CompletionItemKind::Keyword));
    assert!(string_item.detail.as_ref().unwrap().contains("string"));
    let number_item = items.iter().find(|i| i.label == "number").unwrap();
    assert!(number_item.documentation.is_some());
    let boolean_item = items.iter().find(|i| i.label == "boolean").unwrap();
    assert!(boolean_item.detail.as_ref().unwrap().contains("boolean"));
    let json_item = items.iter().find(|i| i.label == "JSON").unwrap();
    assert!(json_item.documentation.is_some());
}

#[test]
fn test_snippet_completions_have_insert_text() {
    let items = snippet_completions();
    let model_snippet = items.iter().find(|i| i.label == "model").unwrap();
    assert!(model_snippet.insert_text.is_some());
    assert_eq!(model_snippet.insert_text_format, Some(InsertTextFormat::Snippet));
    assert!(model_snippet.insert_text.as_ref().unwrap().contains("${"));
    let type_snippet = items.iter().find(|i| i.label == "type").unwrap();
    assert!(type_snippet.insert_text.is_some());
    assert!(type_snippet.insert_text.as_ref().unwrap().contains(":"));
    let extends_snippet = items.iter().find(|i| i.label == "extends").unwrap();
    assert_eq!(extends_snippet.kind, Some(CompletionItemKind::Keyword));
}

#[test]
fn test_completions_in_complex_document() {
    let text = "\n// Authentication models\n@sql { dialect: \"postgres\" }\n@typescript { output_dir: \"./generated\" }\n\nEmail: string #1\nUUID: string #2\nStatus: \"active\" | \"inactive\" #3\n\nBaseModel {\n  id: UUID #1\n  created_at: string #2\n} #100\n\nUser extends BaseModel {\n  email: Email #10\n  status:\n  name: string #12\n} #200\n\nPost {\n  title: string #1\n  author: User #2\n} #300\n";
    let s = Src { text };
    let root = s.root(vec![
        s.leaf("comment", None, "// Authentication models", 0),
        s.plugin("sql", 0, vec![s.entry("dialect", 0, "\"postgres\"")]),
        s.plugin("typescript", 1, vec![s.entry("output_dir", 0, "\"./generated\"")]),
        s.alias("Email", 0, "string", "type_identifier"),
        s.alias("UUID", 0, "string", "type_identifier"),
        s.alias("Status", 0, "\"active\" | \"inactive\"", "union_type"),
        s.model("BaseModel", 0, 2, vec![s.field("id", 0, Some("UUID")), s.field("created_at", 0, Some("string"))]),
        s.model("User", 0, 3, vec![s.field("email", 0, Some("Email")), s.field("status", 0, None), s.field("name", 0, Some("string"))]),
        s.model("Post", 0, 4, vec![s.field("title", 0, Some("string")), s.field("author", 0, Some("User"))]),
    ]);
    let items = compute_completions(&root, text, Position { line: 16, character: 10 }, None).unwrap();
    for label in ["Email", "UUID", "Status", "User", "Post", "BaseModel", "string", "number"] {
        assert!(has(&items, label), "missing {}", label);
    }
}

#[test]
fn test_completions_no_duplicate_suggestions() {
    let text = "\nUser {\n  name: string #1\n} #10\n\nAdmin extends User {\n  role:\n} #20\n";
    let s = Src { text };
    let root = s.root(vec![
        s.model("User", 0, 0, vec![s.field("name", 0, Some("string"))]),
        s.model("Admin", 0, 1, vec![s.field("role", 0, None)]),
    ]);
    let items = compute_completions(&root, text, Position { line: 6, character: 8 }, None).unwrap();
    assert_eq!(items.iter().filter(|i| i.label == "string").count(), 1);
    assert_eq!(items.iter().filter(|i| i.label == "User").count(), 1);
}

#[test]
fn plugin_config_field_completions_use_the_given_schema() {
    let text = "@sql {\n  dialect: \"postgres\", \n}\n";
    let root = sql_dialect_tree(text);
    let schema = schema_with(vec![
        settings("dialect", "string", false, None, &[], false),
        settings("schema", "string", true, None, &[], false),
    ], true, false);
    let items = compute_completions(&root, text, Position { line: 1, character: 23 }, Some(&schema)).unwrap();
    assert_eq!(labels(&items), vec!["version".to_string(), "build_output".to_string(), "schema".to_string()]);
    let doc = match &items[2].documentation {
        Some(cdm::completion_items::Documentation::Markdown(d)) => d.clone(),
        _ => panic!("markdown expected"),
    };
    assert_eq!(doc, "**Type:** `string`\n\n*Optional*\n\n");
}

#[test]
fn plugin_value_completions_quote_literals() {
    let schema = schema_with(vec![settings("dialect", "x", false, None, &["postgresql"], false)], false, false);
    let items = plugin_value_completions(&schema, &ConfigLevel::Global, "dialect");
    assert_eq!(items[0].label, "\"postgresql\"");
    assert_eq!(items[0].insert_text, Some("\"postgresql\"".to_string()));
    assert_eq!(items[0].detail, Some("Value for dialect".to_string()));
    assert!(plugin_value_completions(&schema, &ConfigLevel::Global, "unknown").is_empty());
}
