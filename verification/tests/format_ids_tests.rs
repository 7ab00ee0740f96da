use cdm::format::{assign_missing_ids, collect_entity_ids, EntityIdTracker};
use cdm::format_insert::reconstruct_source;
use cdm::syntax::{extract_entity_id, SyntaxNode};

/// Builds syntax trees over a source text; rows and columns come from byte offsets.
struct Src<'a> {
    text: &'a str,
}

impl<'a> Src<'a> {
    fn pos(&self, b: usize) -> (usize, usize) {
        let before = &self.text[..b];
        let row = before.matches('\n').count();
        let col = b - before.rfind('\n').map(|i| i + 1).unwrap_or(0);
        (row, col)
    }

    /// The byte offset of the `nth` occurrence of `needle`.
    fn at(&self, needle: &str, nth: usize) -> usize {
        self.text.match_indices(needle).nth(nth).unwrap_or_else(|| panic!("no {:?} #{}", needle, nth)).0
    }

    /// The offset just past the brace that closes the one at `open`.
    fn close(&self, open: usize) -> usize {
        let mut depth = 0usize;
        for (i, c) in self.text[open..].char_indices() {
            if c == '{' {
                depth += 1;
            } else if c == '}' {
                depth -= 1;
                if depth == 0 {
                    return open + i + 1;
                }
            }
        }
        panic!("unbalanced braces")
    }

    fn node(&self, kind: &str, field: Option<&str>, start: usize, end: usize, children: Vec<SyntaxNode>) -> SyntaxNode {
        let (sr, sc) = self.pos(start);
        let (er, ec) = self.pos(end);
        let named = kind.chars().next().map(|c| c.is_alphabetic() || c == '_').unwrap_or(false);
        SyntaxNode {
            kind: kind.to_string(),
            field_name: field.map(|f| f.to_string()),
            text: self.text[start..end].to_string(),
            start_byte: start,
            end_byte: end,
            start_row: sr,
            start_column: sc,
            end_row: er,
            end_column: ec,
            is_missing: false,
            is_named: named,
            children,
        }
    }

    /// A leaf over the `nth` occurrence of `needle`.
    fn leaf(&self, kind: &str, field: Option<&str>, needle: &str, nth: usize) -> SyntaxNode {
        let s = self.at(needle, nth);
        self.node(kind, field, s, s + needle.len(), vec![])
    }

    /// A node over the braces opened by the `nth` `{`.
    fn braces(&self, kind: &str, field: Option<&str>, nth: usize, children: Vec<SyntaxNode>) -> SyntaxNode {
        let s = self.at("{", nth);
        let e = self.close(s);
        self.node(kind, field, s, e, children)
    }

    fn root(&self, children: Vec<SyntaxNode>) -> SyntaxNode {
        self.node("source_file", None, 0, self.text.len(), children)
    }
}

/// `Email: string` with the given ID suffix (empty for none).
fn email_alias(src: &Src, with_id: bool) -> SyntaxNode {
    let mut children = vec![
        src.leaf("identifier", Some("name"), "Email", 0),
        src.leaf(":", None, ":", 0),
        src.leaf("type_identifier", Some("type"), "string", 0),
    ];
    if with_id {
        children.push(src.leaf("entity_id", Some("id"), "#42", 0));
    }
    src.node("type_alias", None, 0, src.text.len(), children)
}

#[test]
fn test_extract_entity_id() {
    let source = "Email: string #42";
    let src = Src { text: source };
    let root = src.root(vec![email_alias(&src, true)]);

    let type_alias = &root.children[0];
    assert_eq!(type_alias.kind, "type_alias");

    let id = extract_entity_id(type_alias);
    assert_eq!(id, Some(42));
}

#[test]
fn test_extract_entity_id_none() {
    let source = "Email: string";
    let src = Src { text: source };
    let root = src.root(vec![email_alias(&src, false)]);

    let type_alias = &root.children[0];
    let id = extract_entity_id(type_alias);
    assert_eq!(id, None);
}

#[test]
fn test_field_insertion_with_trailing_whitespace() {
    let source = "User {\n  id: string   \n}";
    let src = Src { text: source };
    let field = src.node("field_definition", None, src.at("id", 0), src.at("string", 0) + 6, vec![
        src.leaf("identifier", Some("name"), "id", 0),
        src.leaf(":", None, ":", 0),
        src.leaf("type_identifier", Some("type"), "string", 0),
    ]);
    let body = src.braces("model_body", Some("body"), 0, vec![
        src.leaf("{", None, "{", 0),
        field,
        src.leaf("}", None, "}", 0),
    ]);
    let model = src.node("model_definition", None, 0, source.len(), vec![
        src.leaf("identifier", Some("name"), "User", 0),
        body,
    ]);
    let root = src.root(vec![model]);

    let mut tracker = EntityIdTracker::new();
    let assignments = assign_missing_ids(&root, &mut tracker);

    // Should assign IDs to User model and User.id field
    assert_eq!(assignments.len(), 2);

    let new_source = reconstruct_source(&root, source, &assignments);

    // ID should be inserted before trailing whitespace for field
    assert!(new_source.contains("id: string #1"));
    // Model ID should be after the closing brace
    assert!(new_source.contains("} #1"));
}

#[test]
fn test_collect_entity_ids_with_all_types() {
    let source = r#"
Email: string #10

User {
  id: string #1
  email: Email #2
} #20

Post {
  title: string #1
} #21
"#;
    let src = Src { text: source };
    let alias = src.node("type_alias", None, src.at("Email", 0), src.at("#10", 0) + 3, vec![
        src.leaf("identifier", Some("name"), "Email", 0),
        src.leaf("type_identifier", Some("type"), "string", 0),
        src.leaf("entity_id", Some("id"), "#10", 0),
    ]);
    let field = |name: &str, ty: &str, nth_ty: usize, id: &str, nth_id: usize| {
        let start = src.at(&format!("{}:", name), 0);
        let id_at = src.at(&format!("{}\n", id), nth_id);
        src.node("field_definition", None, start, id_at + id.len(), vec![
            src.node("identifier", Some("name"), start, start + name.len(), vec![]),
            src.leaf("type_identifier", Some("type"), ty, nth_ty),
            src.node("entity_id", Some("id"), id_at, id_at + id.len(), vec![]),
        ])
    };
    let user_body = src.braces("model_body", Some("body"), 0, vec![
        field("id", "string", 1, "#1", 0),
        field("email", "Email", 1, "#2", 0),
    ]);
    let user = src.node("model_definition", None, src.at("User", 0), src.at("#20", 0) + 3, vec![
        src.leaf("identifier", Some("name"), "User", 0),
        user_body,
        src.leaf("entity_id", Some("id"), "#20", 0),
    ]);
    let post_body = src.braces("model_body", Some("body"), 1, vec![
        field("title", "string", 2, "#1", 1),
    ]);
    let post = src.node("model_definition", None, src.at("Post", 0), src.at("#21", 0) + 3, vec![
        src.leaf("identifier", Some("name"), "Post", 0),
        post_body,
        src.leaf("entity_id", Some("id"), "#21", 0),
    ]);
    let root = src.root(vec![alias, user, post]);

    let mut tracker = EntityIdTracker::new();
    collect_entity_ids(&root, &mut tracker);

    // Should have collected global IDs 10, 20, 21
    assert!(tracker.uses_global_id(10));
    assert!(tracker.uses_global_id(20));
    assert!(tracker.uses_global_id(21));

    // Should have collected User field IDs 1, 2
    assert!(tracker.uses_field_id("User", 1));
    assert!(tracker.uses_field_id("User", 2));

    // Should have collected Post field ID 1
    assert!(tracker.uses_field_id("Post", 1));

    // Next global ID should be 22
    assert_eq!(tracker.peek_next_global_id(), 22);

    // Next field IDs should be 3 for User, 2 for Post
    assert_eq!(tracker.peek_next_field_id("User"), Some(3));
    assert_eq!(tracker.peek_next_field_id("Post"), Some(2));
}
