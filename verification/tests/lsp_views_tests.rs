use cdm::folding::{compute_folding_ranges, FoldingRangeKind};
use cdm::semantic_tokens::{
    compute_semantic_tokens, is_builtin_type, SemanticToken, MODIFIER_DEFINITION, TOKEN_COMMENT, TOKEN_ENUM_MEMBER,
    TOKEN_KEYWORD, TOKEN_PARAMETER, TOKEN_TYPE,
};
use cdm::syntax::SyntaxNode;

/// Builds syntax trees over a source text; rows and columns come from byte offsets.
struct Src<'a> {
    text: &'a str,
}

impl<'a> Src<'a> {
    fn pos(&self, b: usize) -> (usize, usize) {
        let before = &self.text[..b];
        let row = before.matches('\n').count();
        let col = b - before.rfind('\n').map(|i| i + 1).unwrap_or(0);
        (row, col)
    }

    /// The byte offset of the `nth` occurrence of `needle`.
    fn at(&self, needle: &str, nth: usize) -> usize {
        self.text.match_indices(needle).nth(nth).unwrap_or_else(|| panic!("no {:?} #{}", needle, nth)).0
    }

    /// The offset just past the brace that closes the one at `open`.
    fn close(&self, open: usize) -> usize {
        let mut depth = 0usize;
        for (i, c) in self.text[open..].char_indices() {
            if c == '{' {
                depth += 1;
            } else if c == '}' {
                depth -= 1;
                if depth == 0 {
                    return open + i + 1;
                }
            }
        }
        panic!("unbalanced braces")
    }

    fn node(&self, kind: &str, field: Option<&str>, start: usize, end: usize, children: Vec<SyntaxNode>) -> SyntaxNode {
        let (sr, sc) = self.pos(start);
        let (er, ec) = self.pos(end);
        let named = kind.chars().next().map(|c| c.is_alphabetic() || c == '_').unwrap_or(false);
        SyntaxNode {
            kind: kind.to_string(),
            field_name: field.map(|f| f.to_string()),
            text: self.text[start..end].to_string(),
            start_byte: start,
            end_byte: end,
            start_row: sr,
            start_column: sc,
            end_row: er,
            end_column: ec,
            is_missing: false,
            is_named: named,
            children,
        }
    }

    /// A leaf over the `nth` occurrence of `needle`.
    fn leaf(&self, kind: &str, field: Option<&str>, needle: &str, nth: usize) -> SyntaxNode {
        let s = self.at(needle, nth);
        self.node(kind, field, s, s + needle.len(), vec![])
    }

    /// A node over the braces opened by the `nth` `{`.
    fn braces(&self, kind: &str, field: Option<&str>, nth: usize, children: Vec<SyntaxNode>) -> SyntaxNode {
        let s = self.at("{", nth);
        let e = self.close(s);
        self.node(kind, field, s, e, children)
    }

    fn root(&self, children: Vec<SyntaxNode>) -> SyntaxNode {
        self.node("source_file", None, 0, self.text.len(), children)
    }
}

impl<'a> Src<'a> {
    fn ident(&self, field: Option<&str>, name: &str, nth: usize) -> SyntaxNode {
        self.leaf("identifier", field, name, nth)
    }

    fn entity_id(&self, id: &str, nth: usize) -> SyntaxNode {
        self.leaf("entity_id", Some("id"), id, nth)
    }

    /// A field `name: ty #id` (the `nth` line holding `name:`).
    fn field(&self, name: &str, nth: usize, ty: &str, id: &str) -> SyntaxNode {
        let s = self.at(&format!("{}:", name), nth);
        let t = s + self.text[s..].find(ty).unwrap();
        let h = s + self.text[s..].find(id).unwrap();
        self.node("field_definition", None, s, h + id.len(), vec![
            self.node("identifier", Some("name"), s, s + name.len(), vec![]),
            self.node(":", None, s + name.len(), s + name.len() + 1, vec![]),
            self.node("type_identifier", Some("type"), t, t + ty.len(), vec![self.node("identifier", None, t, t + ty.len(), vec![])]),
            self.node("entity_id", Some("id"), h, h + id.len(), vec![]),
        ])
    }

    fn model(&self, name: &str, brace: usize, members: Vec<SyntaxNode>, id: &str) -> SyntaxNode {
        let s = self.at(name, 0);
        let body = self.braces("model_body", Some("body"), brace, members);
        let h = body.end_byte + self.text[body.end_byte..].find(id).unwrap();
        self.node("model_definition", None, s, h + id.len(), vec![
            self.node("identifier", Some("name"), s, s + name.len(), vec![]),
            body,
            self.node("entity_id", Some("id"), h, h + id.len(), vec![]),
        ])
    }

    /// A type alias whose type is a union of string literals.
    fn union_alias(&self, name: &str, literals: &[&str], id: &str) -> SyntaxNode {
        let s = self.at(name, 0);
        let mut members = vec![];
        for (i, l) in literals.iter().enumerate() {
            if i > 0 {
                members.push(self.leaf("|", None, "|", i - 1));
            }
            members.push(self.leaf("string_literal", None, &format!("\"{}\"", l), 0));
        }
        let first = members[0].start_byte;
        let last = members.last().unwrap().end_byte;
        let h = self.at(id, 0);
        self.node("type_alias", None, s, h + id.len(), vec![
            self.node("identifier", Some("name"), s, s + name.len(), vec![]),
            self.node(":", None, s + name.len(), s + name.len() + 1, vec![]),
            self.node("union_type", Some("type"), first, last, members),
            self.node("entity_id", Some("id"), h, h + id.len(), vec![]),
        ])
    }

    /// `Name: type #id` on one line.
    fn alias(&self, name: &str, ty: &str, id: &str) -> SyntaxNode {
        let s = self.at(name, 0);
        let t = s + self.text[s..].find(ty).unwrap();
        let h = s + self.text[s..].find(id).unwrap();
        self.node("type_alias", None, s, h + id.len(), vec![
            self.node("identifier", Some("name"), s, s + name.len(), vec![]),
            self.node(":", None, s + name.len(), s + name.len() + 1, vec![]),
            self.node("type_identifier", Some("type"), t, t + ty.len(), vec![self.node("identifier", None, t, t + ty.len(), vec![])]),
            self.node("entity_id", Some("id"), h, h + id.len(), vec![]),
        ])
    }

    /// `@name { key: "value", ... }` with the object opened by the `brace` `{`.
    fn plugin(&self, name: &str, brace: usize, entries: &[(&str, &str)]) -> SyntaxNode {
        let at = self.at(&format!("@{}", name), 0);
        let mut es = vec![];
        for (k, v) in entries {
            let ks = self.at(&format!("{}:", k), 0);
            let vs = ks + self.text[ks..].find(v).unwrap();
            es.push(self.node("object_entry", None, ks, vs + v.len(), vec![
                self.node("identifier", Some("key"), ks, ks + k.len(), vec![]),
                self.node(":", None, ks + k.len(), ks + k.len() + 1, vec![]),
                self.node("string_literal", Some("value"), vs, vs + v.len(), vec![]),
            ]));
        }
        let obj = self.braces("object_literal", Some("config"), brace, es);
        let end = obj.end_byte;
        self.node("plugin_import", None, at, end, vec![
            self.node("@", None, at, at + 1, vec![]),
            self.node("identifier", Some("name"), at + 1, at + 1 + name.len(), vec![]),
            obj,
        ])
    }
}

fn tokens(root: &SyntaxNode) -> Vec<SemanticToken> {
    compute_semantic_tokens(root)
}

#[test]
fn test_model_folding() {
    let text = "User {\n  name: string #1\n  email: string #2\n  age: number #3\n} #10";
    let s = Src { text };
    let root = s.root(vec![s.model("User", 0, vec![
        s.field("name", 0, "string", "#1"),
        s.field("email", 0, "string", "#2"),
        s.field("age", 0, "number", "#3"),
    ], "#10")]);
    let ranges = compute_folding_ranges(&root, text).unwrap();
    assert_eq!(ranges.len(), 1);
    assert_eq!(ranges[0].start_line, 0);
    assert_eq!(ranges[0].end_line, 4);
    assert_eq!(ranges[0].kind, Some(FoldingRangeKind::Region));
}

#[test]
fn test_nested_folding() {
    let text = "User {\n  name: string {\n@sql { type: \"VARCHAR(255)\" }\n  } #1\n} #10";
    let s = Src { text };
    let sql = {
        let at = s.at("@sql", 0);
        let obj = s.braces("object_literal", None, 2, vec![]);
        let end = obj.end_byte;
        s.node("plugin_config", None, at, end, vec![s.ident(Some("name"), "sql", 0), obj])
    };
    let block = s.braces("plugin_block", None, 1, vec![sql]);
    let field = {
        let st = s.at("name:", 0);
        let end = s.at("#1", 0) + 2;
        s.node("field_definition", None, st, end, vec![s.ident(Some("name"), "name", 0), block])
    };
    let root = s.root(vec![s.model("User", 0, vec![field], "#10")]);
    let ranges = compute_folding_ranges(&root, text).unwrap();
    assert!(ranges.len() >= 2);
}

#[test]
fn test_multiple_models_folding() {
    let text = "User {\n  name: string #1\n} #10\n\nAdmin extends User {\n  level: number #1\n} #11\n\nPost {\n  title: string #1\n  content: string #2\n} #12";
    let s = Src { text };
    let root = s.root(vec![
        s.model("User", 0, vec![s.field("name", 0, "string", "#1")], "#10"),
        s.model("Admin", 1, vec![s.field("level", 0, "number", "#1")], "#11"),
        s.model("Post", 2, vec![s.field("title", 0, "string", "#1"), s.field("content", 0, "string", "#2")], "#12"),
    ]);
    let ranges = compute_folding_ranges(&root, text).unwrap();
    assert_eq!(ranges.len(), 3);
}

#[test]
fn test_single_line_no_folding() {
    let text = "Email: string #1";
    let s = Src { text };
    let root = s.root(vec![s.alias("Email", "string", "#1")]);
    let ranges = compute_folding_ranges(&root, text);
    assert!(ranges.is_none() || ranges.unwrap().is_empty());
}

#[test]
fn test_plugin_config_folding() {
    let text = "@sql {\n  dialect: \"postgres\",\n  schema: \"public\"\n}\n\nUser {\n  name: string #1\n} #10";
    let s = Src { text };
    let root = s.root(vec![
        s.plugin("sql", 0, &[("dialect", "\"postgres\""), ("schema", "\"public\"")]),
        s.model("User", 1, vec![s.field("name", 0, "string", "#1")], "#10"),
    ]);
    let ranges = compute_folding_ranges(&root, text).unwrap();
    assert!(ranges.len() >= 2);
}

#[test]
fn test_semantic_tokens_simple_model() {
    let text = "User {\n  name: string #1\n} #10\n";
    let s = Src { text };
    let root = s.root(vec![s.model("User", 0, vec![s.field("name", 0, "string", "#1")], "#10")]);
    assert!(tokens(&root).len() > 0);
}

#[test]
fn test_semantic_tokens_type_alias() {
    let text = "Email: string #1";
    let s = Src { text };
    let root = s.root(vec![s.alias("Email", "string", "#1")]);
    assert!(tokens(&root).len() > 0);
}

#[test]
fn test_semantic_tokens_union_type() {
    let text = "Status: \"active\" | \"inactive\" #1";
    let s = Src { text };
    let root = s.root(vec![s.union_alias("Status", &["active", "inactive"], "#1")]);
    let toks = tokens(&root);
    assert!(toks.len() > 0);
    assert!(toks.iter().filter(|t| t.token_type == TOKEN_ENUM_MEMBER).count() >= 2);
}

#[test]
fn test_semantic_tokens_plugin_import() {
    let text = "@sql {\n  dialect: \"postgres\"\n}";
    let s = Src { text };
    let root = s.root(vec![s.plugin("sql", 0, &[("dialect", "\"postgres\"")])]);
    assert!(tokens(&root).len() > 0);
}

#[test]
fn test_semantic_tokens_with_comments() {
    let text = "// This is a comment\nUser {\n  name: string #1 // Field comment\n} #10";
    let s = Src { text };
    let model = {
        let mut m = s.model("User", 0, vec![s.field("name", 0, "string", "#1")], "#10");
        // the trailing comment sits in the body after the field
        m.children[1].children.push(s.leaf("comment", None, "// Field comment", 0));
        m
    };
    let root = s.root(vec![s.leaf("comment", None, "// This is a comment", 0), model]);
    let toks = tokens(&root);
    assert!(toks.len() > 0);
    assert!(toks.iter().filter(|t| t.token_type == TOKEN_COMMENT).count() >= 2);
}

#[test]
fn test_semantic_tokens_delta_encoding() {
    let text = "Email: string #1";
    let s = Src { text };
    let root = s.root(vec![s.alias("Email", "string", "#1")]);
    let toks = tokens(&root);
    assert_eq!(toks[0].delta_line, 0);
    assert_eq!(toks[0].delta_start, 0);
    for token in &toks {
        assert!(token.delta_line == 0 || toks.first() == Some(token));
    }
}

#[test]
fn test_builtin_type_detection() {
    assert!(is_builtin_type("string"));
    assert!(is_builtin_type("number"));
    assert!(is_builtin_type("boolean"));
    assert!(is_builtin_type("JSON"));
    assert!(!is_builtin_type("User"));
    assert!(!is_builtin_type("Email"));
}

#[test]
fn test_semantic_tokens_union_type_detailed() {
    let text = "Status: \"active\" | \"inactive\" | \"pending\" #2";
    let s = Src { text };
    let root = s.root(vec![s.union_alias("Status", &["active", "inactive", "pending"], "#2")]);
    let toks = tokens(&root);
    assert!(toks.len() >= 8, "Should have at least 8 tokens, got {}", toks.len());
    assert_eq!(toks.iter().filter(|t| t.token_type == TOKEN_ENUM_MEMBER).count(), 3);
    assert_eq!(toks.iter().filter(|t| t.token_type == TOKEN_TYPE && (t.token_modifiers_bitset & MODIFIER_DEFINITION) != 0).count(), 1);
    assert_eq!(toks.iter().filter(|t| t.token_type == TOKEN_PARAMETER).count(), 1);
}

#[test]
fn test_semantic_tokens_template_import_no_from_keyword() {
    let text = "import pg from ../templates/sql-types/postgres.cdm";
    let s = Src { text };
    // the grammar folds `import` and `from` into the template import itself
    let import = s.node("template_import", None, 0, text.len(), vec![
        s.ident(Some("namespace"), "pg", 0),
        s.node("template_source", Some("source"), 15, text.len(), vec![s.node("local_path", None, 15, text.len(), vec![])]),
    ]);
    let root = s.root(vec![import]);
    let toks = tokens(&root);
    assert_eq!(toks.iter().filter(|t| t.token_type == TOKEN_KEYWORD).count(), 0);
}
