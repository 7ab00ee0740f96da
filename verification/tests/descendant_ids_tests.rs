use cdm::dependency_graph::{DependencyGraph, ResolvedExtends};
use cdm::descendant_ids::{collect_ids_from_trees, DescendantIds, ModelFieldIds};
use cdm::syntax::SyntaxNode;

/// Builds syntax trees over a source text; rows and columns come from byte offsets.
struct Src<'a> {
    text: &'a str,
}

impl<'a> Src<'a> {
    fn pos(&self, b: usize) -> (usize, usize) {
        let before = &self.text[..b];
        let row = before.matches('\n').count();
        let col = b - before.rfind('\n').map(|i| i + 1).unwrap_or(0);
        (row, col)
    }

    /// The byte offset of the `nth` occurrence of `needle`.
    fn at(&self, needle: &str, nth: usize) -> usize {
        self.text.match_indices(needle).nth(nth).unwrap_or_else(|| panic!("no {:?} #{}", needle, nth)).0
    }

    /// The offset just past the brace that closes the one at `open`.
    fn close(&self, open: usize) -> usize {
        let mut depth = 0usize;
        for (i, c) in self.text[open..].char_indices() {
            if c == '{' {
                depth += 1;
            } else if c == '}' {
                depth -= 1;
                if depth == 0 {
                    return open + i + 1;
                }
            }
        }
        panic!("unbalanced braces")
    }

    fn node(&self, kind: &str, field: Option<&str>, start: usize, end: usize, children: Vec<SyntaxNode>) -> SyntaxNode {
        let (sr, sc) = self.pos(start);
        let (er, ec) = self.pos(end);
        let named = kind.chars().next().map(|c| c.is_alphabetic() || c == '_').unwrap_or(false);
        SyntaxNode {
            kind: kind.to_string(),
            field_name: field.map(|f| f.to_string()),
            text: self.text[start..end].to_string(),
            start_byte: start,
            end_byte: end,
            start_row: sr,
            start_column: sc,
            end_row: er,
            end_column: ec,
            is_missing: false,
            is_named: named,
            children,
        }
    }

    /// A leaf over the `nth` occurrence of `needle`.
    fn leaf(&self, kind: &str, field: Option<&str>, needle: &str, nth: usize) -> SyntaxNode {
        let s = self.at(needle, nth);
        self.node(kind, field, s, s + needle.len(), vec![])
    }

    /// A node over the braces opened by the `nth` `{`.
    fn braces(&self, kind: &str, field: Option<&str>, nth: usize, children: Vec<SyntaxNode>) -> SyntaxNode {
        let s = self.at("{", nth);
        let e = self.close(s);
        self.node(kind, field, s, e, children)
    }

    fn root(&self, children: Vec<SyntaxNode>) -> SyntaxNode {
        self.node("source_file", None, 0, self.text.len(), children)
    }
}

impl<'a> Src<'a> {
    /// `#<n>` after the `nth` occurrence of `after`.
    fn id_after(&self, after: &str, nth: usize) -> SyntaxNode {
        let s = self.at(after, nth);
        let h = s + self.text[s..].find('#').unwrap();
        let mut e = h + 1;
        while e < self.text.len() && self.text.as_bytes()[e].is_ascii_digit() {
            e += 1;
        }
        self.node("entity_id", Some("id"), h, e, vec![])
    }

    fn field(&self, name: &str, with_id: bool) -> SyntaxNode {
        let s = self.at(&format!("  {}:", name), 0) + 2;
        let line_end = s + self.text[s..].find('\n').unwrap();
        let mut children = vec![self.node("identifier", Some("name"), s, s + name.len(), vec![])];
        if with_id {
            children.push(self.id_after(name, 0));
        }
        self.node("field_definition", None, s, line_end, children)
    }

    fn model(&self, name: &str, brace: usize, fields: Vec<SyntaxNode>, with_id: bool) -> SyntaxNode {
        let s = self.at(name, 0);
        let body = self.braces("model_body", Some("body"), brace, fields);
        let mut end = body.end_byte;
        let mut children = vec![self.node("identifier", Some("name"), s, s + name.len(), vec![])];
        if with_id {
            let id = self.id_after("}", brace);
            end = id.end_byte;
            children.push(id);
        }
        children.push(body);
        self.node("model_definition", None, s, end, children)
    }

    fn alias(&self, name: &str) -> SyntaxNode {
        let s = self.at(name, 0);
        let id = self.id_after(name, 0);
        let end = id.end_byte;
        self.node("type_alias", None, s, end, vec![self.node("identifier", Some("name"), s, s + name.len(), vec![]), id])
    }
}

const BASE: &str = "/proj/base.cdm";
const CHILD: &str = "/proj/src/child.cdm";
const GRANDCHILD: &str = "/proj/src/grandchild.cdm";

const BASE_TEXT: &str = "User {\n  id: Int\n  name: String\n}\n";
const CHILD_TEXT: &str = "extends \"../base.cdm\"\n\nAdmin extends User {\n  role: String #1\n  permissions: String[] #2\n} #5\n\nEmailAddress: String #7\n";
const GRANDCHILD_TEXT: &str = "extends \"./child.cdm\"\n\nSuperAdmin extends Admin {\n  superPower: String #1\n} #10\n";

/// The parsed tree of each file of the test project.
fn tree_of(file: &str) -> SyntaxNode {
    match file {
        BASE => {
            let s = Src { text: BASE_TEXT };
            s.root(vec![s.model("User", 0, vec![s.field("id", false), s.field("name", false)], false)])
        },
        CHILD => {
            let s = Src { text: CHILD_TEXT };
            s.root(vec![
                s.model("Admin", 0, vec![s.field("role", true), s.field("permissions", true)], true),
                s.alias("EmailAddress"),
            ])
        },
        GRANDCHILD => {
            let s = Src { text: GRANDCHILD_TEXT };
            s.root(vec![s.model("SuperAdmin", 0, vec![s.field("superPower", true)], true)])
        },
        other => panic!("no file {}", other),
    }
}

fn graph() -> (Vec<String>, DependencyGraph) {
    let files: Vec<String> = vec![BASE.to_string(), CHILD.to_string(), GRANDCHILD.to_string()];
    let target = |w: &str, c: &str| ResolvedExtends { written: w.to_string(), canonical: Some(c.to_string()) };
    let extends = vec![vec![], vec![target("../base.cdm", BASE)], vec![target("./child.cdm", CHILD)]];
    (files.clone(), DependencyGraph::build(&files, &extends).unwrap())
}

/// The IDs used by the files that extend `file`, directly or not.
fn collect_descendant_ids(graph: &DependencyGraph, file: &String) -> DescendantIds {
    let trees: Vec<SyntaxNode> = graph.get_all_dependents(file).iter().map(|f| tree_of(f)).collect();
    collect_ids_from_trees(&trees)
}

#[test]
fn test_collect_global_ids_from_descendants() {
    let (files, graph) = graph();
    let ids = collect_descendant_ids(&graph, &files[0]);
    assert!(ids.has_global_id(5));
    assert!(ids.has_global_id(7));
    assert!(ids.has_global_id(10));
    assert!(!ids.has_global_id(1));
    assert!(!ids.has_global_id(99));
}

#[test]
fn test_collect_field_ids_from_descendants() {
    let (files, graph) = graph();
    let ids = collect_descendant_ids(&graph, &files[0]);
    assert!(ids.has_field_id("Admin", 1));
    assert!(ids.has_field_id("Admin", 2));
    assert!(ids.has_field_id("SuperAdmin", 1));
    assert!(!ids.has_field_id("Admin", 3));
}

#[test]
fn test_collect_ids_from_child_only() {
    let (files, graph) = graph();
    let ids = collect_descendant_ids(&graph, &files[1]);
    assert!(ids.has_global_id(10));
    assert!(!ids.has_global_id(5));
    assert!(!ids.has_global_id(7));
}

#[test]
fn test_collect_ids_no_descendants() {
    let (files, graph) = graph();
    let ids = collect_descendant_ids(&graph, &files[2]);
    assert!(ids.global_ids.is_empty());
    assert!(ids.model_field_ids.is_empty());
}

#[test]
fn test_descendant_ids_api() {
    let mut ids = DescendantIds::new();
    ids.global_ids.push(5);
    ids.global_ids.push(10);
    ids.model_field_ids.push(ModelFieldIds { model: "User".to_string(), ids: vec![1, 2] });
    assert_eq!(ids.global_ids().len(), 2);
    assert!(ids.global_ids().contains(&5));
    let user_fields = ids.field_ids_for_model("User").unwrap();
    assert_eq!(user_fields.len(), 2);
    assert!(user_fields.contains(&1));
    assert!(ids.field_ids_for_model("NonExistent").is_none());
}
