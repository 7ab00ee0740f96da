use cdm::lsp_extras::extract_extends_directives;
use cdm::syntax::SyntaxNode;
use cdm::workspace::{resolve_path_to_uri, Workspace};

fn leaf(kind: &str, field: Option<&str>, text: &str, start: usize) -> SyntaxNode {
    SyntaxNode {
        kind: kind.to_string(),
        field_name: field.map(|f| f.to_string()),
        text: text.to_string(),
        start_byte: start,
        end_byte: start + text.len(),
        start_row: 0,
        start_column: start,
        end_row: 0,
        end_column: start + text.len(),
        is_missing: false,
        is_named: true,
        children: vec![],
    }
}

fn node(kind: &str, field: Option<&str>, text: &str, start: usize, children: Vec<SyntaxNode>) -> SyntaxNode {
    let mut n = leaf(kind, field, text, start);
    n.children = children;
    n
}

/// The tree of an `extends <path>` directive starting at `start`.
fn extends_directive(path: &str, start: usize) -> SyntaxNode {
    let text = format!("extends {}", path);
    node("extends_template", None, &text, start, vec![
        leaf("extends", None, "extends", start),
        node("template_source", Some("source"), path, start + 8, vec![leaf("local_path", None, path, start + 8)]),
    ])
}

fn model(name: &str, start: usize) -> SyntaxNode {
    node("model_definition", None, name, start, vec![leaf("identifier", Some("name"), name, start)])
}

fn source(text: &str, children: Vec<SyntaxNode>) -> SyntaxNode {
    node("source_file", None, text, 0, children)
}

#[test]
fn test_workspace_update_and_dependencies() {
    let mut workspace = Workspace::new();
    let uri1 = "file:///base.cdm";
    let uri2 = "file:///derived.cdm";

    let base_text = "User { name: string #1 } #10";
    workspace.update_document(uri1, base_text, &source(base_text, vec![model("User", 0)]));

    let derived_text = "extends ./base.cdm\n\nAdminUser extends User { role: string #1 } #20";
    let derived = source(derived_text, vec![extends_directive("./base.cdm", 0), model("AdminUser", 20)]);
    workspace.update_document(uri2, derived_text, &derived);

    let deps = workspace.get_dependency_chain(uri2);
    assert_eq!(deps.len(), 1);
    assert_eq!(deps[0], uri1);

    let dependents = workspace.get_all_dependents(uri1);
    assert_eq!(dependents.len(), 1);
    assert!(dependents.contains(&uri2.to_string()));
}

#[test]
fn test_workspace_remove_document() {
    let mut workspace = Workspace::new();
    let uri1 = "file:///base.cdm";
    let uri2 = "file:///derived.cdm";

    workspace.update_document(uri1, "User { } #10", &source("User { } #10", vec![model("User", 0)]));
    let derived_text = "extends ./base.cdm";
    workspace.update_document(uri2, derived_text, &source(derived_text, vec![extends_directive("./base.cdm", 0)]));

    workspace.remove_document(uri2);

    let dependents = workspace.get_all_dependents(uri1);
    assert_eq!(dependents.len(), 0);
}

#[test]
fn test_extract_extends_directives() {
    let text = "\nextends ./base.cdm\nextends ./mixins/timestamps.cdm\n\nUser extends BaseUser {\n  name: string #1\n} #10\n";
    let tree = source(text, vec![
        extends_directive("./base.cdm", 1),
        extends_directive("./mixins/timestamps.cdm", 20),
        model("User", 53),
    ]);
    let extends = extract_extends_directives(&tree);
    assert_eq!(extends.len(), 2);
    assert!(extends.contains(&"./base.cdm".to_string()));
    assert!(extends.contains(&"./mixins/timestamps.cdm".to_string()));
}

#[test]
fn test_cached_text() {
    let mut workspace = Workspace::new();
    let uri = "file:///test.cdm";
    let text = "User { name: string #1 } #10";
    workspace.update_document(uri, text, &source(text, vec![model("User", 0)]));
    let cached = workspace.get_cached_text(uri);
    assert_eq!(cached, Some(text.to_string()));
}

#[test]
fn resolves_relative_paths_against_the_document_directory() {
    // `..` is kept as written; only `.` components disappear
    assert_eq!(resolve_path_to_uri("file:///proj/a/derived.cdm", "../base.cdm"), Some("file:///proj/a/../base.cdm".to_string()));
    assert_eq!(resolve_path_to_uri("file:///proj/derived.cdm", "./base.cdm"), Some("file:///proj/base.cdm".to_string()));
    assert_eq!(resolve_path_to_uri("https://example.com/x.cdm", "./base.cdm"), None);
    assert_eq!(resolve_path_to_uri("not a url", "./base.cdm"), None);
}

#[test]
fn transitive_dependents_and_cycles() {
    let mut ws = Workspace::new();
    // c extends b, b extends a, a extends c (a cycle)
    ws.update_document("file:///c.cdm", "", &source("", vec![extends_directive("./b.cdm", 0)]));
    ws.update_document("file:///b.cdm", "", &source("", vec![extends_directive("./a.cdm", 0)]));
    let mut all = ws.get_all_dependents("file:///a.cdm");
    all.sort();
    assert_eq!(all, vec!["file:///b.cdm".to_string(), "file:///c.cdm".to_string()]);
    assert_eq!(ws.get_dependency_chain("file:///c.cdm"), vec!["file:///b.cdm".to_string(), "file:///a.cdm".to_string()]);

    ws.update_document("file:///a.cdm", "", &source("", vec![extends_directive("./c.cdm", 0)]));
    let mut all = ws.get_all_dependents("file:///a.cdm");
    all.sort();
    // the start is never among its own dependents, even on a cycle
    assert_eq!(all, vec!["file:///b.cdm".to_string(), "file:///c.cdm".to_string()]);
    // the walk ends on the file that closes the cycle
    assert_eq!(
        ws.get_dependency_chain("file:///c.cdm"),
        vec!["file:///b.cdm".to_string(), "file:///a.cdm".to_string(), "file:///c.cdm".to_string()]
    );
}

#[test]
fn updating_a_document_replaces_what_it_extends() {
    let mut ws = Workspace::new();
    ws.update_document("file:///d.cdm", "", &source("", vec![extends_directive("./a.cdm", 0), extends_directive("./b.cdm", 20)]));
    assert_eq!(ws.get_all_dependents("file:///a.cdm"), vec!["file:///d.cdm".to_string()]);
    assert_eq!(ws.get_dependency_chain("file:///d.cdm"), vec!["file:///a.cdm".to_string()]);
    ws.update_document("file:///d.cdm", "", &source("", vec![extends_directive("./b.cdm", 0)]));
    assert!(ws.get_all_dependents("file:///a.cdm").is_empty());
    assert_eq!(ws.get_all_dependents("file:///b.cdm"), vec!["file:///d.cdm".to_string()]);
    assert_eq!(ws.get_cached_text("file:///nothing.cdm"), None);
}
