use vstd::prelude::*;

use crate::completion::{
    completion_context_at, defined_keys_from, determine_completion_context, extract_already_defined_fields, level_view,
    CompletionContext, ConfigLevel, ContextView, LevelView,
};
use crate::lsp::{lines_bytes, lsp_position_to_byte_offset, offset_of, text_lines, Position};
use crate::paths::{contains_text, str_eq, views};
use crate::plugin_schema::{fields_at, PluginSettingsSchema, SchemaView, SettingsField, SettingsView};
use crate::syntax::{field_child, field_text, SyntaxNode};
use crate::text::{chars_of, concat, decimal, decimal_chars, push_str, string_from_chars};
use crate::tree_path::{follow, path_to_offset};
use vstd::string::StringSliceAdditionalSpecFns;

verus! {

broadcast use vstd::string::group_string_axioms;

/// What a completion item stands for (shown as an icon by editors).
#[derive(Debug, Clone, Copy, PartialEq, Eq, Structural)]
pub enum CompletionItemKind {
    Keyword,
    TypeParameter,
    Class,
    Module,
    Snippet,
    Property,
    EnumMember,
}

/// How the insert text of an item is read.
#[derive(Debug, Clone, Copy, PartialEq, Eq, Structural)]
pub enum InsertTextFormat {
    PlainText,
    Snippet,
}

/// The documentation of a completion item.
#[derive(Debug)]
pub enum Documentation {
    PlainText(String),
    Markdown(String),
}

/// Documentation by its text.
pub enum DocView {
    PlainText(Seq<char>),
    Markdown(Seq<char>),
}

impl View for Documentation {
    type V = DocView;

    open spec fn view(&self) -> DocView {
        match self {
            Documentation::PlainText(s) => DocView::PlainText(s@),
            Documentation::Markdown(s) => DocView::Markdown(s@),
        }
    }
}

/// A completion item offered to the editor.
#[derive(Debug)]
pub struct CompletionItem {
    pub label: String,
    pub kind: Option<CompletionItemKind>,
    pub detail: Option<String>,
    pub documentation: Option<Documentation>,
    pub insert_text: Option<String>,
    pub insert_text_format: Option<InsertTextFormat>,
}

/// A completion item by its texts.
pub struct ItemView {
    pub label: Seq<char>,
    pub kind: Option<CompletionItemKind>,
    pub detail: Option<Seq<char>>,
    pub documentation: Option<DocView>,
    pub insert_text: Option<Seq<char>>,
    pub insert_text_format: Option<InsertTextFormat>,
}

pub open spec fn opt_text(o: Option<String>) -> Option<Seq<char>> {
    match o {
        Some(s) => Some(s@),
        None => None,
    }
}

pub open spec fn opt_doc(o: Option<Documentation>) -> Option<DocView> {
    match o {
        Some(d) => Some(d@),
        None => None,
    }
}

impl View for CompletionItem {
    type V = ItemView;

    open spec fn view(&self) -> ItemView {
        ItemView {
            label: self.label@,
            kind: self.kind,
            detail: opt_text(self.detail),
            documentation: opt_doc(self.documentation),
            insert_text: opt_text(self.insert_text),
            insert_text_format: self.insert_text_format,
        }
    }
}

/// The views of a list of items.
pub open spec fn item_views(s: Seq<CompletionItem>) -> Seq<ItemView> {
    s.map_values(|i: CompletionItem| i@)
}

/// An item with the given parts.
pub open spec fn item(
    label: Seq<char>,
    kind: CompletionItemKind,
    detail: Option<Seq<char>>,
    documentation: Option<DocView>,
    insert_text: Option<Seq<char>>,
    insert_text_format: Option<InsertTextFormat>,
) -> ItemView {
    ItemView { label, kind: Some(kind), detail, documentation, insert_text, insert_text_format }
}

/// Appends `x` to `out`.
fn push_item(out: &mut Vec<CompletionItem>, x: CompletionItem)
    ensures
        item_views(final(out)@) == item_views(old(out)@).push(x@),
{
    let ghost before = out@;
    out.push(x);
    proof { assert(item_views(out@) =~= item_views(before).push(x@)); }
}

/// Appends all of `extra` to `out`.
fn append_items(out: &mut Vec<CompletionItem>, extra: Vec<CompletionItem>)
    ensures
        item_views(final(out)@) == item_views(old(out)@) + item_views(extra@),
{
    let ghost before = out@;
    let ghost e0 = extra@;
    let mut rest = extra;
    out.append(&mut rest);
    proof { assert(item_views(out@) =~= item_views(before) + item_views(e0)); }
}

/// A keyword item with plain documentation.
fn keyword_item(label: &str, detail: &str, doc: &str) -> (r: CompletionItem)
    ensures
        r@ == item(label@, CompletionItemKind::Keyword, Some(detail@), Some(DocView::PlainText(doc@)), None, None),
{
    CompletionItem {
        label: label.to_string(),
        kind: Some(CompletionItemKind::Keyword),
        detail: Some(detail.to_string()),
        documentation: Some(Documentation::PlainText(doc.to_string())),
        insert_text: None,
        insert_text_format: None,
    }
}

/// The built-in types.
pub open spec fn builtin_items() -> Seq<ItemView> {
    seq![
        item("string"@, CompletionItemKind::Keyword, Some("Built-in string type"@), Some(DocView::PlainText("A string value"@)), None, None),
        item("number"@, CompletionItemKind::Keyword, Some("Built-in number type"@), Some(DocView::PlainText("A numeric value (integer or float)"@)), None, None),
        item("boolean"@, CompletionItemKind::Keyword, Some("Built-in boolean type"@), Some(DocView::PlainText("A boolean value (true or false)"@)), None, None),
        item("JSON"@, CompletionItemKind::Keyword, Some("Built-in JSON type"@), Some(DocView::PlainText("Any valid JSON value"@)), None, None),
    ]
}

/// Completion items for the built-in types.
pub fn builtin_type_completions() -> (r: Vec<CompletionItem>)
    ensures
        item_views(r@) == builtin_items(),
{
    let mut v: Vec<CompletionItem> = Vec::new();
    push_item(&mut v, keyword_item("string", "Built-in string type", "A string value"));
    push_item(&mut v, keyword_item("number", "Built-in number type", "A numeric value (integer or float)"));
    push_item(&mut v, keyword_item("boolean", "Built-in boolean type", "A boolean value (true or false)"));
    push_item(&mut v, keyword_item("JSON", "Built-in JSON type", "Any valid JSON value"));
    proof { assert(item_views(v@) =~= builtin_items()); }
    v
}

/// A snippet item.
fn snippet_item(label: &str, kind: CompletionItemKind, detail: &str, insert: &str, doc: &str) -> (r: CompletionItem)
    ensures
        r@ == item(label@, kind, Some(detail@), Some(DocView::PlainText(doc@)), Some(insert@), Some(InsertTextFormat::Snippet)),
{
    CompletionItem {
        label: label.to_string(),
        kind: Some(kind),
        detail: Some(detail.to_string()),
        documentation: Some(Documentation::PlainText(doc.to_string())),
        insert_text: Some(insert.to_string()),
        insert_text_format: Some(InsertTextFormat::Snippet),
    }
}

/// The snippets for new definitions.
pub open spec fn snippet_items() -> Seq<ItemView> {
    seq![
        item("model"@, CompletionItemKind::Snippet, Some("New model definition"@),
            Some(DocView::PlainText("Create a new model with a field"@)),
            Some("${1:ModelName} {\n  ${2:field}: ${3:string} #1\n} #10"@), Some(InsertTextFormat::Snippet)),
        item("type"@, CompletionItemKind::Snippet, Some("New type alias"@),
            Some(DocView::PlainText("Create a new type alias"@)),
            Some("${1:TypeName}: ${2:string} #1"@), Some(InsertTextFormat::Snippet)),
        item("extends"@, CompletionItemKind::Keyword, Some("Extend a model"@),
            Some(DocView::PlainText("Extend another model"@)),
            Some("extends ${1:BaseModel}"@), Some(InsertTextFormat::Snippet)),
    ]
}

/// Snippet completions for new models, type aliases and extends clauses.
pub fn snippet_completions() -> (r: Vec<CompletionItem>)
    ensures
        item_views(r@) == snippet_items(),
{
    let mut v: Vec<CompletionItem> = Vec::new();
    push_item(&mut v, snippet_item("model", CompletionItemKind::Snippet, "New model definition",
        "${1:ModelName} {\n  ${2:field}: ${3:string} #1\n} #10", "Create a new model with a field"));
    push_item(&mut v, snippet_item("type", CompletionItemKind::Snippet, "New type alias",
        "${1:TypeName}: ${2:string} #1", "Create a new type alias"));
    push_item(&mut v, snippet_item("extends", CompletionItemKind::Keyword, "Extend a model",
        "extends ${1:BaseModel}", "Extend another model"));
    proof { assert(item_views(v@) =~= snippet_items()); }
    v
}

/// The item for a type alias named `name` of type `ty`.
pub open spec fn alias_item(name: Seq<char>, ty: Seq<char>) -> ItemView {
    item(name, CompletionItemKind::TypeParameter, Some("Type alias: "@ + ty),
        Some(DocView::PlainText(name + ": "@ + ty)), None, None)
}

/// The item of a type alias node: none without a name; `string` when it has no type.
pub open spec fn alias_completion(n: SyntaxNode) -> Option<ItemView> {
    match field_text(n, "name"@) {
        Some(name) => Some(alias_item(name, match field_text(n, "type"@) {
            Some(t) => t,
            None => "string"@,
        })),
        None => None,
    }
}

/// Completion item for a type alias node.
pub fn extract_type_alias_completion(n: &SyntaxNode) -> (r: Option<CompletionItem>)
    ensures
        match r {
            Some(i) => alias_completion(*n) == Some(i@),
            None => alias_completion(*n) is None,
        },
{
    let name = match n.child_by_field_name("name") {
        Some(c) => c.text.as_str(),
        None => return None,
    };
    let ty = match n.child_by_field_name("type") {
        Some(c) => c.text.as_str(),
        None => "string",
    };
    let with_colon = concat(name, ": ");
    Some(CompletionItem {
        label: name.to_string(),
        kind: Some(CompletionItemKind::TypeParameter),
        detail: Some(concat("Type alias: ", ty)),
        documentation: Some(Documentation::PlainText(concat(with_colon.as_str(), ty))),
        insert_text: None,
        insert_text_format: None,
    })
}

/// The number of field definitions among the nodes.
pub open spec fn count_fields(s: Seq<SyntaxNode>) -> nat
    decreases s.len(),
{
    if s.len() == 0 {
        0
    } else {
        count_fields(s.drop_last()) + if s.last().kind@ == "field_definition"@ { 1nat } else { 0nat }
    }
}

/// The item for a model named `name` with `count` fields.
pub open spec fn model_item(name: Seq<char>, count: nat) -> ItemView {
    item(name, CompletionItemKind::Class, Some("Model with "@ + decimal(count) + " field(s)"@),
        Some(DocView::PlainText("Model: "@ + name)), None, None)
}

/// The item of a model node: none without a name.
pub open spec fn model_completion(n: SyntaxNode) -> Option<ItemView> {
    match field_text(n, "name"@) {
        Some(name) => Some(model_item(name, match field_child(n, "body"@) {
            Some(b) => count_fields(b.children@),
            None => 0,
        })),
        None => None,
    }
}

/// The number of field definitions among the children of a node.
fn field_count(n: &SyntaxNode) -> (r: usize)
    ensures
        r == count_fields(n.children@),
{
    let mut c: usize = 0;
    let mut i: usize = 0;
    while i < n.children.len()
        invariant
            i <= n.children@.len(),
            c == count_fields(n.children@.take(i as int)),
            c <= i,
        decreases n.children@.len() - i,
    {
        proof {
            assert(n.children@.take(i as int + 1).drop_last() =~= n.children@.take(i as int));
            assert(n.children@.take(i as int + 1).last() == n.children@[i as int]);
        }
        if n.children[i].is_kind("field_definition") {
            c = c + 1;
        }
        i = i + 1;
    }
    proof { assert(n.children@.take(n.children@.len() as int) =~= n.children@); }
    c
}

/// Completion item for a model node.
pub fn extract_model_completion(n: &SyntaxNode) -> (r: Option<CompletionItem>)
    ensures
        match r {
            Some(i) => model_completion(*n) == Some(i@),
            None => model_completion(*n) is None,
        },
{
    let name = match n.child_by_field_name("name") {
        Some(c) => c.text.as_str(),
        None => return None,
    };
    let count: usize = match n.child_by_field_name("body") {
        Some(b) => field_count(b),
        None => 0,
    };
    let mut d = crate::text::chars_of("Model with ");
    let digits = decimal_chars(count as u64);
    crate::text::push_all(&mut d, digits.as_slice());
    crate::text::push_str(&mut d, " field(s)");
    let detail = string_from_chars(d.as_slice());
    Some(CompletionItem {
        label: name.to_string(),
        kind: Some(CompletionItemKind::Class),
        detail: Some(detail),
        documentation: Some(Documentation::PlainText(concat("Model: ", name))),
        insert_text: None,
        insert_text_format: None,
    })
}

/// The item of a top-level definition: type aliases and models.
pub open spec fn definition_completion(n: SyntaxNode) -> Option<ItemView> {
    if n.kind@ == "type_alias"@ {
        alias_completion(n)
    } else if n.kind@ == "model_definition"@ {
        model_completion(n)
    } else {
        None
    }
}

/// The items of the nodes that `f` gives one for, in order.
pub open spec fn items_of(s: Seq<SyntaxNode>, f: spec_fn(SyntaxNode) -> Option<ItemView>) -> Seq<ItemView>
    decreases s.len(),
{
    if s.len() == 0 {
        Seq::empty()
    } else {
        let rest = items_of(s.drop_last(), f);
        match f(s.last()) {
            Some(i) => rest.push(i),
            None => rest,
        }
    }
}

/// The items of the user-defined types and models of a document.
pub open spec fn user_defined_items(root: SyntaxNode) -> Seq<ItemView> {
    items_of(root.children@, |n: SyntaxNode| definition_completion(n))
}

/// Completion items for the type aliases and models defined at the top level.
pub fn user_defined_type_completions(root: &SyntaxNode) -> (r: Vec<CompletionItem>)
    ensures
        item_views(r@) == user_defined_items(*root),
{
    let ghost f = |n: SyntaxNode| definition_completion(n);
    let mut out: Vec<CompletionItem> = Vec::new();
    let mut i: usize = 0;
    proof { assert(item_views(out@) =~= items_of(root.children@.take(0), f)); }
    while i < root.children.len()
        invariant
            i <= root.children@.len(),
            item_views(out@) == items_of(root.children@.take(i as int), f),
            f == (|n: SyntaxNode| definition_completion(n)),
        decreases root.children@.len() - i,
    {
        let c = &root.children[i];
        proof {
            assert(root.children@.take(i as int + 1).drop_last() =~= root.children@.take(i as int));
            assert(root.children@.take(i as int + 1).last() == root.children@[i as int]);
        }
        let it = if c.is_kind("type_alias") {
            extract_type_alias_completion(c)
        } else if c.is_kind("model_definition") {
            extract_model_completion(c)
        } else {
            None
        };
        match it {
            Some(x) => push_item(&mut out, x),
            None => {},
        }
        i = i + 1;
    }
    proof { assert(root.children@.take(root.children@.len() as int) =~= root.children@); }
    out
}

/// The item of a model node, for extends clauses.
pub open spec fn model_only(n: SyntaxNode) -> Option<ItemView> {
    if n.kind@ == "model_definition"@ { model_completion(n) } else { None }
}

/// The items of the models of a document.
pub open spec fn model_items(root: SyntaxNode) -> Seq<ItemView> {
    items_of(root.children@, |n: SyntaxNode| model_only(n))
}

/// Completion items for the model names of a document (for extends clauses).
pub fn model_name_completions(root: &SyntaxNode) -> (r: Vec<CompletionItem>)
    ensures
        item_views(r@) == model_items(*root),
{
    let ghost f = |n: SyntaxNode| model_only(n);
    let mut out: Vec<CompletionItem> = Vec::new();
    let mut i: usize = 0;
    proof { assert(item_views(out@) =~= items_of(root.children@.take(0), f)); }
    while i < root.children.len()
        invariant
            i <= root.children@.len(),
            item_views(out@) == items_of(root.children@.take(i as int), f),
            f == (|n: SyntaxNode| model_only(n)),
        decreases root.children@.len() - i,
    {
        let c = &root.children[i];
        proof {
            assert(root.children@.take(i as int + 1).drop_last() =~= root.children@.take(i as int));
            assert(root.children@.take(i as int + 1).last() == root.children@[i as int]);
        }
        if c.is_kind("model_definition") {
            match extract_model_completion(c) {
                Some(x) => push_item(&mut out, x),
                None => {},
            }
        }
        i = i + 1;
    }
    proof { assert(root.children@.take(root.children@.len() as int) =~= root.children@); }
    out
}

/// The plugin names of the `@plugin` directives among the nodes, each once, in the
/// order they first appear.
pub open spec fn plugin_names(s: Seq<SyntaxNode>) -> Seq<Seq<char>>
    decreases s.len(),
{
    if s.len() == 0 {
        Seq::empty()
    } else {
        let rest = plugin_names(s.drop_last());
        if s.last().kind@ == "plugin_directive"@ {
            match field_text(s.last(), "name"@) {
                Some(name) => if rest.contains(name) { rest } else { rest.push(name) },
                None => rest,
            }
        } else {
            rest
        }
    }
}

/// The item for a plugin name.
pub open spec fn plugin_item(name: Seq<char>) -> ItemView {
    item(name, CompletionItemKind::Module, Some("Plugin"@), None, None, None)
}

/// The items of the plugin names of a document.
pub open spec fn plugin_name_items(root: SyntaxNode) -> Seq<ItemView> {
    plugin_names(root.children@).map_values(|n: Seq<char>| plugin_item(n))
}

/// Completion items for the plugin names imported at the top level, each once.
pub fn plugin_name_completions(root: &SyntaxNode) -> (r: Vec<CompletionItem>)
    ensures
        item_views(r@) == plugin_name_items(*root),
{
    let mut out: Vec<CompletionItem> = Vec::new();
    let mut seen: Vec<String> = Vec::new();
    let mut i: usize = 0;
    proof {
        assert(views(seen@) =~= plugin_names(root.children@.take(0)));
        assert(item_views(out@) =~= plugin_names(root.children@.take(0)).map_values(|n: Seq<char>| plugin_item(n)));
    }
    while i < root.children.len()
        invariant
            i <= root.children@.len(),
            views(seen@) == plugin_names(root.children@.take(i as int)),
            item_views(out@) == views(seen@).map_values(|n: Seq<char>| plugin_item(n)),
        decreases root.children@.len() - i,
    {
        let c = &root.children[i];
        proof {
            assert(root.children@.take(i as int + 1).drop_last() =~= root.children@.take(i as int));
            assert(root.children@.take(i as int + 1).last() == root.children@[i as int]);
        }
        if c.is_kind("plugin_directive") {
            match c.child_by_field_name("name") {
                Some(nm) => {
                    if !contains_text(seen.as_slice(), nm.text.as_str()) {
                        let ghost s0 = seen@;
                        seen.push(nm.text.clone());
                        push_item(&mut out, CompletionItem {
                            label: nm.text.clone(),
                            kind: Some(CompletionItemKind::Module),
                            detail: Some("Plugin".to_string()),
                            documentation: None,
                            insert_text: None,
                            insert_text_format: None,
                        });
                        proof {
                            assert(views(seen@) =~= views(s0).push(nm.text@));
                            assert(views(seen@).map_values(|n: Seq<char>| plugin_item(n))
                                =~= views(s0).map_values(|n: Seq<char>| plugin_item(n)).push(plugin_item(nm.text@)));
                        }
                    }
                },
                None => {},
            }
        }
        i = i + 1;
    }
    proof { assert(root.children@.take(root.children@.len() as int) =~= root.children@); }
    out
}

/// The type shown for a settings field: as written, or `string`.
pub open spec fn shown_type(f: SettingsView) -> Seq<char> {
    match f.type_expr {
        Some(t) => t,
        None => "string"@,
    }
}

/// The detail of a settings field: its name, `?` when optional, and its type.
pub open spec fn field_detail(f: SettingsView) -> Seq<char> {
    f.name + (if f.optional { "?"@ } else { Seq::empty() }) + ": "@ + shown_type(f)
}

/// The documentation of a settings field, in Markdown: its type, whether it is
/// optional, and its default value when it has one.
pub open spec fn field_documentation(f: SettingsView) -> Seq<char> {
    "**Type:** `"@ + shown_type(f) + "`\n\n"@
        + (if f.optional { "*Optional*\n\n"@ } else { "*Required*\n\n"@ })
        + match f.default_value {
            Some(d) => "**Default:** `"@ + d + "`"@,
            None => Seq::empty(),
        }
}

/// The snippet inserted for a settings field.
pub open spec fn field_insert_text(f: SettingsView) -> Seq<char> {
    f.name + ": $1"@
}

fn shown_type_of(field: &SettingsField) -> (r: &str)
    ensures
        r@ == shown_type(field@),
{
    match &field.type_expr {
        Some(t) => t.as_str(),
        None => "string",
    }
}

/// The detail line of a settings field (`name?: type`).
pub fn format_field_detail(field: &SettingsField) -> (r: String)
    ensures
        r@ == field_detail(field@),
{
    let mut v = chars_of(field.name.as_str());
    if field.optional {
        push_str(&mut v, "?");
    } else {
        proof { assert(v@ =~= v@ + Seq::<char>::empty()); }
    }
    push_str(&mut v, ": ");
    push_str(&mut v, shown_type_of(field));
    string_from_chars(v.as_slice())
}

/// The Markdown documentation of a settings field.
pub fn format_field_documentation(field: &SettingsField) -> (r: String)
    ensures
        r@ == field_documentation(field@),
{
    let mut v = chars_of("**Type:** `");
    push_str(&mut v, shown_type_of(field));
    push_str(&mut v, "`\n\n");
    if field.optional {
        push_str(&mut v, "*Optional*\n\n");
    } else {
        push_str(&mut v, "*Required*\n\n");
    }
    match &field.default_value {
        Some(d) => {
            let ghost before = v@;
            push_str(&mut v, "**Default:** `");
            push_str(&mut v, d.as_str());
            push_str(&mut v, "`");
            proof { assert(v@ =~= before + ("**Default:** `"@ + d@ + "`"@)); }
        },
        None => {
            proof { assert(v@ =~= v@ + Seq::<char>::empty()); }
        },
    }
    let r = string_from_chars(v.as_slice());
    proof { assert(r@ =~= field_documentation(field@)); }
    r
}

/// The snippet inserted for a settings field (`name: $1`).
pub fn format_field_insert_text(field: &SettingsField) -> (r: String)
    ensures
        r@ == field_insert_text(field@),
{
    concat(field.name.as_str(), ": $1")
}

/// An item for a setting that CDM itself handles.
pub open spec fn reserved_item(label: Seq<char>, detail: Seq<char>, doc: Seq<char>, insert: Seq<char>) -> ItemView {
    item(label, CompletionItemKind::Property, Some(detail), Some(DocView::Markdown(doc)), Some(insert), Some(InsertTextFormat::Snippet))
}

pub open spec fn version_item() -> ItemView {
    reserved_item("version"@, "version?: string"@,
        "**Type:** `string`\n\n*Optional*\n\nVersion constraint for plugin resolution (e.g., \"1.0.0\", \"^1.2.3\")"@,
        "version: \"$1\""@)
}

pub open spec fn build_output_item() -> ItemView {
    reserved_item("build_output"@, "build_output?: string"@,
        "**Type:** `string`\n\n*Optional*\n\nOutput directory for generated files from `cdm build`"@,
        "build_output: \"$1\""@)
}

pub open spec fn migrations_output_item() -> ItemView {
    reserved_item("migrations_output"@, "migrations_output?: string"@,
        "**Type:** `string`\n\n*Optional*\n\nOutput directory for migration files from `cdm migrate`"@,
        "migrations_output: \"$1\""@)
}

/// The settings that CDM handles itself, offered at the global level: `version`
/// always, `build_output` for a plugin that builds, `migrations_output` for one that
/// migrates; each only when not already written.
pub open spec fn reserved_items(s: SchemaView, defined: Seq<Seq<char>>) -> Seq<ItemView> {
    (if !defined.contains("version"@) { seq![version_item()] } else { Seq::empty() })
        + (if s.has_build && !defined.contains("build_output"@) { seq![build_output_item()] } else { Seq::empty() })
        + (if s.has_migrate && !defined.contains("migrations_output"@) { seq![migrations_output_item()] } else { Seq::empty() })
}

fn reserved(label: &str, detail: &str, doc: &str, insert: &str) -> (r: CompletionItem)
    ensures
        r@ == reserved_item(label@, detail@, doc@, insert@),
{
    CompletionItem {
        label: label.to_string(),
        kind: Some(CompletionItemKind::Property),
        detail: Some(detail.to_string()),
        documentation: Some(Documentation::Markdown(doc.to_string())),
        insert_text: Some(insert.to_string()),
        insert_text_format: Some(InsertTextFormat::Snippet),
    }
}

/// Completion items for the reserved global settings not yet written.
pub fn reserved_global_settings_completions(schema: &PluginSettingsSchema, already_defined: &Vec<String>) -> (r: Vec<CompletionItem>)
    ensures
        item_views(r@) == reserved_items(schema@, views(already_defined@)),
{
    let mut out: Vec<CompletionItem> = Vec::new();
    let ghost d = views(already_defined@);
    if !contains_text(already_defined.as_slice(), "version") {
        push_item(&mut out, reserved("version", "version?: string",
            "**Type:** `string`\n\n*Optional*\n\nVersion constraint for plugin resolution (e.g., \"1.0.0\", \"^1.2.3\")",
            "version: \"$1\""));
    }
    let ghost first = item_views(out@);
    if schema.has_build && !contains_text(already_defined.as_slice(), "build_output") {
        push_item(&mut out, reserved("build_output", "build_output?: string",
            "**Type:** `string`\n\n*Optional*\n\nOutput directory for generated files from `cdm build`",
            "build_output: \"$1\""));
    }
    let ghost second = item_views(out@);
    if schema.has_migrate && !contains_text(already_defined.as_slice(), "migrations_output") {
        push_item(&mut out, reserved("migrations_output", "migrations_output?: string",
            "**Type:** `string`\n\n*Optional*\n\nOutput directory for migration files from `cdm migrate`",
            "migrations_output: \"$1\""));
    }
    proof {
        assert(first =~= (if !d.contains("version"@) { seq![version_item()] } else { Seq::<ItemView>::empty() }));
        assert(item_views(out@) =~= reserved_items(schema@, d));
    }
    out
}

/// The item for a settings field.
pub open spec fn field_item(f: SettingsView) -> ItemView {
    item(f.name, CompletionItemKind::Property, Some(field_detail(f)), Some(DocView::Markdown(field_documentation(f))),
        Some(field_insert_text(f)), Some(InsertTextFormat::Snippet))
}

/// The items for the fields not yet written, in order.
pub open spec fn undefined_field_items(fs: Seq<SettingsView>, defined: Seq<Seq<char>>) -> Seq<ItemView>
    decreases fs.len(),
{
    if fs.len() == 0 {
        Seq::empty()
    } else {
        let rest = undefined_field_items(fs.drop_last(), defined);
        if defined.contains(fs.last().name) { rest } else { rest.push(field_item(fs.last())) }
    }
}

/// The items for a plugin config object at `level`: the reserved settings at the
/// global level, then the plugin's settings fields, leaving out those already written.
pub open spec fn field_items(s: SchemaView, level: LevelView, defined: Seq<Seq<char>>) -> Seq<ItemView> {
    (if level is Global { reserved_items(s, defined) } else { Seq::empty() })
        + undefined_field_items(fields_at(s, level), defined)
}

/// Completion items for the field names of a plugin config object.
pub fn plugin_field_completions(schema: &PluginSettingsSchema, config_level: &ConfigLevel, already_defined: &Vec<String>) -> (r: Vec<CompletionItem>)
    ensures
        item_views(r@) == field_items(schema@, level_view(*config_level), views(already_defined@)),
{
    let mut items: Vec<CompletionItem> = Vec::new();
    let ghost d = views(already_defined@);
    match config_level {
        ConfigLevel::Global => {
            let reserved = reserved_global_settings_completions(schema, already_defined);
            append_items(&mut items, reserved);
        },
        _ => {},
    }
    proof {
        assert(item_views(items@) =~= (if level_view(*config_level) is Global { reserved_items(schema@, d) } else { Seq::<ItemView>::empty() }));
    }
    let ghost head = item_views(items@);
    let fields = schema.fields_for_level(config_level);
    let ghost fs = crate::plugin_schema::settings_views(fields@);
    let mut i: usize = 0;
    proof { assert(item_views(items@) =~= head + undefined_field_items(fs.take(0), d)); }
    while i < fields.len()
        invariant
            fs == crate::plugin_schema::settings_views(fields@),
            i <= fields@.len(),
            d == views(already_defined@),
            item_views(items@) == head + undefined_field_items(fs.take(i as int), d),
        decreases fields@.len() - i,
    {
        let f = &fields[i];
        proof {
            assert(fs.take(i as int + 1).drop_last() =~= fs.take(i as int));
            assert(fs.take(i as int + 1).last() == f@);
        }
        if !contains_text(already_defined.as_slice(), f.name.as_str()) {
            let x = CompletionItem {
                label: f.name.clone(),
                kind: Some(CompletionItemKind::Property),
                detail: Some(format_field_detail(f)),
                documentation: Some(Documentation::Markdown(format_field_documentation(f))),
                insert_text: Some(format_field_insert_text(f)),
                insert_text_format: Some(InsertTextFormat::Snippet),
            };
            push_item(&mut items, x);
        }
        i = i + 1;
    }
    proof { assert(fs.take(fields@.len() as int) =~= fs); }
    items
}

/// The first settings field named `name`.
pub open spec fn first_named(fs: Seq<SettingsView>, name: Seq<char>) -> Option<SettingsView>
    decreases fs.len(),
{
    if fs.len() == 0 {
        None
    } else {
        match first_named(fs.drop_last(), name) {
            Some(f) => Some(f),
            None => if fs.last().name == name { Some(fs.last()) } else { None },
        }
    }
}

/// The item for one allowed literal of a field.
pub open spec fn literal_item(v: Seq<char>, field: Seq<char>) -> ItemView {
    item("\""@ + v + "\""@, CompletionItemKind::EnumMember, Some("Value for "@ + field), None, Some("\""@ + v + "\""@), None)
}

/// The item for a boolean value of a field.
pub open spec fn boolean_item(label: Seq<char>, field: Seq<char>) -> ItemView {
    item(label, CompletionItemKind::Keyword, Some("Boolean value for "@ + field), None, None, None)
}

/// The items for the value of the field named `field` at `level`: its allowed
/// literals (quoted), then `true` and `false` for a boolean; none for an unknown field.
pub open spec fn value_items(s: SchemaView, level: LevelView, field: Seq<char>) -> Seq<ItemView> {
    match first_named(fields_at(s, level), field) {
        None => Seq::empty(),
        Some(f) => f.literal_values.map_values(|v: Seq<char>| literal_item(v, field))
            + (if f.is_boolean { seq![boolean_item("true"@, field), boolean_item("false"@, field)] } else { Seq::empty() }),
    }
}

/// Completion items for the value of a plugin config field.
pub fn plugin_value_completions(schema: &PluginSettingsSchema, config_level: &ConfigLevel, field_name: &str) -> (r: Vec<CompletionItem>)
    ensures
        item_views(r@) == value_items(schema@, level_view(*config_level), field_name@),
{
    let fields = schema.fields_for_level(config_level);
    let ghost fs = crate::plugin_schema::settings_views(fields@);
    let mut k: usize = 0;
    let mut found: Option<usize> = None;
    while k < fields.len()
        invariant
            fs == crate::plugin_schema::settings_views(fields@),
            k <= fields@.len(),
            found is None ==> first_named(fs.take(k as int), field_name@) is None,
            found matches Some(i) ==> i < fields@.len() && first_named(fs.take(k as int), field_name@) == Some(fs[i as int]),
        decreases fields@.len() - k,
    {
        proof {
            assert(fs.take(k as int + 1).drop_last() =~= fs.take(k as int));
            assert(fs.take(k as int + 1).last() == fs[k as int]);
        }
        if found.is_none() && str_eq(fields[k].name.as_str(), field_name) {
            found = Some(k);
        }
        k = k + 1;
    }
    proof { assert(fs.take(fields@.len() as int) =~= fs); }
    let f = match found {
        Some(i) => &fields[i],
        None => {
            proof { assert(item_views(Seq::<CompletionItem>::empty()) =~= Seq::<ItemView>::empty()); }
            return Vec::new();
        },
    };
    let ghost lits = views(f.literal_values@);
    let mut items: Vec<CompletionItem> = Vec::new();
    let mut i: usize = 0;
    proof { assert(item_views(items@) =~= lits.take(0).map_values(|v: Seq<char>| literal_item(v, field_name@))); }
    while i < f.literal_values.len()
        invariant
            lits == views(f.literal_values@),
            i <= lits.len(),
            item_views(items@) == lits.take(i as int).map_values(|v: Seq<char>| literal_item(v, field_name@)),
        decreases lits.len() - i,
    {
        let v = f.literal_values[i].as_str();
        let quoted = concat(concat("\"", v).as_str(), "\"");
        let quoted_again = concat(concat("\"", v).as_str(), "\"");
        push_item(&mut items, CompletionItem {
            label: quoted,
            kind: Some(CompletionItemKind::EnumMember),
            detail: Some(concat("Value for ", field_name)),
            documentation: None,
            insert_text: Some(quoted_again),
            insert_text_format: None,
        });
        proof {
            assert(lits.take(i as int + 1).map_values(|v: Seq<char>| literal_item(v, field_name@))
                =~= lits.take(i as int).map_values(|v: Seq<char>| literal_item(v, field_name@)).push(literal_item(lits[i as int], field_name@)));
        }
        i = i + 1;
    }
    proof { assert(lits.take(lits.len() as int) =~= lits); }
    let ghost head = item_views(items@);
    if f.is_boolean {
        push_item(&mut items, CompletionItem {
            label: "true".to_string(),
            kind: Some(CompletionItemKind::Keyword),
            detail: Some(concat("Boolean value for ", field_name)),
            documentation: None,
            insert_text: None,
            insert_text_format: None,
        });
        push_item(&mut items, CompletionItem {
            label: "false".to_string(),
            kind: Some(CompletionItemKind::Keyword),
            detail: Some(concat("Boolean value for ", field_name)),
            documentation: None,
            insert_text: None,
            insert_text_format: None,
        });
        proof { assert(item_views(items@) =~= head + seq![boolean_item("true"@, field_name@), boolean_item("false"@, field_name@)]); }
    } else {
        proof { assert(item_views(items@) =~= head + Seq::<ItemView>::empty()); }
    }
    items
}

/// The items offered in a completion context, given the settings schema of the
/// plugin the context names (when it could be loaded).
pub open spec fn items_for(ctx: ContextView, root: SyntaxNode, offset: nat, schema: Option<SchemaView>) -> Seq<ItemView> {
    match ctx {
        ContextView::TypeExpression => builtin_items() + user_defined_items(root),
        ContextView::ExtendsClause => model_items(root),
        ContextView::PluginDirective => plugin_name_items(root),
        ContextView::TopLevel => snippet_items(),
        ContextView::PluginConfigField(_, level) => match schema {
            Some(s) => match path_to_offset(root, offset) {
                Some(p) => field_items(s, level, defined_keys_from(follow(root, p), p.len() as int)),
                None => Seq::empty(),
            },
            None => Seq::empty(),
        },
        ContextView::PluginConfigValue(_, level, field) => match schema {
            Some(s) => value_items(s, level, field),
            None => Seq::empty(),
        },
        ContextView::SuppressCompletions => Seq::empty(),
        ContextView::Unknown => builtin_items() + snippet_items(),
    }
}

/// The completions at a byte offset: none where no context applies, where
/// completions are suppressed, or where the context offers nothing.
pub open spec fn completions_at(root: SyntaxNode, text: Seq<char>, bytes: Seq<u8>, offset: nat, schema: Option<SchemaView>) -> Option<Seq<ItemView>> {
    match completion_context_at(root, text, bytes, offset) {
        None => None,
        Some(ContextView::SuppressCompletions) => None,
        Some(ctx) => if items_for(ctx, root, offset, schema).len() == 0 { None } else { Some(items_for(ctx, root, offset, schema)) },
    }
}

pub open spec fn opt_schema(s: Option<&PluginSettingsSchema>) -> Option<SchemaView> {
    match s {
        Some(x) => Some(x@),
        None => None,
    }
}

/// Completion items at a cursor position of a parsed document.
///
/// `plugin_schema` is the settings schema of the plugin that the cursor's plugin
/// config block belongs to, when the caller could load it; it is used only in such
/// a block.
pub fn compute_completions(root: &SyntaxNode, text: &str, position: Position, plugin_schema: Option<&PluginSettingsSchema>) -> (r: Option<Vec<CompletionItem>>)
    requires
        lines_bytes(text_lines(text@)) <= usize::MAX,
    ensures
        match r {
            Some(v) => completions_at(*root, text@, text.spec_bytes(), offset_of(text_lines(text@), position, 0, 0), opt_schema(plugin_schema)) == Some(item_views(v@)),
            None => completions_at(*root, text@, text.spec_bytes(), offset_of(text_lines(text@), position, 0, 0), opt_schema(plugin_schema)) is None,
        },
{
    let offset = lsp_position_to_byte_offset(text, position);
    let context = match determine_completion_context(root, text, offset) {
        Some(c) => c,
        None => return None,
    };
    let mut items: Vec<CompletionItem> = Vec::new();
    match &context {
        CompletionContext::TypeExpression => {
            append_items(&mut items, builtin_type_completions());
            append_items(&mut items, user_defined_type_completions(root));
        },
        CompletionContext::ExtendsClause => {
            append_items(&mut items, model_name_completions(root));
        },
        CompletionContext::PluginDirective => {
            append_items(&mut items, plugin_name_completions(root));
        },
        CompletionContext::TopLevel => {
            append_items(&mut items, snippet_completions());
        },
        CompletionContext::PluginConfigField { plugin_name: _, config_level } => {
            match plugin_schema {
                Some(schema) => {
                    match crate::tree_path::find_node_at_offset(root, offset) {
                        Some(path) => {
                            let already_defined = extract_already_defined_fields(root, &path);
                            proof { assert(views(already_defined@) =~= already_defined@.map_values(|s: String| s@)); }
                            append_items(&mut items, plugin_field_completions(schema, config_level, &already_defined));
                        },
                        None => {},
                    }
                },
                None => {},
            }
        },
        CompletionContext::PluginConfigValue { plugin_name: _, config_level, field_name } => {
            match plugin_schema {
                Some(schema) => {
                    append_items(&mut items, plugin_value_completions(schema, config_level, field_name.as_str()));
                },
                None => {},
            }
        },
        CompletionContext::SuppressCompletions => {
            return None;
        },
        CompletionContext::Unknown => {
            append_items(&mut items, builtin_type_completions());
            append_items(&mut items, snippet_completions());
        },
    }
    proof {
        assert(item_views(items@) == items_for(crate::completion::context_view(context), *root, offset as nat, opt_schema(plugin_schema)));
    }
    if items.len() == 0 {
        None
    } else {
        Some(items)
    }
}

} // verus!
