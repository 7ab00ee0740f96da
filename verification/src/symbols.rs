use vstd::prelude::*;

use crate::format_text::joined;
use crate::lsp::{byte_span_to_lsp_range, lines_bytes, lsp_position_of, text_lines, Range};
use crate::syntax::SyntaxNode;
use crate::text::{push_all, push_str, string_from_chars};

verus! {

/// The kind of a document symbol.
#[derive(Debug, Clone, Copy, PartialEq, Eq, Structural)]
pub enum SymbolKind {
    TypeParameter,
    Class,
    Field,
}

/// An entry of the document outline.
#[derive(Debug)]
pub struct DocumentSymbol {
    pub name: String,
    pub detail: Option<String>,
    pub kind: SymbolKind,
    /// Marked deprecated (removed fields).
    pub deprecated: bool,
    pub range: Range,
    pub selection_range: Range,
    pub children: Option<Vec<DocumentSymbol>>,
}

/// A document symbol by its texts.
pub struct SymbolView {
    pub name: Seq<char>,
    pub detail: Option<Seq<char>>,
    pub kind: SymbolKind,
    pub deprecated: bool,
    pub range: Range,
    pub selection_range: Range,
    pub children: Option<Seq<SymbolView>>,
}

pub open spec fn symbol_view(s: DocumentSymbol) -> SymbolView
    decreases s,
{
    SymbolView {
        name: s.name@,
        detail: match s.detail { Some(d) => Some(d@), None => None },
        kind: s.kind,
        deprecated: s.deprecated,
        range: s.range,
        selection_range: s.selection_range,
        children: match s.children {
            Some(v) => Some(symbol_views(v@)),
            None => None,
        },
    }
}

pub open spec fn symbol_views(s: Seq<DocumentSymbol>) -> Seq<SymbolView>
    decreases s,
{
    if s.len() == 0 { Seq::empty() } else { symbol_views(s.drop_last()).push(symbol_view(s.last())) }
}

/// The range of a byte span of the text.
pub open spec fn span_range(text: Seq<char>, start: usize, end: usize) -> Range {
    Range { start: lsp_position_of(text, start as nat), end: lsp_position_of(text, end as nat) }
}

/// The text is small enough for positions to be computed (byte counts fit `usize`,
/// line numbers fit `u32`).
pub open spec fn positions_fit(text: Seq<char>) -> bool {
    lines_bytes(text_lines(text)) <= usize::MAX && text_lines(text).len() <= u32::MAX
}

/// The index of the first node of the kind, looking from index `i` on.
pub open spec fn first_of_kind(s: Seq<SyntaxNode>, kind: Seq<char>, i: int) -> Option<int>
    decreases s.len() - i,
{
    if i < 0 || i >= s.len() {
        None
    } else if s[i].kind@ == kind {
        Some(i)
    } else {
        first_of_kind(s, kind, i + 1)
    }
}

/// The index of the last node of the kind before index `i`.
pub open spec fn last_of_kind(s: Seq<SyntaxNode>, kind: Seq<char>, i: int) -> Option<int>
    decreases i,
{
    if i <= 0 || i > s.len() {
        None
    } else if s[i - 1].kind@ == kind {
        Some(i - 1)
    } else {
        last_of_kind(s, kind, i - 1)
    }
}

fn find_first_of_kind(s: &Vec<SyntaxNode>, kind: &str) -> (r: Option<usize>)
    ensures
        match r {
            Some(i) => first_of_kind(s@, kind@, 0) == Some(i as int) && i < s@.len(),
            None => first_of_kind(s@, kind@, 0) is None,
        },
{
    let mut i: usize = 0;
    while i < s.len()
        invariant
            i <= s@.len(),
            first_of_kind(s@, kind@, 0) == first_of_kind(s@, kind@, i as int),
        decreases s@.len() - i,
    {
        if s[i].is_kind(kind) {
            return Some(i);
        }
        i = i + 1;
    }
    None
}

fn find_last_of_kind(s: &Vec<SyntaxNode>, kind: &str) -> (r: Option<usize>)
    ensures
        match r {
            Some(i) => last_of_kind(s@, kind@, s@.len() as int) == Some(i as int) && i < s@.len(),
            None => last_of_kind(s@, kind@, s@.len() as int) is None,
        },
{
    let mut i: usize = s.len();
    while i > 0
        invariant
            i <= s@.len(),
            last_of_kind(s@, kind@, s@.len() as int) == last_of_kind(s@, kind@, i as int),
        decreases i,
    {
        if s[i - 1].is_kind(kind) {
            return Some(i - 1);
        }
        i = i - 1;
    }
    None
}

/// The index of the first named node that is not an identifier, after index `after`.
pub open spec fn first_named_non_identifier(s: Seq<SyntaxNode>, i: int) -> Option<int>
    decreases s.len() - i,
{
    if i < 0 || i >= s.len() {
        None
    } else if s[i].kind@ != "identifier"@ && s[i].is_named {
        Some(i)
    } else {
        first_named_non_identifier(s, i + 1)
    }
}

/// The outline entry of a type alias: its first identifier, with the text of the first
/// named node after it as `: type`; the whole alias is its range.
pub open spec fn type_alias_symbol(n: SyntaxNode, text: Seq<char>) -> Option<SymbolView> {
    match first_of_kind(n.children@, "identifier"@, 0) {
        Some(i) => Some(SymbolView {
            name: n.children@[i].text@,
            detail: match first_named_non_identifier(n.children@, i + 1) {
                Some(j) => Some(seq![':', ' '] + n.children@[j].text@),
                None => None,
            },
            kind: SymbolKind::TypeParameter,
            deprecated: false,
            range: span_range(text, n.start_byte, n.end_byte),
            selection_range: span_range(text, n.start_byte, n.end_byte),
            children: None,
        }),
        None => None,
    }
}

/// Extracts the outline entry of a type alias (see `type_alias_symbol`).
pub fn extract_type_alias_symbol(n: &SyntaxNode, text: &str) -> (r: Option<DocumentSymbol>)
    requires
        positions_fit(text@),
    ensures
        match r {
            Some(s) => type_alias_symbol(*n, text@) == Some(symbol_view(s)),
            None => type_alias_symbol(*n, text@) is None,
        },
{
    let i = match find_first_of_kind(&n.children, "identifier") {
        Some(i) => i,
        None => { return None; },
    };
    let len = n.children.len();
    let mut j: usize = i + 1;
    let mut found: Option<usize> = None;
    while j < n.children.len()
        invariant_except_break
            found is None,
            first_named_non_identifier(n.children@, i + 1) == first_named_non_identifier(n.children@, j as int),
        invariant
            i < n.children@.len(),
            i + 1 <= j <= n.children@.len(),
        ensures
            match found {
                Some(f) => f < n.children@.len() && first_named_non_identifier(n.children@, i + 1) == Some(f as int),
                None => first_named_non_identifier(n.children@, i + 1) is None,
            },
        decreases n.children@.len() - j,
    {
        if !n.children[j].is_kind("identifier") && n.children[j].is_named {
            found = Some(j);
            break;
        }
        j = j + 1;
    }
    let detail = match found {
        Some(f) => {
            let mut d: Vec<char> = Vec::new();
            d.push(':');
            d.push(' ');
            push_str(&mut d, n.children[f].text.as_str());
            Some(string_from_chars(d.as_slice()))
        },
        None => None,
    };
    let range = byte_span_to_lsp_range(text, n.start_byte, n.end_byte);
    let r = DocumentSymbol {
        name: n.children[i].text.clone(),
        detail,
        kind: SymbolKind::TypeParameter,
        deprecated: false,
        range,
        selection_range: range,
        children: None,
    };
    proof {
        let v = symbol_view(r);
        assert(v.detail == match first_named_non_identifier(n.children@, i + 1) {
            Some(j) => Some(seq![':', ' '] + n.children@[j].text@),
            None => None::<Seq<char>>,
        });
    }
    Some(r)
}

/// The texts of the identifiers among the nodes, in order.
pub open spec fn identifier_texts(s: Seq<SyntaxNode>) -> Seq<Seq<char>>
    decreases s.len(),
{
    if s.len() == 0 {
        Seq::empty()
    } else if s.last().kind@ == "identifier"@ {
        identifier_texts(s.drop_last()).push(s.last().text@)
    } else {
        identifier_texts(s.drop_last())
    }
}

/// The parent model names in an extends clause.
pub fn extract_extends(n: &SyntaxNode) -> (r: Vec<String>)
    ensures
        r@.map_values(|s: String| s@) == identifier_texts(n.children@),
{
    let mut out: Vec<String> = Vec::new();
    let mut i: usize = 0;
    proof { assert(n.children@.take(0) =~= Seq::<SyntaxNode>::empty()); }
    while i < n.children.len()
        invariant
            i <= n.children@.len(),
            out@.map_values(|s: String| s@) == identifier_texts(n.children@.take(i as int)),
        decreases n.children@.len() - i,
    {
        proof {
            assert(n.children@.take(i + 1).drop_last() =~= n.children@.take(i as int));
            assert(n.children@.take(i + 1).last() == n.children@[i as int]);
        }
        if n.children[i].is_kind("identifier") {
            out.push(n.children[i].text.clone());
        }
        i = i + 1;
        proof { assert(out@.map_values(|s: String| s@) =~= identifier_texts(n.children@.take(i as int))); }
    }
    proof { assert(n.children@.take(i as int) =~= n.children@); }
    out
}

/// Whether a node kind is a type expression that a field's detail shows.
pub open spec fn is_field_type_kind(k: Seq<char>) -> bool {
    k == "type_identifier"@ || k == "array_type"@ || k == "union_type"@ || k == "map_type"@
}

/// The index of the first type node, looking from index `i` on.
pub open spec fn first_type_node(s: Seq<SyntaxNode>, i: int) -> Option<int>
    decreases s.len() - i,
{
    if i < 0 || i >= s.len() {
        None
    } else if is_field_type_kind(s[i].kind@) {
        Some(i)
    } else {
        first_type_node(s, i + 1)
    }
}

/// Some node is a `?` token.
pub open spec fn has_question(s: Seq<SyntaxNode>) -> bool {
    exists|i: int| 0 <= i < s.len() && s[i].kind@ == "?"@
}

/// The outline entry of a field: its first identifier, with its type and `?` when
/// optional as detail.
pub open spec fn field_symbol(n: SyntaxNode, text: Seq<char>) -> Option<SymbolView> {
    match first_of_kind(n.children@, "identifier"@, 0) {
        Some(i) => Some(SymbolView {
            name: n.children@[i].text@,
            detail: match (first_type_node(n.children@, 0), has_question(n.children@)) {
                (Some(t), true) => Some(seq!['?', ':', ' '] + n.children@[t].text@),
                (Some(t), false) => Some(seq![':', ' '] + n.children@[t].text@),
                (None, true) => Some(seq!['?']),
                (None, false) => None,
            },
            kind: SymbolKind::Field,
            deprecated: false,
            range: span_range(text, n.start_byte, n.end_byte),
            selection_range: span_range(text, n.children@[i].start_byte, n.children@[i].end_byte),
            children: None,
        }),
        None => None,
    }
}

/// Extracts the outline entry of a field (see `field_symbol`). Its detail begins with `?`
/// exactly when the field is marked optional by a `?` token.
pub fn extract_field_symbol(n: &SyntaxNode, text: &str) -> (r: Option<DocumentSymbol>)
    requires
        positions_fit(text@),
    ensures
        match r {
            Some(s) => field_symbol(*n, text@) == Some(symbol_view(s)),
            None => field_symbol(*n, text@) is None,
        },
        match r {
            Some(s) => (symbol_view(s).detail matches Some(d) && d.len() > 0 && d[0] == '?')
                <==> exists|k: int| 0 <= k < n.children@.len() && n.children@[k].kind@ == "?"@,
            None => true,
        },
{
    let i = match find_first_of_kind(&n.children, "identifier") {
        Some(i) => i,
        None => { return None; },
    };
    let mut optional = false;
    let mut type_at: Option<usize> = None;
    let mut j: usize = 0;
    while j < n.children.len()
        invariant
            j <= n.children@.len(),
            optional == exists|k: int| 0 <= k < j && n.children@[k].kind@ == "?"@,
            match type_at {
                Some(t) => t < j && first_type_node(n.children@, 0) == Some(t as int),
                None => first_type_node(n.children@, 0) == first_type_node(n.children@, j as int),
            },
        decreases n.children@.len() - j,
    {
        let c = &n.children[j];
        if c.is_kind("?") {
            optional = true;
        }
        if type_at.is_none() && (c.is_kind("type_identifier") || c.is_kind("array_type") || c.is_kind("union_type") || c.is_kind("map_type")) {
            type_at = Some(j);
        }
        j = j + 1;
    }
    let detail = match type_at {
        Some(t) => {
            let mut d: Vec<char> = Vec::new();
            if optional {
                d.push('?');
            }
            d.push(':');
            d.push(' ');
            push_str(&mut d, n.children[t].text.as_str());
            Some(string_from_chars(d.as_slice()))
        },
        None => if optional {
            let mut d: Vec<char> = Vec::new();
            d.push('?');
            Some(string_from_chars(d.as_slice()))
        } else {
            None
        },
    };
    let r = DocumentSymbol {
        name: n.children[i].text.clone(),
        detail,
        kind: SymbolKind::Field,
        deprecated: false,
        range: byte_span_to_lsp_range(text, n.start_byte, n.end_byte),
        selection_range: byte_span_to_lsp_range(text, n.children[i].start_byte, n.children[i].end_byte),
        children: None,
    };
    proof {
        assert(has_question(n.children@) == optional);
        let v = symbol_view(r);
        match (first_type_node(n.children@, 0), has_question(n.children@)) {
            (Some(t), true) => {
                assert(v.detail->0 =~= seq!['?', ':', ' '] + n.children@[t].text@);
                assert(v.detail->0[0] == '?');
            },
            (Some(t), false) => {
                assert(v.detail->0 =~= seq![':', ' '] + n.children@[t].text@);
                assert(v.detail->0[0] == ':');
            },
            (None, true) => {
                assert(v.detail->0 =~= seq!['?']);
                assert(v.detail->0[0] == '?');
            },
            (None, false) => {},
        }
    }
    Some(r)
}

/// The outline entry of a removed field: `-name`, marked deprecated.
pub open spec fn field_removal_symbol(n: SyntaxNode, text: Seq<char>) -> Option<SymbolView> {
    match first_of_kind(n.children@, "identifier"@, 0) {
        Some(i) => Some(SymbolView {
            name: seq!['-'] + n.children@[i].text@,
            detail: Some("(removed)"@),
            kind: SymbolKind::Field,
            deprecated: true,
            range: span_range(text, n.start_byte, n.end_byte),
            selection_range: span_range(text, n.children@[i].start_byte, n.children@[i].end_byte),
            children: None,
        }),
        None => None,
    }
}

/// Extracts the outline entry of a field removal (see `field_removal_symbol`).
pub fn extract_field_removal_symbol(n: &SyntaxNode, text: &str) -> (r: Option<DocumentSymbol>)
    requires
        positions_fit(text@),
    ensures
        match r {
            Some(s) => field_removal_symbol(*n, text@) == Some(symbol_view(s)),
            None => field_removal_symbol(*n, text@) is None,
        },
{
    let i = match find_first_of_kind(&n.children, "identifier") {
        Some(i) => i,
        None => { return None; },
    };
    let mut name: Vec<char> = Vec::new();
    name.push('-');
    push_str(&mut name, n.children[i].text.as_str());
    let r = DocumentSymbol {
        name: string_from_chars(name.as_slice()),
        detail: Some("(removed)".to_string()),
        kind: SymbolKind::Field,
        deprecated: true,
        range: byte_span_to_lsp_range(text, n.start_byte, n.end_byte),
        selection_range: byte_span_to_lsp_range(text, n.children[i].start_byte, n.children[i].end_byte),
        children: None,
    };
    proof {
        let v = symbol_view(r);
        assert(v.name =~= seq!['-'] + n.children@[i as int].text@);
    }
    Some(r)
}

/// The outline entries of the fields and field removals of a model body, in order.
pub open spec fn field_symbols(s: Seq<SyntaxNode>, text: Seq<char>) -> Seq<SymbolView>
    decreases s.len(),
{
    if s.len() == 0 {
        Seq::empty()
    } else {
        let last = s.last();
        let entry = if last.kind@ == "field_definition"@ {
            field_symbol(last, text)
        } else if last.kind@ == "field_removal"@ {
            field_removal_symbol(last, text)
        } else {
            None
        };
        match entry {
            Some(e) => field_symbols(s.drop_last(), text).push(e),
            None => field_symbols(s.drop_last(), text),
        }
    }
}

/// Extracts the outline entries of a model body's fields (see `field_symbols`).
pub fn extract_field_symbols(body: &SyntaxNode, text: &str) -> (r: Vec<DocumentSymbol>)
    requires
        positions_fit(text@),
    ensures
        symbol_views(r@) == field_symbols(body.children@, text@),
{
    let mut out: Vec<DocumentSymbol> = Vec::new();
    let mut i: usize = 0;
    proof { assert(body.children@.take(0) =~= Seq::<SyntaxNode>::empty()); }
    while i < body.children.len()
        invariant
            positions_fit(text@),
            i <= body.children@.len(),
            symbol_views(out@) == field_symbols(body.children@.take(i as int), text@),
        decreases body.children@.len() - i,
    {
        let c = &body.children[i];
        proof {
            assert(body.children@.take(i + 1).drop_last() =~= body.children@.take(i as int));
            assert(body.children@.take(i + 1).last() == body.children@[i as int]);
        }
        let entry = if c.is_kind("field_definition") {
            extract_field_symbol(c, text)
        } else if c.is_kind("field_removal") {
            extract_field_removal_symbol(c, text)
        } else {
            None
        };
        match entry {
            Some(e) => {
                let ghost before = out@;
                out.push(e);
                proof { assert(out@.drop_last() =~= before); }
            },
            None => {},
        }
        i = i + 1;
    }
    proof { assert(body.children@.take(i as int) =~= body.children@); }
    out
}

/// The outline entry of a model: its first identifier, `extends` and its parents as
/// detail (from its last extends clause), and its fields as children (from its last
/// body), when it has any.
pub open spec fn model_symbol(n: SyntaxNode, text: Seq<char>) -> Option<SymbolView> {
    match first_of_kind(n.children@, "identifier"@, 0) {
        Some(i) => {
            let parents = match last_of_kind(n.children@, "extends_clause"@, n.children@.len() as int) {
                Some(e) => identifier_texts(n.children@[e].children@),
                None => Seq::empty(),
            };
            let fields = match last_of_kind(n.children@, "model_body"@, n.children@.len() as int) {
                Some(b) => field_symbols(n.children@[b].children@, text),
                None => Seq::empty(),
            };
            Some(SymbolView {
                name: n.children@[i].text@,
                detail: if parents.len() == 0 {
                    None
                } else {
                    Some("extends "@ + joined(parents, seq![',', ' ']))
                },
                kind: SymbolKind::Class,
                deprecated: false,
                range: span_range(text, n.start_byte, n.end_byte),
                selection_range: span_range(text, n.children@[i].start_byte, n.children@[i].end_byte),
                children: if fields.len() == 0 { None } else { Some(fields) },
            })
        },
        None => None,
    }
}

/// Extracts the outline entry of a model (see `model_symbol`).
pub fn extract_model_symbol(n: &SyntaxNode, text: &str) -> (r: Option<DocumentSymbol>)
    requires
        positions_fit(text@),
    ensures
        match r {
            Some(s) => model_symbol(*n, text@) == Some(symbol_view(s)),
            None => model_symbol(*n, text@) is None,
        },
{
    let i = match find_first_of_kind(&n.children, "identifier") {
        Some(i) => i,
        None => { return None; },
    };
    let parents: Vec<String> = match find_last_of_kind(&n.children, "extends_clause") {
        Some(e) => extract_extends(&n.children[e]),
        None => Vec::new(),
    };
    let ghost pv = parents@.map_values(|s: String| s@);
    let detail = if parents.len() == 0 {
        None
    } else {
        let mut d: Vec<char> = Vec::new();
        push_str(&mut d, "extends ");
        let mut k: usize = 0;
        proof { assert(pv.take(0) =~= Seq::<Seq<char>>::empty()); }
        let ghost head = d@;
        while k < parents.len()
            invariant
                pv == parents@.map_values(|s: String| s@),
                k <= parents@.len(),
                d@ == head + joined(pv.take(k as int), seq![',', ' ']),
            decreases parents@.len() - k,
        {
            proof {
                assert(pv.take(k + 1) =~= pv.take(k as int).push(pv[k as int]));
                crate::format_text::lemma_joined_push(pv.take(k as int), seq![',', ' '], pv[k as int]);
            }
            if k > 0 {
                d.push(',');
                d.push(' ');
            }
            push_str(&mut d, parents[k].as_str());
            k = k + 1;
            proof { assert(d@ =~= head + joined(pv.take(k as int), seq![',', ' '])); }
        }
        proof {
            assert(pv.take(k as int) =~= pv);
            reveal_strlit("extends ");
        }
        Some(string_from_chars(d.as_slice()))
    };
    let fields: Vec<DocumentSymbol> = match find_last_of_kind(&n.children, "model_body") {
        Some(b) => extract_field_symbols(&n.children[b], text),
        None => Vec::new(),
    };
    let children = if fields.len() == 0 { None } else { Some(fields) };
    let r = DocumentSymbol {
        name: n.children[i].text.clone(),
        detail,
        kind: SymbolKind::Class,
        deprecated: false,
        range: byte_span_to_lsp_range(text, n.start_byte, n.end_byte),
        selection_range: byte_span_to_lsp_range(text, n.children[i].start_byte, n.children[i].end_byte),
        children,
    };
    proof {
        let v = symbol_view(r);
        assert(symbol_views(Seq::<DocumentSymbol>::empty()) =~= Seq::<SymbolView>::empty());
        assert(v == model_symbol(*n, text@)->0);
    }
    Some(r)
}

/// The outline of a document: its type aliases and models, in order.
pub open spec fn document_symbols(s: Seq<SyntaxNode>, text: Seq<char>) -> Seq<SymbolView>
    decreases s.len(),
{
    if s.len() == 0 {
        Seq::empty()
    } else {
        let last = s.last();
        let entry = if last.kind@ == "type_alias"@ {
            type_alias_symbol(last, text)
        } else if last.kind@ == "model_definition"@ {
            model_symbol(last, text)
        } else {
            None
        };
        match entry {
            Some(e) => document_symbols(s.drop_last(), text).push(e),
            None => document_symbols(s.drop_last(), text),
        }
    }
}

/// Computes the outline of a parsed document (see `document_symbols`).
pub fn compute_document_symbols(root: &SyntaxNode, text: &str) -> (r: Vec<DocumentSymbol>)
    requires
        positions_fit(text@),
    ensures
        symbol_views(r@) == document_symbols(root.children@, text@),
{
    let mut out: Vec<DocumentSymbol> = Vec::new();
    let mut i: usize = 0;
    proof { assert(root.children@.take(0) =~= Seq::<SyntaxNode>::empty()); }
    while i < root.children.len()
        invariant
            positions_fit(text@),
            i <= root.children@.len(),
            symbol_views(out@) == document_symbols(root.children@.take(i as int), text@),
        decreases root.children@.len() - i,
    {
        let c = &root.children[i];
        proof {
            assert(root.children@.take(i + 1).drop_last() =~= root.children@.take(i as int));
            assert(root.children@.take(i + 1).last() == root.children@[i as int]);
        }
        let entry = if c.is_kind("type_alias") {
            extract_type_alias_symbol(c, text)
        } else if c.is_kind("model_definition") {
            extract_model_symbol(c, text)
        } else {
            None
        };
        match entry {
            Some(e) => {
                let ghost before = out@;
                out.push(e);
                proof { assert(out@.drop_last() =~= before); }
            },
            None => {},
        }
        i = i + 1;
    }
    proof { assert(root.children@.take(i as int) =~= root.children@); }
    out
}

} // verus!
