use vstd::prelude::*;

use crate::paths::str_eq;
use crate::syntax::SyntaxNode;

verus! {

// Token type indices into the legend.
pub const TOKEN_COMMENT: u32 = 0;
pub const TOKEN_KEYWORD: u32 = 1;
pub const TOKEN_STRING: u32 = 2;
pub const TOKEN_NUMBER: u32 = 3;
pub const TOKEN_OPERATOR: u32 = 4;
pub const TOKEN_TYPE: u32 = 5;
pub const TOKEN_CLASS: u32 = 6;
pub const TOKEN_PROPERTY: u32 = 7;
/// Used for entity IDs.
pub const TOKEN_PARAMETER: u32 = 8;
pub const TOKEN_VARIABLE: u32 = 9;
pub const TOKEN_FUNCTION: u32 = 10;
/// Used for plugin names.
pub const TOKEN_MACRO: u32 = 11;
/// Used for string literals in unions.
pub const TOKEN_ENUM_MEMBER: u32 = 12;

// Modifier bit flags.
pub const MODIFIER_DECLARATION: u32 = 1;
pub const MODIFIER_DEFINITION: u32 = 2;
pub const MODIFIER_READONLY: u32 = 4;
pub const MODIFIER_MODIFICATION: u32 = 16;

/// A semantic token in the protocol's relative encoding.
#[derive(Debug, Clone, Copy, PartialEq, Eq, Structural)]
pub struct SemanticToken {
    pub delta_line: u32,
    pub delta_start: u32,
    pub length: u32,
    pub token_type: u32,
    pub token_modifiers_bitset: u32,
}

/// A token at its absolute place, before relative encoding.
#[derive(Debug, Clone, Copy, PartialEq, Eq, Structural)]
pub struct RawToken {
    pub row: usize,
    pub column: usize,
    pub length: usize,
    pub token_type: u32,
    pub modifiers: u32,
}

/// The built-in CDM types.
pub open spec fn is_builtin_type_name(name: Seq<char>) -> bool {
    name == "string"@ || name == "number"@ || name == "boolean"@ || name == "JSON"@
}

/// Whether the name is a built-in CDM type.
pub fn is_builtin_type(name: &str) -> (r: bool)
    ensures
        r == is_builtin_type_name(name@),
{
    str_eq(name, "string") || str_eq(name, "number") || str_eq(name, "boolean") || str_eq(name, "JSON")
}

/// Structural node kinds that carry no token of their own.
pub open spec fn is_container_kind(k: Seq<char>) -> bool {
    k == "source_file"@ || k == "model_body"@ || k == "plugin_block"@ || k == "_definition"@
        || k == "_model_member"@ || k == "_type_expression"@ || k == "_value"@ || k == "_union_member"@
        || k == "_default_value"@ || k == "type_alias"@ || k == "model_definition"@ || k == "field_definition"@
        || k == "union_type"@ || k == "array_type"@ || k == "type_identifier"@ || k == "extends_clause"@
        || k == "field_override"@ || k == "field_removal"@ || k == "model_removal"@ || k == "plugin_config"@
        || k == "plugin_import"@ || k == "object_literal"@ || k == "array_literal"@ || k == "object_entry"@
        || k == "extends_template"@ || k == "plugin_source"@ || k == "git_reference"@ || k == "plugin_path"@
}

/// A node emits a token when it is not a container, not missing, and not empty.
pub open spec fn emits_token(n: SyntaxNode) -> bool {
    !is_container_kind(n.kind@) && !n.is_missing && n.start_byte < n.end_byte
}

fn is_container(n: &SyntaxNode) -> (r: bool)
    ensures
        r == is_container_kind(n.kind@),
{
    n.is_kind("source_file") || n.is_kind("model_body") || n.is_kind("plugin_block") || n.is_kind("_definition")
        || n.is_kind("_model_member") || n.is_kind("_type_expression") || n.is_kind("_value") || n.is_kind("_union_member")
        || n.is_kind("_default_value") || n.is_kind("type_alias") || n.is_kind("model_definition") || n.is_kind("field_definition")
        || n.is_kind("union_type") || n.is_kind("array_type") || n.is_kind("type_identifier") || n.is_kind("extends_clause")
        || n.is_kind("field_override") || n.is_kind("field_removal") || n.is_kind("model_removal") || n.is_kind("plugin_config")
        || n.is_kind("plugin_import") || n.is_kind("object_literal") || n.is_kind("array_literal") || n.is_kind("object_entry")
        || n.is_kind("extends_template") || n.is_kind("plugin_source") || n.is_kind("git_reference") || n.is_kind("plugin_path")
}

/// Whether a node should emit a semantic token (see `emits_token`).
pub fn should_emit_token(n: &SyntaxNode) -> (r: bool)
    ensures
        r == emits_token(*n),
{
    !is_container(n) && !n.is_missing && n.start_byte < n.end_byte
}

/// Whether a node kind is an operator or punctuation token.
pub open spec fn is_operator_kind(k: Seq<char>) -> bool {
    k == "?"@ || k == "|"@ || k == "="@ || k == "-"@ || k == ":"@ || k == "["@ || k == "]"@ || k == "{"@
        || k == "}"@ || k == "("@ || k == ")"@ || k == ","@ || k == "@"@
}

/// The token of an identifier, by the kind of its parent.
pub open spec fn identifier_token(parent: Seq<char>, text: Seq<char>) -> Option<(u32, u32)> {
    if parent == "template_import"@ {
        Some((TOKEN_VARIABLE, 0u32))
    } else if parent == "plugin_import"@ || parent == "plugin_config"@ {
        Some((TOKEN_MACRO, 0u32))
    } else if parent == "type_identifier"@ {
        if is_builtin_type_name(text) { Some((TOKEN_TYPE, MODIFIER_READONLY)) } else { Some((TOKEN_TYPE, 0u32)) }
    } else if parent == "array_type"@ {
        if is_builtin_type_name(text) { Some((TOKEN_TYPE, MODIFIER_READONLY)) } else { Some((TOKEN_CLASS, 0u32)) }
    } else if parent == "model_definition"@ {
        Some((TOKEN_CLASS, MODIFIER_DEFINITION))
    } else if parent == "type_alias"@ {
        Some((TOKEN_TYPE, MODIFIER_DEFINITION))
    } else if parent == "field_definition"@ {
        Some((TOKEN_PROPERTY, MODIFIER_DEFINITION))
    } else if parent == "field_removal"@ || parent == "model_removal"@ {
        Some((TOKEN_VARIABLE, MODIFIER_MODIFICATION))
    } else if parent == "extends_clause"@ {
        Some((TOKEN_CLASS, 0u32))
    } else if parent == "field_override"@ {
        Some((TOKEN_PROPERTY, MODIFIER_MODIFICATION))
    } else if parent == "object_entry"@ {
        Some((TOKEN_PROPERTY, 0u32))
    } else {
        None
    }
}

/// The token type and modifiers of a node, given its parent's kind (empty for the root)
/// and whether it lies inside a union type.
pub open spec fn token_info(n: SyntaxNode, parent: Seq<char>, in_union: bool) -> Option<(u32, u32)> {
    let k = n.kind@;
    if k == "comment"@ {
        Some((TOKEN_COMMENT, 0u32))
    } else if k == "extends"@ || k == "import"@ || k == "from"@ {
        Some((TOKEN_KEYWORD, 0u32))
    } else if k == "local_path"@ || k == "registry_name"@ || k == "git_url"@ {
        Some((TOKEN_STRING, 0u32))
    } else if k == "string_literal"@ {
        if in_union { Some((TOKEN_ENUM_MEMBER, MODIFIER_READONLY)) } else { Some((TOKEN_STRING, 0u32)) }
    } else if k == "number_literal"@ || k == "boolean_literal"@ {
        Some((TOKEN_NUMBER, 0u32))
    } else if is_operator_kind(k) {
        Some((TOKEN_OPERATOR, 0u32))
    } else if k == "model_definition"@ {
        if crate::syntax::field_child(n, "name"@) is Some { Some((TOKEN_CLASS, MODIFIER_DEFINITION)) } else { None }
    } else if k == "type_alias"@ {
        if crate::syntax::field_child(n, "name"@) is Some { Some((TOKEN_TYPE, MODIFIER_DEFINITION)) } else { None }
    } else if k == "field_definition"@ {
        if crate::syntax::field_child(n, "name"@) is Some { Some((TOKEN_PROPERTY, MODIFIER_DEFINITION)) } else { None }
    } else if k == "identifier"@ {
        identifier_token(parent, n.text@)
    } else if k == "type_identifier"@ {
        if is_builtin_type_name(n.text@) { Some((TOKEN_TYPE, MODIFIER_READONLY)) } else { Some((TOKEN_TYPE, 0u32)) }
    } else if k == "entity_id"@ {
        Some((TOKEN_PARAMETER, MODIFIER_READONLY))
    } else if k == "extends_template"@ {
        Some((TOKEN_KEYWORD, 0u32))
    } else {
        None
    }
}

fn identifier_token_of(parent: &str, text: &str) -> (r: Option<(u32, u32)>)
    ensures
        r == identifier_token(parent@, text@),
{
    if str_eq(parent, "template_import") {
        Some((TOKEN_VARIABLE, 0))
    } else if str_eq(parent, "plugin_import") || str_eq(parent, "plugin_config") {
        Some((TOKEN_MACRO, 0))
    } else if str_eq(parent, "type_identifier") {
        if is_builtin_type(text) { Some((TOKEN_TYPE, MODIFIER_READONLY)) } else { Some((TOKEN_TYPE, 0)) }
    } else if str_eq(parent, "array_type") {
        if is_builtin_type(text) { Some((TOKEN_TYPE, MODIFIER_READONLY)) } else { Some((TOKEN_CLASS, 0)) }
    } else if str_eq(parent, "model_definition") {
        Some((TOKEN_CLASS, MODIFIER_DEFINITION))
    } else if str_eq(parent, "type_alias") {
        Some((TOKEN_TYPE, MODIFIER_DEFINITION))
    } else if str_eq(parent, "field_definition") {
        Some((TOKEN_PROPERTY, MODIFIER_DEFINITION))
    } else if str_eq(parent, "field_removal") || str_eq(parent, "model_removal") {
        Some((TOKEN_VARIABLE, MODIFIER_MODIFICATION))
    } else if str_eq(parent, "extends_clause") {
        Some((TOKEN_CLASS, 0))
    } else if str_eq(parent, "field_override") {
        Some((TOKEN_PROPERTY, MODIFIER_MODIFICATION))
    } else if str_eq(parent, "object_entry") {
        Some((TOKEN_PROPERTY, 0))
    } else {
        None
    }
}

fn is_operator(n: &SyntaxNode) -> (r: bool)
    ensures
        r == is_operator_kind(n.kind@),
{
    n.is_kind("?") || n.is_kind("|") || n.is_kind("=") || n.is_kind("-") || n.is_kind(":") || n.is_kind("[")
        || n.is_kind("]") || n.is_kind("{") || n.is_kind("}") || n.is_kind("(") || n.is_kind(")") || n.is_kind(",")
        || n.is_kind("@")
}

/// The semantic token type and modifiers of a node (see `token_info`).
pub fn get_token_info(n: &SyntaxNode, parent: &str, in_union: bool) -> (r: Option<(u32, u32)>)
    ensures
        r == token_info(*n, parent@, in_union),
{
    proof { reveal_strlit("name"); }
    if n.is_kind("comment") {
        Some((TOKEN_COMMENT, 0))
    } else if n.is_kind("extends") || n.is_kind("import") || n.is_kind("from") {
        Some((TOKEN_KEYWORD, 0))
    } else if n.is_kind("local_path") || n.is_kind("registry_name") || n.is_kind("git_url") {
        Some((TOKEN_STRING, 0))
    } else if n.is_kind("string_literal") {
        if in_union { Some((TOKEN_ENUM_MEMBER, MODIFIER_READONLY)) } else { Some((TOKEN_STRING, 0)) }
    } else if n.is_kind("number_literal") || n.is_kind("boolean_literal") {
        Some((TOKEN_NUMBER, 0))
    } else if is_operator(n) {
        Some((TOKEN_OPERATOR, 0))
    } else if n.is_kind("model_definition") {
        if n.child_by_field_name("name").is_some() { Some((TOKEN_CLASS, MODIFIER_DEFINITION)) } else { None }
    } else if n.is_kind("type_alias") {
        if n.child_by_field_name("name").is_some() { Some((TOKEN_TYPE, MODIFIER_DEFINITION)) } else { None }
    } else if n.is_kind("field_definition") {
        if n.child_by_field_name("name").is_some() { Some((TOKEN_PROPERTY, MODIFIER_DEFINITION)) } else { None }
    } else if n.is_kind("identifier") {
        identifier_token_of(parent, n.text.as_str())
    } else if n.is_kind("type_identifier") {
        if is_builtin_type(n.text.as_str()) { Some((TOKEN_TYPE, MODIFIER_READONLY)) } else { Some((TOKEN_TYPE, 0)) }
    } else if n.is_kind("entity_id") {
        Some((TOKEN_PARAMETER, MODIFIER_READONLY))
    } else if n.is_kind("extends_template") {
        Some((TOKEN_KEYWORD, 0))
    } else {
        None
    }
}

/// The tokens of a subtree in document order (the node before its children), given the
/// node's parent kind and whether the node lies inside a union type.
pub open spec fn raw_tokens(n: SyntaxNode, parent: Seq<char>, in_union: bool) -> Seq<RawToken>
    decreases n,
{
    (match token_info(n, parent, in_union) {
        Some((t, m)) => if emits_token(n) {
            seq![RawToken {
                row: n.start_row,
                column: n.start_column,
                length: (n.end_byte - n.start_byte) as usize,
                token_type: t,
                modifiers: m,
            }]
        } else {
            Seq::empty()
        },
        None => Seq::empty(),
    }) + children_tokens(n.children@, n.kind@, in_union || n.kind@ == "union_type"@)
}

/// The tokens of a list of sibling subtrees, in order.
pub open spec fn children_tokens(s: Seq<SyntaxNode>, parent: Seq<char>, in_union: bool) -> Seq<RawToken>
    decreases s,
{
    if s.len() == 0 {
        Seq::empty()
    } else {
        children_tokens(s.drop_last(), parent, in_union) + raw_tokens(s.last(), parent, in_union)
    }
}

/// Collects the tokens of a subtree (see `raw_tokens`).
pub fn traverse_node(n: &SyntaxNode, parent: &str, in_union: bool, out: &mut Vec<RawToken>)
    ensures
        final(out)@ == old(out)@ + raw_tokens(*n, parent@, in_union),
    decreases n,
{
    let ghost start = out@;
    if should_emit_token(n) {
        match get_token_info(n, parent, in_union) {
            Some((t, m)) => {
                out.push(RawToken { row: n.start_row, column: n.start_column, length: n.end_byte - n.start_byte, token_type: t, modifiers: m });
            },
            None => {},
        }
    }
    let ghost head = out@;
    let child_union = in_union || n.is_kind("union_type");
    let mut i: usize = 0;
    proof { assert(n.children@.take(0) =~= Seq::<SyntaxNode>::empty()); }
    while i < n.children.len()
        invariant
            i <= n.children@.len(),
            out@ == head + children_tokens(n.children@.take(i as int), n.kind@, child_union),
        decreases n.children@.len() - i,
    {
        proof {
            assert(n.children@.take(i + 1).drop_last() =~= n.children@.take(i as int));
            assert(n.children@.take(i + 1).last() == n.children@[i as int]);
            let x = *n;
            assert(decreases_to!(x => x.children@[i as int]));
        }
        traverse_node(&n.children[i], n.kind.as_str(), child_union, out);
        i = i + 1;
        proof {
            assert(out@ =~= head + children_tokens(n.children@.take(i as int), n.kind@, child_union));
        }
    }
    proof {
        assert(n.children@.take(i as int) =~= n.children@);
        assert(out@ =~= start + raw_tokens(*n, parent@, in_union));
    }
}

/// The line and character of the token before token `i` (the document start for the
/// first), as the protocol's 32-bit numbers.
pub open spec fn previous_place(raws: Seq<RawToken>, i: int) -> (u32, u32) {
    if i == 0 { (0u32, 0u32) } else { (raws[i - 1].row as u32, raws[i - 1].column as u32) }
}

/// Each token starts at or after the one before it.
pub open spec fn tokens_in_order(raws: Seq<RawToken>) -> bool {
    forall|i: int| 0 <= i < raws.len() ==> {
        let p = #[trigger] previous_place(raws, i);
        &&& p.0 <= (raws[i].row as u32)
        &&& p.0 == (raws[i].row as u32) ==> p.1 <= (raws[i].column as u32)
    }
}

/// Token `i` relative to the one before it: lines since it, and columns since it on the
/// same line (else from the line start).
pub open spec fn encoded_token(raws: Seq<RawToken>, i: int) -> SemanticToken {
    let p = previous_place(raws, i);
    let row = raws[i].row as u32;
    let col = raws[i].column as u32;
    SemanticToken {
        delta_line: (row - p.0) as u32,
        delta_start: if row == p.0 { (col - p.1) as u32 } else { col },
        length: raws[i].length as u32,
        token_type: raws[i].token_type,
        token_modifiers_bitset: raws[i].modifiers,
    }
}

/// The absolute place (line, character) of token `i` as a client reads the relative
/// encoding back: the line adds up the line deltas; the character adds the start delta to
/// the character of the token before when both lie on one line, else is the start delta.
pub open spec fn decoded_place(toks: Seq<SemanticToken>, i: nat) -> (int, int)
    decreases i,
{
    let before = if i == 0 { (0int, 0int) } else { decoded_place(toks, (i - 1) as nat) };
    let t = toks[i as int];
    (before.0 + t.delta_line, if t.delta_line == 0 { before.1 + t.delta_start } else { t.delta_start as int })
}

/// Reading the encoding back from the start gives every token's own place.
proof fn lemma_decoded_place(raws: Seq<RawToken>, toks: Seq<SemanticToken>, i: nat)
    requires
        tokens_in_order(raws),
        toks.len() == raws.len(),
        forall|j: int| 0 <= j < raws.len() ==> #[trigger] toks[j] == encoded_token(raws, j),
        i < raws.len(),
    ensures
        decoded_place(toks, i) == (raws[i as int].row as u32 as int, raws[i as int].column as u32 as int),
    decreases i,
{
    if i > 0 {
        lemma_decoded_place(raws, toks, (i - 1) as nat);
    }
    let p = previous_place(raws, i as int);
    assert(p.0 <= (raws[i as int].row as u32));
    assert(toks[i as int] == encoded_token(raws, i as int));
}

/// Encodes the tokens relative to each other, as the protocol sends them. Read back in
/// order, the encoding gives each token at its own line and character, with its own
/// length, type and modifiers.
pub fn encode_tokens(raws: &Vec<RawToken>) -> (r: Vec<SemanticToken>)
    requires
        tokens_in_order(raws@),
    ensures
        r@.len() == raws@.len(),
        forall|i: int| 0 <= i < raws@.len() ==> #[trigger] r@[i] == encoded_token(raws@, i),
        forall|i: nat| i < raws@.len() ==> #[trigger] decoded_place(r@, i)
            == (raws@[i as int].row as u32 as int, raws@[i as int].column as u32 as int),
        forall|i: int| 0 <= i < raws@.len() ==> {
            &&& (#[trigger] r@[i]).length == raws@[i].length as u32
            &&& r@[i].token_type == raws@[i].token_type
            &&& r@[i].token_modifiers_bitset == raws@[i].modifiers
        },
{
    let mut out: Vec<SemanticToken> = Vec::new();
    let mut prev_line: u32 = 0;
    let mut prev_start: u32 = 0;
    let mut i: usize = 0;
    while i < raws.len()
        invariant
            tokens_in_order(raws@),
            i <= raws@.len(),
            out@.len() == i,
            (prev_line, prev_start) == previous_place(raws@, i as int),
            forall|j: int| 0 <= j < i ==> #[trigger] out@[j] == encoded_token(raws@, j),
        decreases raws@.len() - i,
    {
        let t = raws[i];
        let row = #[verifier::truncate] (t.row as u32);
        let col = #[verifier::truncate] (t.column as u32);
        proof { assert(previous_place(raws@, i as int) == (prev_line, prev_start)); }
        let delta_line = row - prev_line;
        let delta_start = if delta_line == 0 { col - prev_start } else { col };
        out.push(SemanticToken {
            delta_line,
            delta_start,
            length: #[verifier::truncate] (t.length as u32),
            token_type: t.token_type,
            token_modifiers_bitset: t.modifiers,
        });
        prev_line = row;
        prev_start = col;
        i = i + 1;
    }
    proof {
        assert forall|k: nat| k < raws@.len() implies #[trigger] decoded_place(out@, k)
            == (raws@[k as int].row as u32 as int, raws@[k as int].column as u32 as int) by {
            lemma_decoded_place(raws@, out@, k);
        }
    }
    out
}

/// The semantic tokens of a parsed document, relative-encoded.
pub fn compute_semantic_tokens(root: &SyntaxNode) -> (r: Vec<SemanticToken>)
    requires
        tokens_in_order(raw_tokens(*root, Seq::empty(), false)),
    ensures
        r@.len() == raw_tokens(*root, Seq::empty(), false).len(),
        forall|i: int| 0 <= i < r@.len() ==> #[trigger] r@[i] == encoded_token(raw_tokens(*root, Seq::empty(), false), i),
        forall|i: nat| i < r@.len() ==> #[trigger] decoded_place(r@, i) == (
            raw_tokens(*root, Seq::empty(), false)[i as int].row as u32 as int,
            raw_tokens(*root, Seq::empty(), false)[i as int].column as u32 as int,
        ),
{
    let mut raws: Vec<RawToken> = Vec::new();
    traverse_node(root, "", false, &mut raws);
    proof {
        reveal_strlit("");
        assert(""@ =~= Seq::<char>::empty());
        assert(raws@ =~= raw_tokens(*root, Seq::empty(), false));
    }
    encode_tokens(&raws)
}

} // verus!
