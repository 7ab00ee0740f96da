use vstd::prelude::*;

use crate::lsp::utf8_len;
use vstd::string::StringSliceAdditionalSpecFns;
use crate::syntax::{field_child, field_text, field_text_or_empty, SyntaxNode};
use crate::tree_path::{follow, node_at, valid_path};

verus! {

/// The settings level that a plugin configuration block belongs to.
#[derive(Debug, Clone, PartialEq, Eq)]
pub enum ConfigLevel {
    Global,
    TypeAlias { name: String },
    Model { name: String },
    Field { model: String, field: String },
}

/// A configuration level by its names' texts.
pub enum LevelView {
    Global,
    TypeAlias(Seq<char>),
    Model(Seq<char>),
    Field(Seq<char>, Seq<char>),
}

pub open spec fn level_view(l: ConfigLevel) -> LevelView {
    match l {
        ConfigLevel::Global => LevelView::Global,
        ConfigLevel::TypeAlias { name } => LevelView::TypeAlias(name@),
        ConfigLevel::Model { name } => LevelView::Model(name@),
        ConfigLevel::Field { model, field } => LevelView::Field(model@, field@),
    }
}

/// The kind of completion that suits the cursor position.
#[derive(Debug, Clone, PartialEq, Eq)]
pub enum CompletionContext {
    /// Inside a type expression (field type, type alias).
    TypeExpression,
    /// Inside an extends clause.
    ExtendsClause,
    /// Inside a plugin directive.
    PluginDirective,
    /// At the top level of the document.
    TopLevel,
    /// Inside a plugin config object, where a field name goes.
    PluginConfigField { plugin_name: String, config_level: ConfigLevel },
    /// After a field name inside a plugin config object, where its value goes.
    PluginConfigValue { plugin_name: String, config_level: ConfigLevel, field_name: String },
    /// No completions (right after a comma in a plugin config).
    SuppressCompletions,
    /// Anything else.
    Unknown,
}

/// A completion context by its texts.
pub enum ContextView {
    TypeExpression,
    ExtendsClause,
    PluginDirective,
    TopLevel,
    PluginConfigField(Seq<char>, LevelView),
    PluginConfigValue(Seq<char>, LevelView, Seq<char>),
    SuppressCompletions,
    Unknown,
}

pub open spec fn context_view(c: CompletionContext) -> ContextView {
    match c {
        CompletionContext::TypeExpression => ContextView::TypeExpression,
        CompletionContext::ExtendsClause => ContextView::ExtendsClause,
        CompletionContext::PluginDirective => ContextView::PluginDirective,
        CompletionContext::TopLevel => ContextView::TopLevel,
        CompletionContext::PluginConfigField { plugin_name, config_level } =>
            ContextView::PluginConfigField(plugin_name@, level_view(config_level)),
        CompletionContext::PluginConfigValue { plugin_name, config_level, field_name } =>
            ContextView::PluginConfigValue(plugin_name@, level_view(config_level), field_name@),
        CompletionContext::SuppressCompletions => ContextView::SuppressCompletions,
        CompletionContext::Unknown => ContextView::Unknown,
    }
}

pub open spec fn opt_context_view(c: Option<CompletionContext>) -> Option<ContextView> {
    match c {
        Some(x) => Some(context_view(x)),
        None => None,
    }
}

// ---------------------------------------------------------------------------
// Text before the cursor
// ---------------------------------------------------------------------------

/// Whether a character is white space (`char::is_whitespace`: Unicode White_Space).
pub open spec fn is_white(c: char) -> bool {
    let v = c as u32;
    (0x9 <= v && v <= 0xd) || v == 0x20 || v == 0x85 || v == 0xa0 || v == 0x1680
        || (0x2000 <= v && v <= 0x200a) || v == 0x2028 || v == 0x2029 || v == 0x202f || v == 0x205f || v == 0x3000
}

fn char_is_white(c: char) -> (r: bool)
    ensures
        r == is_white(c),
{
    let v = c as u32;
    (0x9 <= v && v <= 0xd) || v == 0x20 || v == 0x85 || v == 0xa0 || v == 0x1680
        || (0x2000 <= v && v <= 0x200a) || v == 0x2028 || v == 0x2029 || v == 0x202f || v == 0x205f || v == 0x3000
}

/// The text without its trailing white space (`str::trim_end`).
pub open spec fn trim_end_white(s: Seq<char>) -> Seq<char>
    decreases s.len(),
{
    if s.len() > 0 && is_white(s.last()) { trim_end_white(s.drop_last()) } else { s }
}

/// The characters of the text that lie within its first `offset` bytes, looking from
/// character `j` on.
pub open spec fn chars_within(s: Seq<char>, offset: nat, j: int) -> Seq<char>
    decreases s.len() - j,
{
    if 0 <= j < s.len() && utf8_len(s.take(j + 1)) <= offset { chars_within(s, offset, j + 1) } else { s.take(j) }
}

/// The text before the byte offset.
pub open spec fn text_before(text: Seq<char>, offset: nat) -> Seq<char> {
    chars_within(text, offset, 0)
}

proof fn lemma_utf8_step(s: Seq<char>, j: int)
    requires
        0 <= j < s.len(),
    ensures
        utf8_len(s.take(j + 1)) == utf8_len(s.take(j)) + crate::lsp::utf8_width(s[j]),
{
    assert(s.take(j + 1).drop_last() =~= s.take(j));
}

fn chars_before(text: &str, offset: usize) -> (r: Vec<char>)
    ensures
        r@ == text_before(text@, offset as nat),
{
    let s = crate::text::chars_of(text);
    let mut j: usize = 0;
    let mut bytes: usize = 0;
    while j < s.len()
        invariant
            s@ == text@,
            j <= s@.len(),
            bytes == utf8_len(s@.take(j as int)),
            bytes <= offset,
            text_before(text@, offset as nat) == chars_within(s@, offset as nat, j as int),
        ensures
            j <= s@.len(),
            text_before(text@, offset as nat) == s@.take(j as int),
        decreases s@.len() - j,
    {
        let w = crate::lsp::utf8_width_of(s[j]);
        proof { lemma_utf8_step(s@, j as int); }
        if w > offset - bytes {
            break;
        }
        bytes = bytes + w;
        j = j + 1;
    }
    let mut out: Vec<char> = Vec::new();
    let mut k: usize = 0;
    while k < j
        invariant
            j <= s@.len(),
            k <= j,
            out@ == s@.take(k as int),
        decreases j - k,
    {
        out.push(s[k]);
        k = k + 1;
        proof { assert(out@ =~= s@.take(k as int)); }
    }
    out
}

pub fn trim_end_chars(s: &Vec<char>) -> (n: usize)
    ensures
        n <= s@.len(),
        s@.take(n as int) == trim_end_white(s@),
{
    let mut n: usize = s.len();
    proof { assert(s@.take(n as int) =~= s@); }
    while n > 0 && char_is_white(s[n - 1])
        invariant
            n <= s@.len(),
            trim_end_white(s@) == trim_end_white(s@.take(n as int)),
        decreases n,
    {
        proof {
            assert(s@.take(n as int).drop_last() =~= s@.take(n - 1));
            assert(s@.take(n as int).last() == s@[n - 1]);
        }
        n = n - 1;
    }
    n
}

/// The cursor follows a colon, with only white space between.
pub open spec fn after_colon(text: Seq<char>, offset: nat) -> bool {
    offset != 0 && {
        let t = trim_end_white(text_before(text, offset));
        t.len() > 0 && t.last() == ':'
    }
}

/// Whether the cursor follows a colon (see `after_colon`).
pub fn is_after_colon(text: &str, offset: usize) -> (r: bool)
    ensures
        r == after_colon(text@, offset as nat),
{
    if offset == 0 {
        return false;
    }
    let before = chars_before(text, offset);
    let n = trim_end_chars(&before);
    n > 0 && before[n - 1] == ':'
}

/// Plugin field completions show except right after a comma: after a comma there must be
/// a space, tab or line break before the cursor.
pub open spec fn shows_field_completions(text: Seq<char>, offset: nat) -> bool {
    if offset == 0 {
        true
    } else {
        let before = text_before(text, offset);
        let t = trim_end_white(before);
        if t.len() > 0 && t.last() == ',' {
            exists|i: int| t.len() <= i < before.len()
                && (before[i] == ' ' || before[i] == '\n' || before[i] == '\r' || before[i] == '\t')
        } else {
            true
        }
    }
}

/// Whether plugin field completions show at the cursor (see `shows_field_completions`).
pub fn should_show_plugin_field_completions(text: &str, offset: usize) -> (r: bool)
    ensures
        r == shows_field_completions(text@, offset as nat),
{
    if offset == 0 {
        return true;
    }
    let before = chars_before(text, offset);
    let n = trim_end_chars(&before);
    if n > 0 && before[n - 1] == ',' {
        let mut i: usize = n;
        proof { assert(trim_end_white(before@).len() == n); }
        while i < before.len()
            invariant
                before@ == text_before(text@, offset as nat),
                offset != 0,
                before@.take(n as int) == trim_end_white(before@),
                n > 0,
                n <= before@.len(),
                before@[n - 1] == ',',
                n <= i <= before@.len(),
                forall|k: int| n <= k < i ==> !(before@[k] == ' ' || before@[k] == '\n' || before@[k] == '\r' || before@[k] == '\t'),
            decreases before@.len() - i,
        {
            let c = before[i];
            if c == ' ' || c == '\n' || c == '\r' || c == '\t' {
                proof {
                    let t = trim_end_white(before@);
                    assert(t.len() == n);
                    assert(t.last() == ',');
                    assert(n <= i < before@.len() && (before@[i as int] == ' ' || before@[i as int] == '\n' || before@[i as int] == '\r' || before@[i as int] == '\t'));
                }
                return true;
            }
            i = i + 1;
        }
        false
    } else {
        true
    }
}

// ---------------------------------------------------------------------------
// The configuration level of a plugin block
// ---------------------------------------------------------------------------

/// The level of a plugin config block, walking up from ancestor `k` of the chain (the
/// root first); `field` is the field met on the way, if any.
pub open spec fn level_from(chain: Seq<SyntaxNode>, k: int, field: Option<Seq<char>>) -> Option<LevelView>
    decreases k + 1,
{
    if k < 0 || k >= chain.len() {
        None
    } else {
        let n = chain[k];
        if n.kind@ == "plugin_block"@ {
            level_from(chain, k - 1, field)
        } else if n.kind@ == "type_alias"@ {
            Some(LevelView::TypeAlias(field_text_or_empty(n, "name"@)))
        } else if n.kind@ == "model_body"@ {
            Some(LevelView::Model(
                if k > 0 && chain[k - 1].kind@ == "model_definition"@ { field_text_or_empty(chain[k - 1], "name"@) } else { Seq::empty() },
            ))
        } else if n.kind@ == "field_definition"@ || n.kind@ == "field_override"@ {
            level_from(chain, k - 1, field_text(n, "name"@))
        } else if n.kind@ == "model_definition"@ {
            match field {
                Some(f) => Some(LevelView::Field(field_text_or_empty(n, "name"@), f)),
                None => level_from(chain, k - 1, field),
            }
        } else if n.kind@ == "source_file"@ {
            None
        } else {
            level_from(chain, k - 1, field)
        }
    }
}

/// The level of the plugin config block at depth `j` of the chain.
pub open spec fn config_level_of(chain: Seq<SyntaxNode>, j: int) -> Option<LevelView> {
    level_from(chain, j - 1, None)
}

fn opt_text(n: &SyntaxNode, name: &str) -> (r: Option<String>)
    ensures
        match r {
            Some(s) => field_text(*n, name@) == Some(s@),
            None => field_text(*n, name@) is None,
        },
{
    match n.child_by_field_name(name) {
        Some(c) => Some(c.text.clone()),
        None => None,
    }
}

/// Determines the configuration level of the plugin config block at depth `j` of the
/// path (see `config_level_of`).
pub fn determine_config_level(root: &SyntaxNode, path: &Vec<usize>, j: usize) -> (r: Option<ConfigLevel>)
    requires
        valid_path(*root, path@),
        j <= path@.len(),
    ensures
        match r {
            Some(l) => config_level_of(follow(*root, path@), j as int) == Some(level_view(l)),
            None => config_level_of(follow(*root, path@), j as int) is None,
        },
{
    proof { crate::tree_path::lemma_follow_len(*root, path@); }
    let ghost chain = follow(*root, path@);
    if j == 0 {
        return None;
    }
    let mut k: usize = j - 1;
    let mut field: Option<String> = None;
    proof { reveal_strlit("name"); }
    loop
        invariant
            valid_path(*root, path@),
            chain == follow(*root, path@),
            chain.len() == path@.len() + 1,
            k < chain.len(),
            config_level_of(chain, j as int) == level_from(chain, k as int, match field { Some(f) => Some(f@), None => None }),
        decreases k,
    {
        proof { reveal_with_fuel(level_from, 2); }
        let n = node_at(root, path, k);
        if n.is_kind("plugin_block") {
            if k == 0 {
                return None;
            }
            k = k - 1;
        } else if n.is_kind("type_alias") {
            return Some(ConfigLevel::TypeAlias { name: n.field_text_or_empty("name") });
        } else if n.is_kind("model_body") {
            let mut name = String::new();
            if k > 0 {
                let p = node_at(root, path, k - 1);
                if p.is_kind("model_definition") {
                    name = p.field_text_or_empty("name");
                }
            }
            proof { assert(name@ =~= (if k > 0 && chain[k - 1].kind@ == "model_definition"@ { field_text_or_empty(chain[k - 1], "name"@) } else { Seq::<char>::empty() })); }
            return Some(ConfigLevel::Model { name });
        } else if n.is_kind("field_definition") || n.is_kind("field_override") {
            field = opt_text(n, "name");
            if k == 0 {
                return None;
            }
            k = k - 1;
        } else if n.is_kind("model_definition") {
            match &field {
                Some(f) => {
                    return Some(ConfigLevel::Field { model: n.field_text_or_empty("name"), field: f.clone() });
                },
                None => {},
            }
            if k == 0 {
                return None;
            }
            k = k - 1;
        } else if n.is_kind("source_file") {
            return None;
        } else {
            if k == 0 {
                return None;
            }
            k = k - 1;
        }
    }
}

// ---------------------------------------------------------------------------
// Plugin configuration context
// ---------------------------------------------------------------------------

/// Some byte in `[from, to)` is a colon (nothing when the range does not fit).
pub open spec fn colon_between(bytes: Seq<u8>, from: nat, to: nat) -> bool {
    from <= to && to <= bytes.len() && exists|i: int| from <= i < to && bytes[i] == 58u8
}

fn has_colon(bytes: &[u8], from: usize, to: usize) -> (r: bool)
    ensures
        r == colon_between(bytes@, from as nat, to as nat),
{
    if !(from <= to && to <= bytes.len()) {
        return false;
    }
    let mut i: usize = from;
    while i < to
        invariant
            from <= i <= to,
            to <= bytes@.len(),
            forall|k: int| from <= k < i ==> bytes@[k] != 58u8,
        decreases to - i,
    {
        if bytes[i] == 58u8 {
            return true;
        }
        i = i + 1;
    }
    false
}

/// The field name that an object entry gives when the cursor sits in its value (after
/// the key and a colon), else the one found so far.
pub open spec fn entry_value_field(n: SyntaxNode, bytes: Seq<u8>, offset: nat, field: Option<Seq<char>>) -> Option<Seq<char>> {
    match field_child(n, "key"@) {
        Some(key) => if offset > key.end_byte
            && colon_between(bytes, key.end_byte as nat, if offset < n.end_byte { offset } else { n.end_byte as nat }) {
            Some(key.text@)
        } else {
            field
        },
        None => field,
    }
}

/// The context inside a plugin config block: the value of the field found, else field
/// names (or none right after a comma).
pub open spec fn block_context(plugin: Seq<char>, level: LevelView, text: Seq<char>, offset: nat, field: Option<Seq<char>>) -> ContextView {
    match field {
        Some(f) => ContextView::PluginConfigValue(plugin, level, f),
        None => if !shows_field_completions(text, offset) {
            ContextView::SuppressCompletions
        } else {
            ContextView::PluginConfigField(plugin, level)
        },
    }
}

/// What the walk up from the cursor decided: a context (or none), or that it ended
/// with the outermost object literal met, if any.
pub enum Walk {
    Decided(Option<ContextView>),
    Ended(Option<int>),
}

/// The walk up the chain from depth `k` looking for a plugin config block around the
/// cursor.
pub open spec fn detect_walk(chain: Seq<SyntaxNode>, k: int, text: Seq<char>, bytes: Seq<u8>, offset: nat,
    in_object: bool, object_at: Option<int>, field: Option<Seq<char>>) -> Walk
    decreases k + 1,
{
    if k < 0 || k >= chain.len() {
        Walk::Ended(object_at)
    } else {
        let n = chain[k];
        if n.kind@ == "object_literal"@ {
            detect_walk(chain, k - 1, text, bytes, offset, true, Some(k), field)
        } else if n.kind@ == "object_entry"@ {
            detect_walk(chain, k - 1, text, bytes, offset, in_object, object_at, entry_value_field(n, bytes, offset, field))
        } else if n.kind@ == "plugin_config"@ && in_object {
            Walk::Decided(match (field_text(n, "name"@), config_level_of(chain, k)) {
                (Some(p), Some(l)) => Some(block_context(p, l, text, offset, field)),
                _ => None,
            })
        } else if n.kind@ == "plugin_import"@ && in_object {
            Walk::Decided(match field_text(n, "name"@) {
                Some(p) => Some(block_context(p, LevelView::Global, text, offset, field)),
                None => None,
            })
        } else if n.kind@ == "source_file"@ {
            Walk::Ended(object_at)
        } else {
            detect_walk(chain, k - 1, text, bytes, offset, in_object, object_at, field)
        }
    }
}

/// The plugin config context at the cursor, if the cursor lies in a plugin config block.
pub open spec fn plugin_config_context(chain: Seq<SyntaxNode>, text: Seq<char>, bytes: Seq<u8>, offset: nat) -> Option<ContextView> {
    match detect_walk(chain, chain.len() - 1, text, bytes, offset, false, None, None) {
        Walk::Decided(r) => r,
        Walk::Ended(Some(o)) => if 0 < o < chain.len() {
            let p = chain[o - 1];
            if p.kind@ == "plugin_config"@ {
                if !shows_field_completions(text, offset) {
                    Some(ContextView::SuppressCompletions)
                } else {
                    match (field_text(p, "name"@), config_level_of(chain, o - 1)) {
                        (Some(name), Some(l)) => Some(ContextView::PluginConfigField(name, l)),
                        _ => None,
                    }
                }
            } else if p.kind@ == "plugin_import"@ {
                if !shows_field_completions(text, offset) {
                    Some(ContextView::SuppressCompletions)
                } else {
                    match field_text(p, "name"@) {
                        Some(name) => Some(ContextView::PluginConfigField(name, LevelView::Global)),
                        None => None,
                    }
                }
            } else {
                None
            }
        } else {
            None
        },
        Walk::Ended(None) => None,
    }
}

fn block_context_of(plugin: String, level: ConfigLevel, text: &str, offset: usize, field: Option<String>) -> (r: CompletionContext)
    ensures
        context_view(r) == block_context(plugin@, level_view(level), text@, offset as nat,
            match field { Some(f) => Some(f@), None => None }),
{
    match field {
        Some(f) => CompletionContext::PluginConfigValue { plugin_name: plugin, config_level: level, field_name: f },
        None => if !should_show_plugin_field_completions(text, offset) {
            CompletionContext::SuppressCompletions
        } else {
            CompletionContext::PluginConfigField { plugin_name: plugin, config_level: level }
        },
    }
}

pub open spec fn opt_view(o: Option<String>) -> Option<Seq<char>> {
    match o {
        Some(s) => Some(s@),
        None => None,
    }
}

/// Detects whether the cursor, at the end of the path, lies inside a plugin config block
/// and what completes there (see `plugin_config_context`).
pub fn detect_plugin_config_context(root: &SyntaxNode, path: &Vec<usize>, text: &str, offset: usize) -> (r: Option<CompletionContext>)
    requires
        valid_path(*root, path@),
    ensures
        opt_context_view(r) == plugin_config_context(follow(*root, path@), text@, text.spec_bytes(), offset as nat),
{
    proof { crate::tree_path::lemma_follow_len(*root, path@); }
    let ghost chain = follow(*root, path@);
    let bytes = text.as_bytes();
    let mut in_object = false;
    let mut object_at: Option<usize> = None;
    let mut field: Option<String> = None;
    let mut k: usize = path.len();
    proof { reveal_strlit("name"); reveal_strlit("key"); }
    loop
        invariant
            valid_path(*root, path@),
            chain == follow(*root, path@),
            chain.len() == path@.len() + 1,
            k < chain.len(),
            bytes@ == text.spec_bytes(),
            match object_at { Some(o) => o < chain.len(), None => true },
            detect_walk(chain, chain.len() - 1, text@, bytes@, offset as nat, false, None, None)
                == detect_walk(chain, k as int, text@, bytes@, offset as nat, in_object,
                    match object_at { Some(o) => Some(o as int), None => None }, opt_view(field)),
        ensures
            match object_at { Some(o) => o < chain.len(), None => true },
            detect_walk(chain, chain.len() - 1, text@, bytes@, offset as nat, false, None, None)
                == Walk::Ended(match object_at { Some(o) => Some(o as int), None => None }),
        decreases k,
    {
        proof { reveal_with_fuel(detect_walk, 2); }
        let n = node_at(root, path, k);
        if n.is_kind("object_literal") {
            in_object = true;
            object_at = Some(k);
        } else if n.is_kind("object_entry") {
            match n.child_by_field_name("key") {
                Some(key) => {
                    let upto = if offset < n.end_byte { offset } else { n.end_byte };
                    if offset > key.end_byte && has_colon(bytes, key.end_byte, upto) {
                        field = Some(key.text.clone());
                    }
                },
                None => {},
            }
        } else if n.is_kind("plugin_config") && in_object {
            let name = match opt_text(n, "name") {
                Some(x) => x,
                None => { return None; },
            };
            let level = match determine_config_level(root, path, k) {
                Some(l) => l,
                None => { return None; },
            };
            return Some(block_context_of(name, level, text, offset, field));
        } else if n.is_kind("plugin_import") && in_object {
            let name = match opt_text(n, "name") {
                Some(x) => x,
                None => { return None; },
            };
            return Some(block_context_of(name, ConfigLevel::Global, text, offset, field));
        } else if n.is_kind("source_file") {
            break;
        }
        if k == 0 {
            break;
        }
        k = k - 1;
    }
    match object_at {
        Some(o) => {
            if o == 0 {
                return None;
            }
            let p = node_at(root, path, o - 1);
            if p.is_kind("plugin_config") {
                if !should_show_plugin_field_completions(text, offset) {
                    return Some(CompletionContext::SuppressCompletions);
                }
                let name = match opt_text(p, "name") {
                    Some(x) => x,
                    None => { return None; },
                };
                let level = match determine_config_level(root, path, o - 1) {
                    Some(l) => l,
                    None => { return None; },
                };
                Some(CompletionContext::PluginConfigField { plugin_name: name, config_level: level })
            } else if p.is_kind("plugin_import") {
                if !should_show_plugin_field_completions(text, offset) {
                    return Some(CompletionContext::SuppressCompletions);
                }
                let name = match opt_text(p, "name") {
                    Some(x) => x,
                    None => { return None; },
                };
                Some(CompletionContext::PluginConfigField { plugin_name: name, config_level: ConfigLevel::Global })
            } else {
                None
            }
        },
        None => None,
    }
}

// ---------------------------------------------------------------------------
// The completion context
// ---------------------------------------------------------------------------

/// How many bytes of the list equal `b`.
pub open spec fn count_byte(s: Seq<u8>, b: u8) -> nat
    decreases s.len(),
{
    if s.len() == 0 { 0 } else { count_byte(s.drop_last(), b) + if s.last() == b { 1nat } else { 0nat } }
}

/// A node is at the top level when as many `{` as `}` come before it.
pub open spec fn at_top_level(n: SyntaxNode, bytes: Seq<u8>) -> bool {
    let end = if n.start_byte <= bytes.len() { n.start_byte as int } else { bytes.len() as int };
    count_byte(bytes.take(end), 123u8) == count_byte(bytes.take(end), 125u8)
}

/// Whether the node is at the top level (see `at_top_level`).
pub fn is_at_top_level(n: &SyntaxNode, text: &str) -> (r: bool)
    ensures
        r == at_top_level(*n, text.spec_bytes()),
{
    let bytes = text.as_bytes();
    let end = if n.start_byte <= bytes.len() { n.start_byte } else { bytes.len() };
    let mut open: usize = 0;
    let mut close: usize = 0;
    let mut i: usize = 0;
    proof { assert(bytes@.take(0) =~= Seq::<u8>::empty()); }
    while i < end
        invariant
            end <= bytes@.len(),
            i <= end,
            open == count_byte(bytes@.take(i as int), 123u8),
            close == count_byte(bytes@.take(i as int), 125u8),
            open <= i,
            close <= i,
        decreases end - i,
    {
        proof {
            assert(bytes@.take(i + 1).drop_last() =~= bytes@.take(i as int));
            assert(bytes@.take(i + 1).last() == bytes@[i as int]);
        }
        if bytes[i] == 123u8 {
            open = open + 1;
        } else if bytes[i] == 125u8 {
            close = close + 1;
        }
        i = i + 1;
    }
    open == close
}

/// The context found walking up from depth `k` by the kinds of the nodes met; at the
/// document node, the top level when the cursor's node is at the top level.
pub open spec fn kind_walk(chain: Seq<SyntaxNode>, k: int, bytes: Seq<u8>) -> ContextView
    decreases k + 1,
{
    if k < 0 || k >= chain.len() {
        ContextView::Unknown
    } else {
        let kind = chain[k].kind@;
        if kind == "type_expression"@ || kind == "union_type"@ || kind == "array_type"@ || kind == "optional_type"@ {
            ContextView::TypeExpression
        } else if kind == "extends_clause"@ {
            ContextView::ExtendsClause
        } else if kind == "plugin_directive"@ {
            ContextView::PluginDirective
        } else if kind == "source_file"@ {
            if at_top_level(chain.last(), bytes) { ContextView::TopLevel } else { ContextView::Unknown }
        } else {
            kind_walk(chain, k - 1, bytes)
        }
    }
}

/// The completion context at a byte offset: none when no node holds the offset; a plugin
/// config context when the cursor is in a plugin config block; a type expression right
/// after a colon; else by the kinds of the nodes around the cursor.
pub open spec fn completion_context_at(root: SyntaxNode, text: Seq<char>, bytes: Seq<u8>, offset: nat) -> Option<ContextView> {
    match crate::tree_path::path_to_offset(root, offset) {
        None => None,
        Some(p) => {
            let chain = follow(root, p);
            match plugin_config_context(chain, text, bytes, offset) {
                Some(c) => Some(c),
                None => if after_colon(text, offset) {
                    Some(ContextView::TypeExpression)
                } else {
                    Some(kind_walk(chain, chain.len() - 1, bytes))
                },
            }
        },
    }
}

/// Determines what kind of completion suits the cursor (see `completion_context_at`).
pub fn determine_completion_context(root: &SyntaxNode, text: &str, offset: usize) -> (r: Option<CompletionContext>)
    ensures
        opt_context_view(r) == completion_context_at(*root, text@, text.spec_bytes(), offset as nat),
{
    let path = match crate::tree_path::find_node_at_offset(root, offset) {
        Some(p) => p,
        None => { return None; },
    };
    proof { crate::tree_path::lemma_follow_len(*root, path@); }
    let ghost chain = follow(*root, path@);
    match detect_plugin_config_context(root, &path, text, offset) {
        Some(c) => { return Some(c); },
        None => {},
    }
    if is_after_colon(text, offset) {
        return Some(CompletionContext::TypeExpression);
    }
    let deepest = node_at(root, &path, path.len());
    let mut k: usize = path.len();
    loop
        invariant
            valid_path(*root, path@),
            chain == follow(*root, path@),
            chain.len() == path@.len() + 1,
            *deepest == chain.last(),
            k < chain.len(),
            completion_context_at(*root, text@, text.spec_bytes(), offset as nat) == Some(kind_walk(chain, chain.len() - 1, text.spec_bytes())),
            kind_walk(chain, chain.len() - 1, text.spec_bytes()) == kind_walk(chain, k as int, text.spec_bytes()),
        decreases k,
    {
        proof { reveal_with_fuel(kind_walk, 2); }
        let n = node_at(root, &path, k);
        if n.is_kind("type_expression") || n.is_kind("union_type") || n.is_kind("array_type") || n.is_kind("optional_type") {
            return Some(CompletionContext::TypeExpression);
        } else if n.is_kind("extends_clause") {
            return Some(CompletionContext::ExtendsClause);
        } else if n.is_kind("plugin_directive") {
            return Some(CompletionContext::PluginDirective);
        } else if n.is_kind("source_file") {
            if is_at_top_level(deepest, text) {
                return Some(CompletionContext::TopLevel);
            }
            return Some(CompletionContext::Unknown);
        }
        if k == 0 {
            return Some(CompletionContext::Unknown);
        }
        k = k - 1;
    }
}

/// The keys of the entries of the nearest object literal around the cursor, walking up
/// from depth `k`.
pub open spec fn defined_keys_from(chain: Seq<SyntaxNode>, k: int) -> Seq<Seq<char>>
    decreases k + 1,
{
    if k < 0 || k >= chain.len() {
        Seq::empty()
    } else if chain[k].kind@ == "object_literal"@ {
        entry_keys(chain[k].children@)
    } else {
        defined_keys_from(chain, k - 1)
    }
}

/// The keys of the object entries among the nodes, in order.
pub open spec fn entry_keys(s: Seq<SyntaxNode>) -> Seq<Seq<char>>
    decreases s.len(),
{
    if s.len() == 0 {
        Seq::empty()
    } else {
        entry_keys(s.drop_last()) + if s.last().kind@ == "object_entry"@ {
            match field_text(s.last(), "key"@) {
                Some(t) => seq![t],
                None => Seq::empty(),
            }
        } else {
            Seq::empty()
        }
    }
}

/// The field names already written in the plugin config object around the cursor.
pub fn extract_already_defined_fields(root: &SyntaxNode, path: &Vec<usize>) -> (r: Vec<String>)
    requires
        valid_path(*root, path@),
    ensures
        r@.map_values(|s: String| s@) == defined_keys_from(follow(*root, path@), path@.len() as int),
{
    proof { crate::tree_path::lemma_follow_len(*root, path@); reveal_strlit("key"); }
    let ghost chain = follow(*root, path@);
    let mut out: Vec<String> = Vec::new();
    let mut k: usize = path.len();
    loop
        invariant
            valid_path(*root, path@),
            chain == follow(*root, path@),
            chain.len() == path@.len() + 1,
            k < chain.len(),
            out@.len() == 0,
            defined_keys_from(chain, path@.len() as int) == defined_keys_from(chain, k as int),
        decreases k,
    {
        proof { reveal_with_fuel(defined_keys_from, 2); }
        let n = node_at(root, path, k);
        if n.is_kind("object_literal") {
            let mut i: usize = 0;
            proof { assert(n.children@.take(0) =~= Seq::<SyntaxNode>::empty()); }
            while i < n.children.len()
                invariant
                    i <= n.children@.len(),
                    out@.map_values(|s: String| s@) == entry_keys(n.children@.take(i as int)),
                decreases n.children@.len() - i,
            {
                let c = &n.children[i];
                proof {
                    assert(n.children@.take(i + 1).drop_last() =~= n.children@.take(i as int));
                    assert(n.children@.take(i + 1).last() == n.children@[i as int]);
                }
                if c.is_kind("object_entry") {
                    match opt_text(c, "key") {
                        Some(t) => {
                            let ghost before = out@;
                            out.push(t);
                            proof { assert(out@.map_values(|s: String| s@) =~= before.map_values(|s: String| s@).push(out@.last()@)); }
                        },
                        None => {},
                    }
                }
                i = i + 1;
                proof { assert(out@.map_values(|s: String| s@) =~= entry_keys(n.children@.take(i as int))); }
            }
            proof { assert(n.children@.take(i as int) =~= n.children@); }
            return out;
        }
        if k == 0 {
            proof { assert(out@.map_values(|s: String| s@) =~= Seq::<Seq<char>>::empty()); }
            return out;
        }
        k = k - 1;
    }
}

} // verus!
