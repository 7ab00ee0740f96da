use vstd::prelude::*;

use crate::diagnostics::{Diagnostic, Severity};
use crate::lsp::{lines_bytes, lines_of, text_lines, utf8_len, utf8_len_of, Position, Range};
use crate::paths::str_eq;
use crate::syntax::{field_child, SyntaxNode};
use crate::text::string_from_chars;

verus! {

/// An LSP diagnostic as the server publishes it; its source is always `cdm`.
#[derive(Debug, Clone, PartialEq, Eq)]
pub struct LspDiagnostic {
    pub range: Range,
    pub severity: Severity,
    pub message: String,
}

/// Converts a CDM diagnostic to an LSP one: the same lines and columns (truncated to
/// 32 bits), severity and message.
pub fn cdm_diagnostic_to_lsp(d: &Diagnostic) -> (r: LspDiagnostic)
    ensures
        r.range == (Range {
            start: Position { line: d.span.start.line as u32, character: d.span.start.column as u32 },
            end: Position { line: d.span.end.line as u32, character: d.span.end.column as u32 },
        }),
        r.severity == d.severity,
        r.message@ == d.message@,
{
    let range = Range {
        start: Position {
            line: #[verifier::truncate] (d.span.start.line as u32),
            character: #[verifier::truncate] (d.span.start.column as u32),
        },
        end: Position {
            line: #[verifier::truncate] (d.span.end.line as u32),
            character: #[verifier::truncate] (d.span.end.column as u32),
        },
    };
    LspDiagnostic { range, severity: d.severity, message: d.message.clone() }
}

/// An edit that replaces a range of a document with new text.
#[derive(Debug)]
pub struct TextEdit {
    pub range: Range,
    pub new_text: String,
}

/// The range that a whole-document replacement covers: from the start to the end of the
/// last line (its length in bytes), the line count truncated to 32 bits.
pub open spec fn document_range(text: Seq<char>) -> Range {
    let lines = text_lines(text);
    let count = lines.len() as u32;
    Range {
        start: Position { line: 0, character: 0 },
        end: Position {
            line: if count == 0 { 0 } else { (count - 1) as u32 },
            character: (if lines.len() > 0 { utf8_len(lines.last()) } else { 0 }) as u32,
        },
    }
}

/// The edit that formatting a document gives: none when the formatted text is the same,
/// else one edit replacing the whole document (see `document_range`).
pub fn whole_document_edit(text: &str, formatted: String) -> (r: Option<TextEdit>)
    requires
        lines_bytes(text_lines(text@)) <= usize::MAX,
    ensures
        match r {
            Some(e) => formatted@ != text@ && e.range == document_range(text@) && e.new_text@ == formatted@,
            None => formatted@ == text@,
        },
{
    if str_eq(formatted.as_str(), text) {
        return None;
    }
    let lines = lines_of(text);
    let count = #[verifier::truncate] (lines.len() as u32);
    let last_len: usize = if lines.len() > 0 {
        proof {
            let ls = text_lines(text@);
            assert(lines@[lines@.len() - 1]@ == ls.last());
            assert(lines_bytes(ls) == lines_bytes(ls.drop_last()) + utf8_len(ls.last()) + 1);
        }
        utf8_len_of(&lines[lines.len() - 1])
    } else {
        0
    };
    let range = Range {
        start: Position { line: 0, character: 0 },
        end: Position {
            line: if count == 0 { 0 } else { count - 1 },
            character: #[verifier::truncate] (last_len as u32),
        },
    };
    Some(TextEdit { range, new_text: formatted })
}

/// The text without the character `c` at its start, repeated.
pub open spec fn strip_start(s: Seq<char>, c: char) -> Seq<char>
    decreases s.len(),
{
    if s.len() > 0 && s[0] == c { strip_start(s.drop_first(), c) } else { s }
}

/// The text without the character `c` at its end, repeated.
pub open spec fn strip_end(s: Seq<char>, c: char) -> Seq<char>
    decreases s.len(),
{
    if s.len() > 0 && s.last() == c { strip_end(s.drop_last(), c) } else { s }
}

/// `str::trim_matches` with one character.
pub open spec fn trim_char(s: Seq<char>, c: char) -> Seq<char> {
    strip_end(strip_start(s, c), c)
}

/// A path written in an extends directive without surrounding quotes.
pub open spec fn unquoted(s: Seq<char>) -> Seq<char> {
    trim_char(trim_char(s, '"'), '\'')
}

fn trim_char_of(s: &Vec<char>, c: char) -> (r: Vec<char>)
    ensures
        r@ == trim_char(s@, c),
{
    let mut a: usize = 0;
    proof { assert(s@.skip(0) =~= s@); }
    while a < s.len() && s[a] == c
        invariant
            a <= s@.len(),
            strip_start(s@, c) == strip_start(s@.skip(a as int), c),
        decreases s@.len() - a,
    {
        proof { assert(s@.skip(a as int).drop_first() =~= s@.skip(a + 1)); }
        a = a + 1;
    }
    let mut b: usize = s.len();
    let ghost mid = s@.skip(a as int);
    proof { assert(mid.take(mid.len() as int) =~= mid); }
    while b > a && s[b - 1] == c
        invariant
            a <= b <= s@.len(),
            mid == s@.skip(a as int),
            strip_end(mid, c) == strip_end(mid.take(b - a), c),
        decreases b,
    {
        proof { assert(mid.take(b - a).drop_last() =~= mid.take(b - 1 - a)); }
        b = b - 1;
    }
    let mut out: Vec<char> = Vec::new();
    let mut i: usize = a;
    while i < b
        invariant
            a <= i <= b,
            b <= s@.len(),
            out@ == s@.subrange(a as int, i as int),
        decreases b - i,
    {
        out.push(s[i]);
        i = i + 1;
        proof { assert(out@ =~= s@.subrange(a as int, i as int)); }
    }
    proof {
        assert(mid.take(b - a) =~= s@.subrange(a as int, b as int));
        if a < s@.len() {
            assert(s@.skip(a as int)[0] == s@[a as int]);
        }
    }
    out
}

/// The unquoted local paths of every extends directive in a subtree, in document order.
pub open spec fn subtree_extends(n: SyntaxNode) -> Seq<Seq<char>>
    decreases n,
{
    (if n.kind@ == "extends_template"@ {
        match field_child(n, "source"@) {
            Some(src) => crate::grammar::local_paths(src.children@).map_values(|p: Seq<char>| unquoted(p)),
            None => Seq::empty(),
        }
    } else {
        Seq::empty()
    }) + children_extends(n.children@)
}

/// The extends paths of a list of sibling subtrees, in order.
pub open spec fn children_extends(s: Seq<SyntaxNode>) -> Seq<Seq<char>>
    decreases s,
{
    if s.len() == 0 { Seq::empty() } else { children_extends(s.drop_last()) + subtree_extends(s.last()) }
}

fn push_string(out: &mut Vec<String>, s: String)
    ensures
        final(out)@.map_values(|x: String| x@) == old(out)@.map_values(|x: String| x@).push(s@),
{
    let ghost before = out@;
    out.push(s);
    proof { assert(out@.map_values(|x: String| x@) =~= before.map_values(|x: String| x@).push(out@.last()@)); }
}

/// Collects the extends paths of every extends directive in a subtree (see
/// `subtree_extends`).
pub fn walk_extends_directives(n: &SyntaxNode, out: &mut Vec<String>)
    ensures
        final(out)@.map_values(|x: String| x@) == old(out)@.map_values(|x: String| x@) + subtree_extends(*n),
    decreases n,
{
    let ghost start = out@.map_values(|x: String| x@);
    proof { reveal_strlit("source"); }
    if n.is_kind("extends_template") {
        match n.child_by_field_name("source") {
            Some(src) => {
                let ghost f = |p: Seq<char>| unquoted(p);
                let mut j: usize = 0;
                proof { assert(src.children@.take(0) =~= Seq::<SyntaxNode>::empty()); }
                while j < src.children.len()
                    invariant
                        f == (|p: Seq<char>| unquoted(p)),
                        j <= src.children@.len(),
                        out@.map_values(|x: String| x@) == start + crate::grammar::local_paths(src.children@.take(j as int)).map_values(f),
                    decreases src.children@.len() - j,
                {
                    proof {
                        assert(src.children@.take(j + 1).drop_last() =~= src.children@.take(j as int));
                        assert(src.children@.take(j + 1).last() == src.children@[j as int]);
                    }
                    if src.children[j].is_kind("local_path") {
                        let raw = crate::text::chars_of(src.children[j].text.as_str());
                        let t1 = trim_char_of(&raw, '"');
                        let t2 = trim_char_of(&t1, '\'');
                        push_string(out, string_from_chars(t2.as_slice()));
                    }
                    j = j + 1;
                    proof {
                        assert(out@.map_values(|x: String| x@) =~= start + crate::grammar::local_paths(src.children@.take(j as int)).map_values(f));
                    }
                }
                proof { assert(src.children@.take(j as int) =~= src.children@); }
            },
            None => {},
        }
    }
    let ghost head = out@.map_values(|x: String| x@);
    proof {
        assert(head =~= start + (if n.kind@ == "extends_template"@ {
            match field_child(*n, "source"@) {
                Some(src) => crate::grammar::local_paths(src.children@).map_values(|p: Seq<char>| unquoted(p)),
                None => Seq::empty(),
            }
        } else {
            Seq::empty()
        }));
    }
    let mut i: usize = 0;
    proof { assert(n.children@.take(0) =~= Seq::<SyntaxNode>::empty()); }
    while i < n.children.len()
        invariant
            i <= n.children@.len(),
            out@.map_values(|x: String| x@) == head + children_extends(n.children@.take(i as int)),
        decreases n.children@.len() - i,
    {
        proof {
            assert(n.children@.take(i + 1).drop_last() =~= n.children@.take(i as int));
            assert(n.children@.take(i + 1).last() == n.children@[i as int]);
            let x = *n;
            assert(decreases_to!(x => x.children@[i as int]));
        }
        walk_extends_directives(&n.children[i], out);
        i = i + 1;
        proof { assert(out@.map_values(|x: String| x@) =~= head + children_extends(n.children@.take(i as int))); }
    }
    proof {
        assert(n.children@.take(i as int) =~= n.children@);
        assert(out@.map_values(|x: String| x@) =~= start + subtree_extends(*n));
    }
}

/// The extends paths of a parsed document, from directives at any depth.
pub fn extract_extends_directives(root: &SyntaxNode) -> (r: Vec<String>)
    ensures
        r@.map_values(|x: String| x@) == subtree_extends(*root),
{
    let mut out: Vec<String> = Vec::new();
    walk_extends_directives(root, &mut out);
    proof { assert(Seq::<String>::empty().map_values(|x: String| x@) =~= Seq::<Seq<char>>::empty()); }
    out
}

} // verus!
