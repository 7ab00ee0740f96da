use vstd::prelude::*;

use crate::lsp::{byte_offset_to_lsp_position, lsp_position_of};
use crate::symbols::positions_fit;
use crate::syntax::SyntaxNode;

verus! {

/// A foldable region of lines; it folds from the end of its first line to the end of
/// its last line.
#[derive(Debug, Clone, Copy, PartialEq, Eq, Structural)]
pub struct FoldingRange {
    pub start_line: u32,
    pub end_line: u32,
    pub kind: Option<FoldingRangeKind>,
}

/// What a folding range holds.
#[derive(Debug, Clone, Copy, PartialEq, Eq, Structural)]
pub enum FoldingRangeKind {
    Comment,
    Imports,
    Region,
}

/// The folding range of a braced node: from its first to its last line, when it spans
/// more than one line.
pub open spec fn brace_range(n: SyntaxNode, text: Seq<char>) -> Option<FoldingRange> {
    let s = lsp_position_of(text, n.start_byte as nat);
    let e = lsp_position_of(text, n.end_byte as nat);
    if e.line <= s.line { None } else { Some(FoldingRange { start_line: s.line, end_line: e.line, kind: Some(FoldingRangeKind::Region) }) }
}

/// Creates the folding range of a braced node (see `brace_range`).
pub fn create_folding_range_for_braces(n: &SyntaxNode, text: &str) -> (r: Option<FoldingRange>)
    requires
        positions_fit(text@),
    ensures
        r == brace_range(*n, text@),
{
    let s = byte_offset_to_lsp_position(text, n.start_byte);
    let e = byte_offset_to_lsp_position(text, n.end_byte);
    if e.line <= s.line {
        None
    } else {
        Some(FoldingRange { start_line: s.line, end_line: e.line, kind: Some(FoldingRangeKind::Region) })
    }
}

/// Whether a node kind folds: model bodies, plugin blocks and object literals.
pub open spec fn folds(kind: Seq<char>) -> bool {
    kind == "model_body"@ || kind == "plugin_block"@ || kind == "object_literal"@
}

/// The folding ranges of a subtree in document order, the node before its children.
pub open spec fn subtree_ranges(n: SyntaxNode, text: Seq<char>) -> Seq<FoldingRange>
    decreases n,
{
    (if folds(n.kind@) {
        match brace_range(n, text) {
            Some(r) => seq![r],
            None => Seq::empty(),
        }
    } else {
        Seq::empty()
    }) + children_ranges(n.children@, text)
}

/// The folding ranges of a list of sibling subtrees, in order.
pub open spec fn children_ranges(s: Seq<SyntaxNode>, text: Seq<char>) -> Seq<FoldingRange>
    decreases s,
{
    if s.len() == 0 { Seq::empty() } else { children_ranges(s.drop_last(), text) + subtree_ranges(s.last(), text) }
}

/// Collects the folding ranges of a subtree (see `subtree_ranges`).
pub fn collect_folding_ranges(n: &SyntaxNode, text: &str, out: &mut Vec<FoldingRange>)
    requires
        positions_fit(text@),
    ensures
        final(out)@ == old(out)@ + subtree_ranges(*n, text@),
    decreases n,
{
    let ghost start = out@;
    if n.is_kind("model_body") || n.is_kind("plugin_block") || n.is_kind("object_literal") {
        match create_folding_range_for_braces(n, text) {
            Some(r) => out.push(r),
            None => {},
        }
    }
    let ghost head = out@;
    proof { assert(head =~= start + (if folds(n.kind@) { match brace_range(*n, text@) { Some(r) => seq![r], None => Seq::empty() } } else { Seq::empty() })); }
    let mut i: usize = 0;
    proof { assert(n.children@.take(0) =~= Seq::<SyntaxNode>::empty()); }
    while i < n.children.len()
        invariant
            positions_fit(text@),
            i <= n.children@.len(),
            out@ == head + children_ranges(n.children@.take(i as int), text@),
        decreases n.children@.len() - i,
    {
        proof {
            assert(n.children@.take(i + 1).drop_last() =~= n.children@.take(i as int));
            assert(n.children@.take(i + 1).last() == n.children@[i as int]);
            let x = *n;
            assert(decreases_to!(x => x.children@[i as int]));
        }
        collect_folding_ranges(&n.children[i], text, out);
        i = i + 1;
        proof { assert(out@ =~= head + children_ranges(n.children@.take(i as int), text@)); }
    }
    proof {
        assert(n.children@.take(i as int) =~= n.children@);
        assert(out@ =~= start + subtree_ranges(*n, text@));
    }
}

/// The folding ranges of a parsed document; none when it has no foldable region.
pub fn compute_folding_ranges(root: &SyntaxNode, text: &str) -> (r: Option<Vec<FoldingRange>>)
    requires
        positions_fit(text@),
    ensures
        match r {
            Some(v) => v@ == subtree_ranges(*root, text@) && v@.len() > 0,
            None => subtree_ranges(*root, text@).len() == 0,
        },
{
    let mut out: Vec<FoldingRange> = Vec::new();
    collect_folding_ranges(root, text, &mut out);
    proof { assert(out@ =~= subtree_ranges(*root, text@)); }
    if out.len() == 0 { None } else { Some(out) }
}

} // verus!
