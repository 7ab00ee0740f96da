use vstd::prelude::*;

use crate::syntax::SyntaxNode;

verus! {

/// The nodes met going down from `n` by the child indices `idx`, `n` first; the walk
/// stops at an index that names no child.
pub open spec fn follow(n: SyntaxNode, idx: Seq<usize>) -> Seq<SyntaxNode>
    decreases idx.len(),
{
    if idx.len() == 0 || idx[0] >= n.children@.len() {
        seq![n]
    } else {
        seq![n] + follow(n.children@[idx[0] as int], idx.skip(1))
    }
}

/// Every index of the path names a child.
pub open spec fn valid_path(n: SyntaxNode, idx: Seq<usize>) -> bool
    decreases idx.len(),
{
    idx.len() == 0 || (idx[0] < n.children@.len() && valid_path(n.children@[idx[0] as int], idx.skip(1)))
}

/// Whether a node's span holds the offset (both ends included).
pub open spec fn holds_offset(n: SyntaxNode, offset: nat) -> bool {
    n.start_byte <= offset && offset <= n.end_byte
}

/// The child indices from `n` to the deepest node whose span holds the offset, taking
/// the first child that holds it at each level; `None` when `n` does not hold it.
pub open spec fn path_to_offset(n: SyntaxNode, offset: nat) -> Option<Seq<usize>>
    decreases n, 1nat,
{
    if !holds_offset(n, offset) {
        None
    } else {
        match first_child_path(n.children@, offset, 0) {
            Some(p) => Some(p),
            None => Some(Seq::empty()),
        }
    }
}

/// The path from the first node at or after index `i` whose span holds the offset,
/// starting with that node's index.
pub open spec fn first_child_path(s: Seq<SyntaxNode>, offset: nat, i: int) -> Option<Seq<usize>>
    decreases s, 0nat, s.len() - i,
{
    if i < 0 || i >= s.len() {
        None
    } else {
        match path_to_offset(s[i], offset) {
            Some(p) => Some(seq![i as usize] + p),
            None => first_child_path(s, offset, i + 1),
        }
    }
}

/// Finds the path to the deepest node holding the offset (see `path_to_offset`).
pub fn find_node_at_offset(n: &SyntaxNode, offset: usize) -> (r: Option<Vec<usize>>)
    ensures
        match r {
            Some(v) => path_to_offset(*n, offset as nat) == Some(v@) && valid_path(*n, v@),
            None => path_to_offset(*n, offset as nat) is None,
        },
    decreases n,
{
    if offset < n.start_byte || offset > n.end_byte {
        return None;
    }
    let mut i: usize = 0;
    while i < n.children.len()
        invariant
            holds_offset(*n, offset as nat),
            i <= n.children@.len(),
            first_child_path(n.children@, offset as nat, 0) == first_child_path(n.children@, offset as nat, i as int),
        decreases n.children@.len() - i,
    {
        proof {
            let x = *n;
            assert(decreases_to!(x => x.children@[i as int]));
        }
        match find_node_at_offset(&n.children[i], offset) {
            Some(p) => {
                let mut v: Vec<usize> = Vec::new();
                v.push(i);
                let mut k: usize = 0;
                while k < p.len()
                    invariant
                        k <= p@.len(),
                        v@ == seq![i] + p@.take(k as int),
                    decreases p@.len() - k,
                {
                    v.push(p[k]);
                    k = k + 1;
                    proof { assert(v@ =~= seq![i] + p@.take(k as int)); }
                }
                proof {
                    assert(p@.take(k as int) =~= p@);
                    assert(v@.skip(1) =~= p@);
                    assert(v@[0] == i);
                }
                return Some(v);
            },
            None => {},
        }
        i = i + 1;
    }
    Some(Vec::new())
}

/// Node `k` of the walk down the path is node `k + 1`'s parent.
pub proof fn lemma_follow_step(n: SyntaxNode, idx: Seq<usize>, k: int)
    requires
        valid_path(n, idx),
        0 <= k < idx.len(),
    ensures
        follow(n, idx).len() == idx.len() + 1,
        follow(n, idx)[k].children@.len() > idx[k],
        follow(n, idx)[k + 1] == follow(n, idx)[k].children@[idx[k] as int],
    decreases idx.len(),
{
    lemma_follow_len(n, idx);
    if k > 0 {
        lemma_follow_step(n.children@[idx[0] as int], idx.skip(1), k - 1);
        lemma_follow_len(n.children@[idx[0] as int], idx.skip(1));
    } else {
        lemma_follow_len(n.children@[idx[0] as int], idx.skip(1));
    }
}

/// A valid path of `m` indices meets `m + 1` nodes.
pub proof fn lemma_follow_len(n: SyntaxNode, idx: Seq<usize>)
    requires
        valid_path(n, idx),
    ensures
        follow(n, idx).len() == idx.len() + 1,
        follow(n, idx)[0] == n,
    decreases idx.len(),
{
    if idx.len() > 0 {
        lemma_follow_len(n.children@[idx[0] as int], idx.skip(1));
    }
}

/// The node at depth `k` of the walk down the path.
pub fn node_at<'a>(root: &'a SyntaxNode, idx: &Vec<usize>, k: usize) -> (r: &'a SyntaxNode)
    requires
        valid_path(*root, idx@),
        k <= idx@.len(),
    ensures
        *r == follow(*root, idx@)[k as int],
{
    proof { lemma_follow_len(*root, idx@); }
    let mut cur = root;
    let mut j: usize = 0;
    while j < k
        invariant
            valid_path(*root, idx@),
            j <= k <= idx@.len(),
            *cur == follow(*root, idx@)[j as int],
        decreases k - j,
    {
        proof { lemma_follow_step(*root, idx@, j as int); }
        cur = &cur.children[idx[j]];
        j = j + 1;
    }
    cur
}

} // verus!
