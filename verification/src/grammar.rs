use vstd::prelude::*;

use crate::syntax::{field_child, SyntaxNode};

verus! {

/// The local paths of a template source node (`./path` or `../path`), in order;
/// registry names and git references are left out.
pub open spec fn local_paths(s: Seq<SyntaxNode>) -> Seq<Seq<char>>
    decreases s.len(),
{
    if s.len() == 0 {
        Seq::empty()
    } else if s.last().kind@ == "local_path"@ {
        local_paths(s.drop_last()).push(s.last().text@)
    } else {
        local_paths(s.drop_last())
    }
}

/// The local paths an `extends` directive names.
pub open spec fn directive_paths(n: SyntaxNode) -> Seq<Seq<char>> {
    if n.kind@ == "extends_template"@ {
        match field_child(n, "source"@) {
            Some(src) => local_paths(src.children@),
            None => Seq::empty(),
        }
    } else {
        Seq::empty()
    }
}

/// The local paths of the extends directives of a document, in the order they appear.
pub open spec fn extends_paths(root: SyntaxNode) -> Seq<Seq<char>> {
    root.children@.flat_map(|c: SyntaxNode| directive_paths(c))
}

/// Extracts the local paths of the extends directives of a parsed document (see
/// `extends_paths`).
pub fn extract_extends_paths(root: &SyntaxNode) -> (r: Vec<String>)
    ensures
        r@.map_values(|s: String| s@) == extends_paths(*root),
{
    let ghost g = |c: SyntaxNode| directive_paths(c);
    let mut out: Vec<String> = Vec::new();
    let mut i: usize = 0;
    proof {
        assert(root.children@.take(0).flat_map(g) =~= Seq::<Seq<char>>::empty()) by {
            assert(root.children@.take(0).map_values(g) =~= Seq::<Seq<Seq<char>>>::empty());
        }
        reveal_strlit("source");
    }
    while i < root.children.len()
        invariant
            g == (|c: SyntaxNode| directive_paths(c)),
            i <= root.children@.len(),
            out@.map_values(|s: String| s@) == root.children@.take(i as int).flat_map(g),
        decreases root.children@.len() - i,
    {
        let node = &root.children[i];
        let ghost before = out@.map_values(|s: String| s@);
        proof { root.children@.lemma_flat_map_take_append(g, i as int); }
        if node.is_kind("extends_template") {
            match node.child_by_field_name("source") {
                Some(src) => {
                    let mut j: usize = 0;
                    proof { assert(src.children@.take(0) =~= Seq::<SyntaxNode>::empty()); }
                    while j < src.children.len()
                        invariant
                            j <= src.children@.len(),
                            out@.map_values(|s: String| s@) == before + local_paths(src.children@.take(j as int)),
                        decreases src.children@.len() - j,
                    {
                        proof {
                            assert(src.children@.take(j + 1).drop_last() =~= src.children@.take(j as int));
                            assert(src.children@.take(j + 1).last() == src.children@[j as int]);
                        }
                        if src.children[j].is_kind("local_path") {
                            let ghost prev = out@;
                            out.push(src.children[j].text.clone());
                            proof {
                                assert(out@.map_values(|s: String| s@) =~= prev.map_values(|s: String| s@).push(src.children@[j as int].text@));
                            }
                        }
                        j = j + 1;
                        proof { assert(out@.map_values(|s: String| s@) =~= before + local_paths(src.children@.take(j as int))); }
                    }
                    proof { assert(src.children@.take(j as int) =~= src.children@); }
                },
                None => {
                    proof { assert(before + directive_paths(*node) =~= before); }
                },
            }
        } else {
            proof { assert(before + directive_paths(*node) =~= before); }
        }
        proof { assert(out@.map_values(|s: String| s@) =~= before + g(*node)); }
        i = i + 1;
    }
    proof { assert(root.children@.take(i as int) =~= root.children@); }
    out
}

} // verus!
