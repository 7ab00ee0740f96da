use vstd::prelude::*;

use crate::completion::{trim_end_chars, trim_end_white};
use crate::format::{EntityType, IdAssignment};
use crate::format_text::{assigned_for, lookup_assignment};
use crate::lsp::utf8_len;
use crate::syntax::{field_child, field_text_or_empty, SyntaxNode};
use crate::text::{chars_of, decimal, decimal_chars, push_all, string_from_chars};

verus! {

/// A text to insert at a byte offset of the source.
pub struct Insertion {
    pub pos: usize,
    pub text: Vec<char>,
}

/// An insertion by its offset and text.
pub open spec fn ins_view(i: Insertion) -> (nat, Seq<char>) {
    (i.pos as nat, i.text@)
}

/// The ID text written after an entity: a space, `#` and the number.
pub open spec fn id_suffix(id: u64) -> Seq<char> {
    seq![' ', '#'] + decimal(id as nat)
}

/// The byte offset right after a node's text without its trailing white space.
pub open spec fn trimmed_end(n: SyntaxNode) -> nat {
    n.start_byte as nat + utf8_len(trim_end_white(n.text@))
}

/// The insertion for a field that was assigned an ID, if any.
pub open spec fn field_insertion(member: SyntaxNode, model: Seq<char>, assignments: Seq<IdAssignment>) -> Seq<(nat, Seq<char>)> {
    if member.kind@ == "field_definition"@ {
        match assigned_for(assignments, EntityType::Field, field_text_or_empty(member, "name"@), Some(model)) {
            Some(id) => if trimmed_end(member) <= usize::MAX { seq![(trimmed_end(member), id_suffix(id))] } else { Seq::empty() },
            None => Seq::empty(),
        }
    } else {
        Seq::empty()
    }
}

/// The insertions of one top-level node: after a type alias's trimmed text; after a
/// model's body, then after each of its fields' trimmed text (an offset past `usize`
/// cannot occur in a real document and is left out).
pub open spec fn child_insertions(c: SyntaxNode, assignments: Seq<IdAssignment>) -> Seq<(nat, Seq<char>)> {
    let name = field_text_or_empty(c, "name"@);
    if c.kind@ == "type_alias"@ {
        match assigned_for(assignments, EntityType::TypeAlias, name, None) {
            Some(id) => if trimmed_end(c) <= usize::MAX { seq![(trimmed_end(c), id_suffix(id))] } else { Seq::empty() },
            None => Seq::empty(),
        }
    } else if c.kind@ == "model_definition"@ {
        match field_child(c, "body"@) {
            Some(body) => (match assigned_for(assignments, EntityType::Model, name, None) {
                Some(id) => seq![(body.end_byte as nat, id_suffix(id))],
                None => Seq::empty(),
            }) + body.children@.flat_map(|m: SyntaxNode| field_insertion(m, name, assignments)),
            None => Seq::empty(),
        }
    } else {
        Seq::empty()
    }
}

/// All insertions of a document, in document order.
pub open spec fn document_insertions(root: SyntaxNode, assignments: Seq<IdAssignment>) -> Seq<(nat, Seq<char>)> {
    root.children@.flat_map(|c: SyntaxNode| child_insertions(c, assignments))
}

fn id_suffix_chars(id: u64) -> (r: Vec<char>)
    ensures
        r@ == id_suffix(id),
{
    let mut v: Vec<char> = Vec::new();
    v.push(' ');
    v.push('#');
    let d = decimal_chars(id);
    push_all(&mut v, d.as_slice());
    v
}

fn trimmed_end_of(n: &SyntaxNode) -> (r: Option<usize>)
    ensures
        match r {
            Some(p) => p == trimmed_end(*n),
            None => trimmed_end(*n) > usize::MAX,
        },
{
    let t = chars_of(n.text.as_str());
    let k = trim_end_chars(&t);
    let mut bytes: usize = 0;
    let mut j: usize = 0;
    while j < k
        invariant
            t@ == n.text@,
            t@.take(k as int) == trim_end_white(t@),
            k <= t@.len(),
            j <= k,
            bytes == utf8_len(t@.take(j as int)),
        decreases k - j,
    {
        proof { assert(t@.take(j + 1).drop_last() =~= t@.take(j as int)); }
        let w = crate::lsp::utf8_width_of(t[j]);
        proof { assert(utf8_len(t@.take(j + 1)) == bytes + w); }
        if w > usize::MAX - bytes {
            proof { lemma_prefix_le(t@.take(k as int), j + 1); assert(t@.take(k as int).take(j + 1) =~= t@.take(j + 1)); }
            return None;
        }
        bytes = bytes + w;
        j = j + 1;
    }
    proof { assert(t@.take(j as int) =~= trim_end_white(n.text@)); }
    if bytes > usize::MAX - n.start_byte {
        return None;
    }
    Some(n.start_byte + bytes)
}

proof fn lemma_prefix_le(s: Seq<char>, j: int)
    requires
        0 <= j <= s.len(),
    ensures
        utf8_len(s.take(j)) <= utf8_len(s),
    decreases s.len() - j,
{
    if j < s.len() {
        assert(s.take(j + 1).drop_last() =~= s.take(j));
        lemma_prefix_le(s, j + 1);
    } else {
        assert(s.take(j) =~= s);
    }
}

fn push_insertion(out: &mut Vec<Insertion>, pos: usize, text: Vec<char>)
    ensures
        final(out)@.map_values(|i: Insertion| ins_view(i)) == old(out)@.map_values(|i: Insertion| ins_view(i)).push((pos as nat, text@)),
{
    let ghost before = out@;
    out.push(Insertion { pos, text });
    proof {
        assert(out@.map_values(|i: Insertion| ins_view(i)) =~= before.map_values(|i: Insertion| ins_view(i)).push((pos as nat, out@.last().text@)));
    }
}

/// Collects the insertions of the fields of a model body.
fn collect_field_insertions(body: &SyntaxNode, model_name: &str, assignments: &Vec<IdAssignment>, out: &mut Vec<Insertion>)
    ensures
        final(out)@.map_values(|i: Insertion| ins_view(i)) == old(out)@.map_values(|i: Insertion| ins_view(i))
            + body.children@.flat_map(|m: SyntaxNode| field_insertion(m, model_name@, assignments@)),
{
    let ghost g = |m: SyntaxNode| field_insertion(m, model_name@, assignments@);
    let ghost start = out@.map_values(|i: Insertion| ins_view(i));
    let mut i: usize = 0;
    proof {
        assert(body.children@.take(0).flat_map(g) =~= Seq::<(nat, Seq<char>)>::empty()) by {
            assert(body.children@.take(0).map_values(g) =~= Seq::<Seq<(nat, Seq<char>)>>::empty());
        }
        reveal_strlit("name");
    }
    while i < body.children.len()
        invariant
            g == (|m: SyntaxNode| field_insertion(m, model_name@, assignments@)),
            i <= body.children@.len(),
            out@.map_values(|i: Insertion| ins_view(i)) == start + body.children@.take(i as int).flat_map(g),
        decreases body.children@.len() - i,
    {
        let member = &body.children[i];
        let ghost before = out@.map_values(|i: Insertion| ins_view(i));
        proof {
            body.children@.lemma_flat_map_take_append(g, i as int);
        }
        if member.is_kind("field_definition") {
            let name = member.field_text_or_empty("name");
            match lookup_assignment(assignments, EntityType::Field, name.as_str(), Some(model_name)) {
                Some(id) => {
                    match trimmed_end_of(member) {
                        Some(pos) => {
                            push_insertion(out, pos, id_suffix_chars(id));
                            proof { assert(out@.map_values(|i: Insertion| ins_view(i)) =~= before + g(*member)); }
                        },
                        None => {
                            proof { assert(before + g(*member) =~= before); }
                        },
                    }
                },
                None => {
                    proof { assert(before + g(*member) =~= before); }
                },
            }
        } else {
            proof { assert(before + g(*member) =~= before); }
        }
        i = i + 1;
    }
    proof { assert(body.children@.take(i as int) =~= body.children@); }
}

/// Collects the insertions of one top-level node.
fn collect_child_insertions(c: &SyntaxNode, assignments: &Vec<IdAssignment>, out: &mut Vec<Insertion>)
    ensures
        final(out)@.map_values(|i: Insertion| ins_view(i)) == old(out)@.map_values(|i: Insertion| ins_view(i))
            + child_insertions(*c, assignments@),
{
    let ghost before = out@.map_values(|i: Insertion| ins_view(i));
    let ghost mine = child_insertions(*c, assignments@);
    proof { reveal_strlit("name"); reveal_strlit("body"); }
    let name = c.field_text_or_empty("name");
    if c.is_kind("type_alias") {
        match lookup_assignment(assignments, EntityType::TypeAlias, name.as_str(), None) {
            Some(id) => {
                match trimmed_end_of(c) {
                    Some(pos) => {
                        push_insertion(out, pos, id_suffix_chars(id));
                        proof { assert(out@.map_values(|i: Insertion| ins_view(i)) =~= before + mine); }
                    },
                    None => {
                        proof { assert(before + mine =~= before); }
                    },
                }
            },
            None => {
                proof { assert(before + mine =~= before); }
            },
        }
    } else if c.is_kind("model_definition") {
        match c.child_by_field_name("body") {
            Some(body) => {
                let ghost own: Seq<(nat, Seq<char>)> = match assigned_for(assignments@, EntityType::Model, name@, None) {
                    Some(id) => seq![(body.end_byte as nat, id_suffix(id))],
                    None => Seq::empty(),
                };
                let ghost fields = body.children@.flat_map(|m: SyntaxNode| field_insertion(m, name@, assignments@));
                proof { assert(mine == own + fields); }
                match lookup_assignment(assignments, EntityType::Model, name.as_str(), None) {
                    Some(id) => {
                        push_insertion(out, body.end_byte, id_suffix_chars(id));
                    },
                    None => {},
                }
                proof { assert(out@.map_values(|i: Insertion| ins_view(i)) =~= before + own); }
                collect_field_insertions(body, name.as_str(), assignments, out);
                proof { assert(before + own + fields =~= before + mine); }
            },
            None => {
                proof { assert(before + mine =~= before); }
            },
        }
    } else {
        proof { assert(before + mine =~= before); }
    }
}

/// Collects the insertions of a document (see `document_insertions`).
pub fn collect_insertions(root: &SyntaxNode, assignments: &Vec<IdAssignment>) -> (r: Vec<Insertion>)
    ensures
        r@.map_values(|i: Insertion| ins_view(i)) == document_insertions(*root, assignments@),
{
    let ghost g = |c: SyntaxNode| child_insertions(c, assignments@);
    let mut out: Vec<Insertion> = Vec::new();
    let mut i: usize = 0;
    proof {
        assert(root.children@.take(0).flat_map(g) =~= Seq::<(nat, Seq<char>)>::empty()) by {
            assert(root.children@.take(0).map_values(g) =~= Seq::<Seq<(nat, Seq<char>)>>::empty());
        }
        assert(out@.map_values(|i: Insertion| ins_view(i)) =~= Seq::<(nat, Seq<char>)>::empty());
    }
    while i < root.children.len()
        invariant
            g == (|c: SyntaxNode| child_insertions(c, assignments@)),
            root.children@.flat_map(g) == document_insertions(*root, assignments@),
            i <= root.children@.len(),
            out@.map_values(|i: Insertion| ins_view(i)) == root.children@.take(i as int).flat_map(g),
        decreases root.children@.len() - i,
    {
        proof {
            root.children@.lemma_flat_map_take_append(g, i as int);
        }
        collect_child_insertions(&root.children[i], assignments, &mut out);
        i = i + 1;
    }
    proof { assert(root.children@.take(i as int) =~= root.children@); }
    out
}

/// The character index of byte offset `b`: the first index (from `j` on) with at least
/// `b` bytes before it, or the text's length.
pub open spec fn char_at_byte(s: Seq<char>, b: nat, j: int) -> int
    decreases s.len() - j,
{
    if j < 0 || j >= s.len() || utf8_len(s.take(j)) >= b { if j < 0 { 0 } else { j } } else { char_at_byte(s, b, j + 1) }
}

/// The texts to insert at character index `j`, the last listed first (each insertion at
/// an index goes before those made there earlier).
pub open spec fn texts_at(ins: Seq<(int, Seq<char>)>, j: int) -> Seq<char>
    decreases ins.len(),
{
    if ins.len() == 0 {
        Seq::empty()
    } else {
        texts_at(ins.drop_first(), j) + if ins[0].0 == j { ins[0].1 } else { Seq::empty() }
    }
}

/// The first `j` characters of the text with the insertions at indices below `j`.
pub open spec fn rebuilt_upto(s: Seq<char>, ins: Seq<(int, Seq<char>)>, j: int) -> Seq<char>
    decreases j,
{
    if j <= 0 || j > s.len() {
        Seq::empty()
    } else {
        rebuilt_upto(s, ins, j - 1) + texts_at(ins, j - 1) + seq![s[j - 1]]
    }
}

/// The insertions by character index.
pub open spec fn at_chars(s: Seq<char>, ins: Seq<(nat, Seq<char>)>) -> Seq<(int, Seq<char>)> {
    ins.map_values(|i: (nat, Seq<char>)| (char_at_byte(s, i.0, 0), i.1))
}

/// The text with each insertion made at its byte offset.
pub open spec fn with_insertions(s: Seq<char>, ins: Seq<(nat, Seq<char>)>) -> Seq<char> {
    rebuilt_upto(s, at_chars(s, ins), s.len() as int) + texts_at(at_chars(s, ins), s.len() as int)
}

fn char_index_of_byte(s: &Vec<char>, b: usize) -> (r: usize)
    ensures
        r == char_at_byte(s@, b as nat, 0),
{
    let mut j: usize = 0;
    let mut bytes: usize = 0;
    while j < s.len()
        invariant
            j <= s@.len(),
            bytes == utf8_len(s@.take(j as int)),
            char_at_byte(s@, b as nat, 0) == char_at_byte(s@, b as nat, j as int),
        decreases s@.len() - j,
    {
        if bytes >= b {
            return j;
        }
        proof { assert(s@.take(j + 1).drop_last() =~= s@.take(j as int)); }
        let w = crate::lsp::utf8_width_of(s[j]);
        if w > usize::MAX - bytes {
            proof {
                assert(utf8_len(s@.take(j + 1)) >= b);
                if j + 1 < s@.len() {
                    assert(char_at_byte(s@, b as nat, j + 1) == j + 1);
                }
            }
            return j + 1;
        }
        bytes = bytes + w;
        j = j + 1;
    }
    j
}

fn push_texts_at(out: &mut Vec<char>, texts: &Vec<Insertion>, cps: &Vec<usize>, j: usize, Ghost(ins): Ghost<Seq<(int, Seq<char>)>>)
    requires
        cps@.len() == texts@.len(),
        ins.len() == texts@.len(),
        forall|k: int| 0 <= k < ins.len() ==> #[trigger] ins[k] == (cps@[k] as int, texts@[k].text@),
    ensures
        final(out)@ == old(out)@ + texts_at(ins, j as int),
{
    let ghost start = out@;
    let mut k: usize = texts.len();
    proof { assert(ins.skip(k as int) =~= Seq::<(int, Seq<char>)>::empty()); }
    while k > 0
        invariant
            cps@.len() == texts@.len(),
            ins.len() == texts@.len(),
            forall|q: int| 0 <= q < ins.len() ==> #[trigger] ins[q] == (cps@[q] as int, texts@[q].text@),
            k <= ins.len(),
            out@ == start + texts_at(ins.skip(k as int), j as int),
        decreases k,
    {
        let ghost rest = ins.skip(k - 1);
        proof {
            assert(rest.drop_first() =~= ins.skip(k as int));
            assert(rest[0] == ins[k - 1]);
        }
        if cps[k - 1] == j {
            push_all(out, texts[k - 1].text.as_slice());
        }
        k = k - 1;
        proof { assert(out@ =~= start + texts_at(ins.skip(k as int), j as int)); }
    }
    proof { assert(ins.skip(0) =~= ins); }
}

/// The source with each ID text inserted at its offset (see `with_insertions`).
pub fn reconstruct_source(root: &SyntaxNode, source: &str, assignments: &Vec<IdAssignment>) -> (r: String)
    ensures
        r@ == with_insertions(source@, document_insertions(*root, assignments@)),
{
    let ins = collect_insertions(root, assignments);
    let s = chars_of(source);
    let ghost iv = ins@.map_values(|i: Insertion| ins_view(i));
    let ghost cv = at_chars(s@, iv);
    let mut cps: Vec<usize> = Vec::new();
    let mut k: usize = 0;
    while k < ins.len()
        invariant
            k <= ins@.len(),
            iv == ins@.map_values(|i: Insertion| ins_view(i)),
            cv == at_chars(s@, iv),
            cps@.len() == k,
            forall|q: int| 0 <= q < k ==> #[trigger] cps@[q] as int == cv[q].0,
        decreases ins@.len() - k,
    {
        let c = char_index_of_byte(&s, ins[k].pos);
        cps.push(c);
        k = k + 1;
    }
    proof {
        assert forall|q: int| 0 <= q < cv.len() implies #[trigger] cv[q] == (cps@[q] as int, ins@[q].text@) by {}
    }
    let mut out: Vec<char> = Vec::new();
    let mut j: usize = 0;
    while j < s.len()
        invariant
            j <= s@.len(),
            cps@.len() == ins@.len(),
            cv.len() == ins@.len(),
            forall|q: int| 0 <= q < cv.len() ==> #[trigger] cv[q] == (cps@[q] as int, ins@[q].text@),
            out@ == rebuilt_upto(s@, cv, j as int),
        decreases s@.len() - j,
    {
        push_texts_at(&mut out, &ins, &cps, j, Ghost(cv));
        out.push(s[j]);
        j = j + 1;
        proof { assert(out@ =~= rebuilt_upto(s@, cv, j as int)); }
    }
    push_texts_at(&mut out, &ins, &cps, j, Ghost(cv));
    string_from_chars(out.as_slice())
}

} // verus!
