use vstd::prelude::*;

use crate::descendant_ids::{collect_ids_from_trees, extract_ids_from_tree, trees_registrations, DescendantIds};
use crate::format::{
    alias_missing, bumped, child_missing, field_count, field_regs, fields_missing, global_count, global_regs,
    member_missing, model_fields_missing, model_own_missing, regs_below_max, tree_missing, tree_registrations,
    Missing, Registration,
};
use crate::format_plan::{all_registrations, plan_fits};
use crate::migrate_laws::lemma_flat_map_has;
use crate::syntax::{field_child, SyntaxNode};

verus! {

/// At most one entity without an ID per top-level node, plus one per member of a
/// model's body: a bound on the entities that formatting gives fresh IDs.
pub open spec fn child_bound(c: SyntaxNode) -> nat {
    1 + if c.kind@ == "model_definition"@ {
        match field_child(c, "body"@) {
            Some(body) => body.children@.len(),
            None => 0nat,
        }
    } else {
        0nat
    }
}

/// The bound of `child_bound` summed over a list of top-level nodes.
pub open spec fn children_bound(s: Seq<SyntaxNode>) -> nat
    decreases s.len(),
{
    if s.len() == 0 { 0 } else { children_bound(s.drop_last()) + child_bound(s.last()) }
}

/// A bound on the entities without an ID in a document.
pub open spec fn missing_bound(root: SyntaxNode) -> nat {
    children_bound(root.children@)
}

proof fn lemma_member_missing_small(model: Seq<char>, members: Seq<SyntaxNode>)
    ensures
        members.flat_map(|m: SyntaxNode| member_missing(model, m)).len() <= members.len(),
    decreases members.len(),
{
    let f = |m: SyntaxNode| member_missing(model, m);
    if members.len() == 0 {
        assert(members.flat_map(f) =~= Seq::<Missing>::empty()) by {
            assert(members.map_values(f) =~= Seq::<Seq<Missing>>::empty());
        }
    } else {
        let init = members.drop_last();
        lemma_member_missing_small(model, init);
        assert(init.push(members.last()) =~= members);
        init.lemma_flat_map_push(f, members.last());
    }
}

proof fn lemma_child_missing_small(c: SyntaxNode)
    ensures
        child_missing(c).len() <= child_bound(c),
{
    if c.kind@ == "type_alias"@ {
        assert(alias_missing(c).len() <= 1);
    } else if c.kind@ == "model_definition"@ {
        assert(model_own_missing(c).len() <= 1);
        match field_child(c, "body"@) {
            Some(body) => {
                lemma_member_missing_small(crate::syntax::field_text_or_empty(c, "name"@), body.children@);
                assert(model_fields_missing(c) == fields_missing(body, crate::syntax::field_text_or_empty(c, "name"@)));
            },
            None => {},
        }
    }
}

proof fn lemma_children_missing_small(s: Seq<SyntaxNode>)
    ensures
        s.flat_map(|c: SyntaxNode| child_missing(c)).len() <= children_bound(s),
    decreases s.len(),
{
    let f = |c: SyntaxNode| child_missing(c);
    if s.len() == 0 {
        assert(s.flat_map(f) =~= Seq::<Missing>::empty()) by {
            assert(s.map_values(f) =~= Seq::<Seq<Missing>>::empty());
        }
    } else {
        let init = s.drop_last();
        lemma_children_missing_small(init);
        assert(init.push(s.last()) =~= s);
        init.lemma_flat_map_push(f, s.last());
        lemma_child_missing_small(s.last());
    }
}

proof fn lemma_counts_small(ws: Seq<Missing>, m: Seq<char>)
    ensures
        global_count(ws) <= ws.len(),
        field_count(ws, m) <= ws.len(),
    decreases ws.len(),
{
    if ws.len() > 0 {
        lemma_counts_small(ws.drop_last(), m);
    }
}

/// Registering IDs no larger than `top` never moves the next free ID above `top + 1`.
proof fn lemma_bumped_small(n: u64, ids: Seq<u64>, top: u64)
    requires
        n <= top + 1,
        top < u64::MAX,
        forall|i: int| 0 <= i < ids.len() ==> ids[i] <= top,
    ensures
        bumped(n, ids) <= top + 1,
    decreases ids.len(),
{
    if ids.len() > 0 {
        lemma_bumped_small(n, ids.drop_last(), top);
    }
}

/// The largest ID that the collected IDs hold (0 when there are none).
fn largest_id(d: &DescendantIds) -> (r: u64)
    ensures
        forall|x: u64| d.global_set().contains(x) ==> x <= r,
        forall|m: Seq<char>, x: u64| d.field_set(m).contains(x) ==> x <= r,
        r == 0 || d.global_set().contains(r) || exists|m: Seq<char>| #[trigger] d.field_set(m).contains(r),
{
    let mut top: u64 = 0;
    let mut i: usize = 0;
    while i < d.global_ids.len()
        invariant
            i <= d.global_ids@.len(),
            forall|k: int| 0 <= k < i ==> d.global_ids@[k] <= top,
            top == 0 || d.global_ids@.contains(top),
        decreases d.global_ids@.len() - i,
    {
        if d.global_ids[i] > top {
            top = d.global_ids[i];
        }
        i = i + 1;
    }
    let mut k: usize = 0;
    while k < d.model_field_ids.len()
        invariant
            k <= d.model_field_ids@.len(),
            forall|j: int| 0 <= j < d.global_ids@.len() ==> d.global_ids@[j] <= top,
            forall|a: int, j: int| 0 <= a < k && 0 <= j < d.model_field_ids@[a].ids@.len() ==> d.model_field_ids@[a].ids@[j] <= top,
            top == 0 || d.global_ids@.contains(top)
                || exists|a: int| 0 <= a < d.model_field_ids@.len() && (#[trigger] d.model_field_ids@[a]).ids@.contains(top),
        decreases d.model_field_ids@.len() - k,
    {
        let ids = &d.model_field_ids[k].ids;
        let mut j: usize = 0;
        while j < ids.len()
            invariant
                k < d.model_field_ids@.len(),
                ids@ == d.model_field_ids@[k as int].ids@,
                j <= ids@.len(),
                forall|b: int| 0 <= b < d.global_ids@.len() ==> d.global_ids@[b] <= top,
                forall|a: int, b: int| 0 <= a < k && 0 <= b < d.model_field_ids@[a].ids@.len() ==> d.model_field_ids@[a].ids@[b] <= top,
                forall|b: int| 0 <= b < j ==> ids@[b] <= top,
                top == 0 || d.global_ids@.contains(top)
                    || exists|a: int| 0 <= a < d.model_field_ids@.len() && (#[trigger] d.model_field_ids@[a]).ids@.contains(top),
            decreases ids@.len() - j,
        {
            if ids[j] > top {
                top = ids[j];
                proof { assert(d.model_field_ids@[k as int].ids@.contains(top)); }
            }
            j = j + 1;
        }
        k = k + 1;
    }
    proof {
        assert forall|x: u64| d.global_set().contains(x) implies x <= top by {
            let j = choose|j: int| 0 <= j < d.global_ids@.len() && d.global_ids@[j] == x;
        }
        assert forall|m: Seq<char>, x: u64| d.field_set(m).contains(x) implies x <= top by {
            let a = choose|a: int| 0 <= a < d.model_field_ids@.len()
                && #[trigger] d.model_field_ids@[a].model@ == m && d.model_field_ids@[a].ids@.contains(x);
            let j = choose|j: int| 0 <= j < d.model_field_ids@[a].ids@.len() && d.model_field_ids@[a].ids@[j] == x;
        }
        if top != 0 && !d.global_ids@.contains(top) {
            let a = choose|a: int| 0 <= a < d.model_field_ids@.len() && (#[trigger] d.model_field_ids@[a]).ids@.contains(top);
            let m = d.model_field_ids@[a].model@;
            assert(d.field_set(m).contains(top));
        }
    }
    top
}

/// The bound `missing_bound` of a document, when it fits in a `u64`.
fn count_bound(root: &SyntaxNode) -> (r: Option<u64>)
    ensures
        match r {
            Some(n) => n == missing_bound(*root),
            None => missing_bound(*root) > u64::MAX,
        },
{
    proof { reveal_strlit("model_definition"); reveal_strlit("body"); }
    let mut n: u64 = 0;
    let mut i: usize = 0;
    proof { assert(root.children@.take(0) =~= Seq::<SyntaxNode>::empty()); }
    while i < root.children.len()
        invariant
            i <= root.children@.len(),
            n == children_bound(root.children@.take(i as int)),
        decreases root.children@.len() - i,
    {
        let c = &root.children[i];
        proof {
            assert(root.children@.take(i as int + 1).drop_last() =~= root.children@.take(i as int));
            assert(root.children@.take(i as int + 1).last() == root.children@[i as int]);
        }
        let mut own: u128 = 1;
        if c.is_kind("model_definition") {
            match c.child_by_field_name("body") {
                Some(body) => {
                    own = 1 + body.children.len() as u128;
                },
                None => {},
            }
        }
        proof { assert(own == child_bound(root.children@[i as int])); }
        if n as u128 + own > u64::MAX as u128 {
            proof { lemma_bound_grows(root.children@, i as int + 1); }
            return None;
        }
        n = (n as u128 + own) as u64;
        i = i + 1;
    }
    proof { assert(root.children@.take(root.children@.len() as int) =~= root.children@); }
    Some(n)
}

proof fn lemma_bound_grows(s: Seq<SyntaxNode>, k: int)
    requires
        0 <= k <= s.len(),
    ensures
        children_bound(s.take(k)) <= children_bound(s),
    decreases s.len() - k,
{
    if k < s.len() {
        assert(s.take(k + 1).drop_last() =~= s.take(k));
        lemma_bound_grows(s, k + 1);
    } else {
        assert(s.take(k) =~= s);
    }
}

/// The entity ID of a registration.
pub open spec fn reg_id(r: Registration) -> u64 {
    match r {
        Registration::Global(id) => id,
        Registration::Field(_, id) => id,
    }
}

/// Whether a document leaves room for its fresh IDs: every entity ID written in the
/// ancestors and the document, plus one, plus a bound on the entities that need a fresh
/// ID (one per top-level node and one per member of a model body), stays below
/// `u64::MAX`. When it does, `plan_format` may assign IDs (its `plan_fits` holds).
pub fn ids_leave_room(ancestors: &Vec<SyntaxNode>, root: &SyntaxNode) -> (r: bool)
    ensures
        r ==> plan_fits(ancestors@, *root),
        r == (missing_bound(*root) + 1 < u64::MAX
            && forall|i: int| 0 <= i < all_registrations(ancestors@, *root).len()
                ==> reg_id(#[trigger] all_registrations(ancestors@, *root)[i]) + 1 + missing_bound(*root) < u64::MAX),
{
    let mut d = collect_ids_from_trees(ancestors);
    let ghost d0 = d;
    extract_ids_from_tree(root, &mut d);
    let top = largest_id(&d);
    let bound = match count_bound(root) {
        Some(n) => n,
        None => { return false; },
    };
    let ghost g = |t: SyntaxNode| tree_registrations(t);
    let ghost anc = ancestors@.flat_map(g);
    let ghost own = tree_registrations(*root);
    let ghost all = all_registrations(ancestors@, *root);
    let ghost gf = |r: Registration| match r {
        Registration::Global(id) => seq![id],
        _ => Seq::<u64>::empty(),
    };
    proof {
        assert(all == anc + own);
        assert(trees_registrations(ancestors@) == anc);
        crate::format::lemma_flat_map_append(anc, own, gf);
        assert(global_regs(all) == global_regs(anc) + global_regs(own));
        assert forall|m: Seq<char>| #[trigger] field_regs(all, m) == field_regs(anc, m) + field_regs(own, m) by {
            let ff = |r: Registration| match r {
                Registration::Field(mm, id) => if mm == m { seq![id] } else { Seq::<u64>::empty() },
                _ => Seq::<u64>::empty(),
            };
            crate::format::lemma_flat_map_append(anc, own, ff);
        }
        // the collected sets are the IDs of all registrations
        assert forall|x: u64| d.global_set().contains(x) <==> global_regs(all).contains(x) by {
            if global_regs(anc).contains(x) {
                let k = choose|k: int| 0 <= k < global_regs(anc).len() && global_regs(anc)[k] == x;
                assert(global_regs(all)[k] == x);
            }
            if global_regs(own).contains(x) {
                let k = choose|k: int| 0 <= k < global_regs(own).len() && global_regs(own)[k] == x;
                assert(global_regs(all)[global_regs(anc).len() + k] == x);
            }
            if global_regs(all).contains(x) {
                let k = choose|k: int| 0 <= k < global_regs(all).len() && global_regs(all)[k] == x;
                if k < global_regs(anc).len() {
                    assert(global_regs(anc)[k] == x);
                } else {
                    assert(global_regs(own)[k - global_regs(anc).len()] == x);
                }
            }
        }
        assert forall|m: Seq<char>, x: u64| #[trigger] d.field_set(m).contains(x) <==> field_regs(all, m).contains(x) by {
            assert(field_regs(all, m) == field_regs(anc, m) + field_regs(own, m));
            if field_regs(anc, m).contains(x) {
                let k = choose|k: int| 0 <= k < field_regs(anc, m).len() && field_regs(anc, m)[k] == x;
                assert(field_regs(all, m)[k] == x);
            }
            if field_regs(own, m).contains(x) {
                let k = choose|k: int| 0 <= k < field_regs(own, m).len() && field_regs(own, m)[k] == x;
                assert(field_regs(all, m)[field_regs(anc, m).len() + k] == x);
            }
            if field_regs(all, m).contains(x) {
                let k = choose|k: int| 0 <= k < field_regs(all, m).len() && field_regs(all, m)[k] == x;
                if k < field_regs(anc, m).len() {
                    assert(field_regs(anc, m)[k] == x);
                } else {
                    assert(field_regs(own, m)[k - field_regs(anc, m).len()] == x);
                }
            }
        }
        // every registered ID is at most `top`
        assert forall|i: int| 0 <= i < all.len() implies reg_id(#[trigger] all[i]) <= top by {
            match all[i] {
                Registration::Global(id) => {
                    assert(gf(all[i]) == seq![id]);
                    assert(gf(all[i])[0] == id);
                    lemma_flat_map_has(all, gf, i, id);
                    assert(d.global_set().contains(id));
                },
                Registration::Field(mm, id) => {
                    let ff = |r: Registration| match r {
                        Registration::Field(m2, id2) => if m2 == mm { seq![id2] } else { Seq::<u64>::empty() },
                        _ => Seq::<u64>::empty(),
                    };
                    assert(ff(all[i]) == seq![id]);
                    assert(ff(all[i])[0] == id);
                    lemma_flat_map_has(all, ff, i, id);
                    assert(field_regs(all, mm) == all.flat_map(ff));
                    assert(d.field_set(mm).contains(id));
                },
            }
        }
    }
    if top as u128 + 1 + bound as u128 >= u64::MAX as u128 {
        proof {
            if top != 0 {
                // `top` is the ID of some registration
                if d.global_set().contains(top) {
                    assert(global_regs(all).contains(top));
                    crate::migrate_laws::lemma_flat_map_member(all, gf, top);
                    let k = choose|k: int| 0 <= k < all.len() && #[trigger] gf(all[k]).contains(top);
                    assert(reg_id(all[k]) == top);
                } else {
                    let m = choose|m: Seq<char>| #[trigger] d.field_set(m).contains(top);
                    assert(field_regs(all, m).contains(top));
                    let ff = |r: Registration| match r {
                        Registration::Field(m2, id2) => if m2 == m { seq![id2] } else { Seq::<u64>::empty() },
                        _ => Seq::<u64>::empty(),
                    };
                    assert(field_regs(all, m) == all.flat_map(ff));
                    crate::migrate_laws::lemma_flat_map_member(all, ff, top);
                    let k = choose|k: int| 0 <= k < all.len() && #[trigger] ff(all[k]).contains(top);
                    assert(reg_id(all[k]) == top);
                }
            }
        }
        return false;
    }
    proof {
        assert forall|i: int| 0 <= i < all.len() implies match #[trigger] all[i] {
            Registration::Global(id) => id < u64::MAX,
            Registration::Field(_, id) => id < u64::MAX,
        } by {
            assert(reg_id(all[i]) <= top);
        }
        assert(regs_below_max(all));
        assert forall|i: int| 0 <= i < global_regs(all).len() implies global_regs(all)[i] <= top by {
            assert(global_regs(all).contains(global_regs(all)[i]));
        }
        let ws = tree_missing(*root);
        lemma_children_missing_small(root.children@);
        lemma_bumped_small(1, global_regs(all), top);
        lemma_counts_small(ws, Seq::<char>::empty());
        assert forall|m: Seq<char>| #[trigger] bumped(1, field_regs(all, m)) + field_count(ws, m) < u64::MAX by {
            assert forall|i: int| 0 <= i < field_regs(all, m).len() implies field_regs(all, m)[i] <= top by {
                assert(field_regs(all, m).contains(field_regs(all, m)[i]));
                assert(d.field_set(m).contains(field_regs(all, m)[i]));
            }
            lemma_bumped_small(1, field_regs(all, m), top);
            lemma_counts_small(ws, m);
        }
    }
    true
}

} // verus!
