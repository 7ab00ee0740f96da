use vstd::prelude::*;

use crate::json::{entries_covered, entries_in, entry_covered, entry_found, items_eq, json_eq, JsonView};
use crate::migrate::{
    alias_by_id, alias_delta_by_id, alias_added_by_name, alias_removed_by_id, alias_removed_by_name, alias_views,
    aliases_wf, field_by_id, field_changes, field_delta_by_id, field_delta_by_name, field_removed_by_id,
    field_removed_by_name, fields_wf, has_alias_named, has_field_named, model_by_id, model_delta_by_id,
    model_delta_by_name, model_inner_deltas, model_named, model_removed_by_id, model_removed_by_name,
    field_types_same, model_views, models_wf, schema_wf, spec_deltas, spec_field_deltas, spec_inheritance_deltas,
    spec_model_deltas, spec_type_alias_deltas, unnumbered_field_named, DeltaView,
};
use crate::schema::{
    all_covered, all_matched, covered, matched, types_eq, values_eq, EntityId, FieldView, ModelView, Schema, TypeAliasView, TypeView,
    ValueView,
};

verus! {

/// Every type equals itself.
pub proof fn lemma_types_eq_refl(t: TypeView)
    ensures
        types_eq(t, t),
    decreases t, 2nat, 0nat,
{
    match t {
        TypeView::Identifier(_) => {},
        TypeView::Array(x) => { lemma_types_eq_refl(*x); },
        TypeView::Union(xs) => {
            lemma_all_matched_refl(xs, xs.len());
            lemma_all_covered_refl(xs, xs.len());
        },
        TypeView::StringLiteral(_) => {},
    }
}

/// Law: type equality does not depend on which side a type stands on; in particular
/// two unions are equal or unequal whichever of them comes first.
pub proof fn law_types_eq_symmetric(a: TypeView, b: TypeView)
    ensures
        types_eq(a, b) == types_eq(b, a),
    decreases a, 0nat, 0nat,
{
    match (a, b) {
        (TypeView::Array(x), TypeView::Array(y)) => {
            law_types_eq_symmetric(*x, *y);
        },
        (TypeView::Union(x), TypeView::Union(y)) => {
            if x.len() == y.len() {
                lemma_matched_iff_covered(x, y, x.len());
                lemma_covered_iff_matched(x, y, y.len());
            }
        },
        _ => {},
    }
}

proof fn lemma_matched_iff_covered(x: Seq<TypeView>, y: Seq<TypeView>, n: nat)
    ensures
        all_matched(x, y, n) == all_covered(y, x, n),
    decreases x, 2nat, n,
{
    if n > 0 && n <= x.len() {
        lemma_matched_iff_covered(x, y, (n - 1) as nat);
        assert(decreases_to!(x => x[n - 1]));
        lemma_matched_covered_one(x[n - 1], y, y.len());
    }
}

proof fn lemma_matched_covered_one(e: TypeView, y: Seq<TypeView>, m: nat)
    ensures
        matched(e, y, m) == covered(y, e, m),
    decreases e, 1nat, m,
{
    if m > 0 && m <= y.len() {
        lemma_matched_covered_one(e, y, (m - 1) as nat);
        law_types_eq_symmetric(e, y[m - 1]);
    }
}

proof fn lemma_covered_iff_matched(x: Seq<TypeView>, y: Seq<TypeView>, n: nat)
    ensures
        all_covered(x, y, n) == all_matched(y, x, n),
    decreases x, 2nat, n,
{
    if n > 0 && n <= y.len() {
        lemma_covered_iff_matched(x, y, (n - 1) as nat);
        lemma_covered_matched_one(x, y[n - 1], x.len());
    }
}

proof fn lemma_covered_matched_one(x: Seq<TypeView>, e: TypeView, m: nat)
    ensures
        covered(x, e, m) == matched(e, x, m),
    decreases x, 1nat, m,
{
    if m > 0 && m <= x.len() {
        lemma_covered_matched_one(x, e, (m - 1) as nat);
        assert(decreases_to!(x => x[m - 1]));
        law_types_eq_symmetric(x[m - 1], e);
    }
}

proof fn lemma_all_covered_refl(xs: Seq<TypeView>, n: nat)
    requires
        n <= xs.len(),
    ensures
        all_covered(xs, xs, n),
    decreases xs, 1nat, n,
{
    if n > 0 {
        lemma_all_covered_refl(xs, (n - 1) as nat);
        lemma_covered_self(xs, (n - 1) as int, xs.len());
    }
}

proof fn lemma_covered_self(xs: Seq<TypeView>, i: int, m: nat)
    requires
        0 <= i < m <= xs.len(),
    ensures
        covered(xs, xs[i], m),
    decreases xs, 0nat, m,
{
    assert(decreases_to!(xs => xs[i]));
    if i == m - 1 {
        lemma_types_eq_refl(xs[i]);
    } else {
        lemma_covered_self(xs, i, (m - 1) as nat);
    }
}

proof fn lemma_all_matched_refl(xs: Seq<TypeView>, n: nat)
    requires
        n <= xs.len(),
    ensures
        all_matched(xs, xs, n),
    decreases xs, 1nat, n,
{
    if n > 0 {
        lemma_all_matched_refl(xs, (n - 1) as nat);
        lemma_matched_self(xs, (n - 1) as int, xs.len());
    }
}

proof fn lemma_matched_self(xs: Seq<TypeView>, i: int, m: nat)
    requires
        0 <= i < m <= xs.len(),
    ensures
        matched(xs[i], xs, m),
    decreases xs, 0nat, m,
{
    assert(decreases_to!(xs => xs[i]));
    if i == m - 1 {
        lemma_types_eq_refl(xs[i]);
    } else {
        lemma_matched_self(xs, i, (m - 1) as nat);
    }
}

/// Every JSON value equals itself.
pub proof fn lemma_json_eq_refl(v: JsonView)
    ensures
        json_eq(v, v),
    decreases v, 1nat,
{
    match v {
        JsonView::Array(xs) => { lemma_items_eq_refl(xs, xs.len()); },
        JsonView::Object(es) => {
            lemma_entries_in_refl(es, es.len());
            lemma_entries_covered_refl(es, es.len());
        },
        _ => {},
    }
}

proof fn lemma_items_eq_refl(xs: Seq<JsonView>, n: nat)
    requires
        n <= xs.len(),
    ensures
        items_eq(xs, xs, n),
    decreases xs, 0nat, n,
{
    if n > 0 {
        lemma_items_eq_refl(xs, (n - 1) as nat);
        assert(decreases_to!(xs => xs[n - 1]));
        lemma_json_eq_refl(xs[n - 1]);
    }
}

proof fn lemma_entries_in_refl(es: Seq<(Seq<char>, JsonView)>, n: nat)
    requires
        n <= es.len(),
    ensures
        entries_in(es, es, n),
    decreases es, 1nat, n,
{
    if n > 0 {
        lemma_entries_in_refl(es, (n - 1) as nat);
        lemma_entry_found_self(es, n - 1, es.len());
    }
}

proof fn lemma_entry_found_self(es: Seq<(Seq<char>, JsonView)>, i: int, m: nat)
    requires
        0 <= i < m <= es.len(),
    ensures
        entry_found(es[i], es, m),
    decreases es, 0nat, m,
{
    if i == m - 1 {
        assert(decreases_to!(es => es[i]));
        let e = es[i];
        assert(decreases_to!(e => e.1));
        lemma_json_eq_refl(es[i].1);
    } else {
        lemma_entry_found_self(es, i, (m - 1) as nat);
    }
}

proof fn lemma_entries_covered_refl(es: Seq<(Seq<char>, JsonView)>, n: nat)
    requires
        n <= es.len(),
    ensures
        entries_covered(es, es, n),
    decreases es, 1nat, n,
{
    if n > 0 {
        lemma_entries_covered_refl(es, (n - 1) as nat);
        lemma_entry_covered_self(es, n - 1, es.len());
    }
}

proof fn lemma_entry_covered_self(es: Seq<(Seq<char>, JsonView)>, i: int, m: nat)
    requires
        0 <= i < m <= es.len(),
    ensures
        entry_covered(es, es[i], m),
    decreases es, 0nat, m,
{
    if i == m - 1 {
        assert(decreases_to!(es => es[i]));
        let e = es[i];
        assert(decreases_to!(e => e.1));
        lemma_json_eq_refl(es[i].1);
    } else {
        lemma_entry_covered_self(es, i, (m - 1) as nat);
    }
}

/// A flat map whose every part is empty is empty.
pub proof fn lemma_flat_map_all_empty<A, B>(s: Seq<A>, f: spec_fn(A) -> Seq<B>)
    requires
        forall|i: int| 0 <= i < s.len() ==> #[trigger] f(s[i]) == Seq::<B>::empty(),
    ensures
        s.flat_map(f) == Seq::<B>::empty(),
    decreases s.len(),
{
    if s.len() == 0 {
        assert(s.map_values(f) =~= Seq::<Seq<B>>::empty());
        assert(s.flat_map(f) =~= Seq::<B>::empty());
    } else {
        let t = s.drop_last();
        assert forall|i: int| 0 <= i < t.len() implies #[trigger] f(t[i]) == Seq::<B>::empty() by {
            assert(t[i] == s[i]);
        }
        lemma_flat_map_all_empty(t, f);
        assert(t.push(s.last()) =~= s);
        t.lemma_flat_map_push(f, s.last());
        assert(f(s.last()) == f(s[s.len() - 1]));
    }
}

/// A default value equals itself under the number comparison (numbers that compare
/// equal to themselves, strings, booleans, or none).
pub open spec fn default_self_equal<F: Fn(u64, u64) -> bool>(numbers_equal: F, d: Option<ValueView>) -> bool {
    values_eq(numbers_equal, d, d)
}

/// Every field of every model has a default that equals itself.
pub open spec fn defaults_self_equal<F: Fn(u64, u64) -> bool>(numbers_equal: F, ms: Seq<ModelView>) -> bool {
    forall|i: int, j: int| 0 <= i < ms.len() && 0 <= j < ms[i].fields.len()
        ==> default_self_equal(numbers_equal, #[trigger] ms[i].fields[j].default)
}

proof fn lemma_field_changes_none<F: Fn(u64, u64) -> bool>(numbers_equal: F, pa: Seq<TypeAliasView>, ca: Seq<TypeAliasView>, model: Seq<char>, f: FieldView)
    requires
        default_self_equal(numbers_equal, f.default),
    ensures
        field_changes(numbers_equal, pa, ca, model, f, f) == Seq::<DeltaView>::empty(),
{
    lemma_types_eq_refl(f.field_type);
    lemma_json_eq_refl(f.config);
    assert(field_changes(numbers_equal, pa, ca, model, f, f) =~= Seq::<DeltaView>::empty());
}

proof fn lemma_field_by_id_self(fs: Seq<FieldView>, i: int)
    requires
        fields_wf(fs),
        0 <= i < fs.len(),
        fs[i].entity_id is Some,
    ensures
        field_by_id(fs, fs[i].entity_id->0) == Some(fs[i]),
{
    let id = fs[i].entity_id->0;
    assert(fs[i].entity_id == Some(id));
    let j = choose|j: int| 0 <= j < fs.len() && fs[j].entity_id == Some(id)
        && forall|k: int| 0 <= k < j ==> fs[k].entity_id != Some(id);
    if j < i {
        assert(fs[j].entity_id != fs[i].entity_id);
    } else if j > i {
        assert(fs[i].entity_id != fs[j].entity_id);
    }
}

proof fn lemma_unnumbered_self(fs: Seq<FieldView>, i: int)
    requires
        fields_wf(fs),
        0 <= i < fs.len(),
        fs[i].entity_id is None,
    ensures
        unnumbered_field_named(fs, fs[i].name) == Some(fs[i]),
{
    let name = fs[i].name;
    let j = choose|j: int| 0 <= j < fs.len() && fs[j].name == name && fs[j].entity_id is None
        && forall|k: int| 0 <= k < j ==> !(fs[k].name == name && fs[k].entity_id is None);
    if j < i {
        assert(fs[j].name != fs[i].name);
    } else if j > i {
        assert(fs[i].name != fs[j].name);
    }
}

/// A model's fields compared with themselves give no field deltas.
pub proof fn lemma_field_deltas_refl<F: Fn(u64, u64) -> bool>(numbers_equal: F, pa: Seq<TypeAliasView>, ca: Seq<TypeAliasView>, model: Seq<char>, fs: Seq<FieldView>)
    requires
        fields_wf(fs),
        forall|j: int| 0 <= j < fs.len() ==> default_self_equal(numbers_equal, #[trigger] fs[j].default),
    ensures
        spec_field_deltas(numbers_equal, pa, ca, model, fs, fs) == Seq::<DeltaView>::empty(),
{
    let f1 = |c: FieldView| field_delta_by_id(numbers_equal, pa, ca, model, fs, c);
    let f2 = |p: FieldView| field_removed_by_id(model, fs, p);
    let f3 = |c: FieldView| field_delta_by_name(numbers_equal, pa, ca, model, fs, c);
    let f4 = |p: FieldView| field_removed_by_name(model, fs, p);
    assert forall|i: int| 0 <= i < fs.len() implies #[trigger] f1(fs[i]) == Seq::<DeltaView>::empty() by {
        if fs[i].entity_id is Some {
            lemma_field_by_id_self(fs, i);
            lemma_field_changes_none(numbers_equal, pa, ca, model, fs[i]);
        }
    }
    assert forall|i: int| 0 <= i < fs.len() implies #[trigger] f2(fs[i]) == Seq::<DeltaView>::empty() by {
        if fs[i].entity_id is Some {
            lemma_field_by_id_self(fs, i);
        }
    }
    assert forall|i: int| 0 <= i < fs.len() implies #[trigger] f3(fs[i]) == Seq::<DeltaView>::empty() by {
        if fs[i].entity_id is None {
            lemma_unnumbered_self(fs, i);
            lemma_field_changes_none(numbers_equal, pa, ca, model, fs[i]);
        }
    }
    assert forall|i: int| 0 <= i < fs.len() implies #[trigger] f4(fs[i]) == Seq::<DeltaView>::empty() by {
        assert(has_field_named(fs, fs[i].name));
    }
    lemma_flat_map_all_empty(fs, f1);
    lemma_flat_map_all_empty(fs, f2);
    lemma_flat_map_all_empty(fs, f3);
    lemma_flat_map_all_empty(fs, f4);
    assert(spec_field_deltas(numbers_equal, pa, ca, model, fs, fs) =~= Seq::<DeltaView>::empty());
}

/// A model's parents compared with themselves give no inheritance deltas.
pub proof fn lemma_inheritance_deltas_refl(model: Seq<char>, ps: Seq<Seq<char>>)
    ensures
        spec_inheritance_deltas(model, ps, ps) == Seq::<DeltaView>::empty(),
{
    let g1 = |q: Seq<char>| if !ps.contains(q) { seq![DeltaView::InheritanceAdded { model, parent: q }] } else { Seq::<DeltaView>::empty() };
    let g2 = |q: Seq<char>| if !ps.contains(q) { seq![DeltaView::InheritanceRemoved { model, parent: q }] } else { Seq::<DeltaView>::empty() };
    assert forall|i: int| 0 <= i < ps.len() implies #[trigger] g1(ps[i]) == Seq::<DeltaView>::empty() by {
        assert(ps.contains(ps[i]));
    }
    assert forall|i: int| 0 <= i < ps.len() implies #[trigger] g2(ps[i]) == Seq::<DeltaView>::empty() by {
        assert(ps.contains(ps[i]));
    }
    lemma_flat_map_all_empty(ps, g1);
    lemma_flat_map_all_empty(ps, g2);
    assert(spec_inheritance_deltas(model, ps, ps) =~= Seq::<DeltaView>::empty());
}

proof fn lemma_model_by_id_self(ms: Seq<ModelView>, i: int)
    requires
        models_wf(ms),
        0 <= i < ms.len(),
        ms[i].entity_id is Some,
    ensures
        model_by_id(ms, ms[i].entity_id->0) == Some(ms[i]),
{
    let id = ms[i].entity_id->0;
    assert(ms[i].entity_id == Some(id));
    let j = choose|j: int| 0 <= j < ms.len() && ms[j].entity_id == Some(id)
        && forall|k: int| 0 <= k < j ==> ms[k].entity_id != Some(id);
    if j < i {
        assert(ms[j].entity_id != ms[i].entity_id);
    } else if j > i {
        assert(ms[i].entity_id != ms[j].entity_id);
    }
}

proof fn lemma_model_named_self(ms: Seq<ModelView>, i: int)
    requires
        models_wf(ms),
        0 <= i < ms.len(),
    ensures
        model_named(ms, ms[i].name) == Some(ms[i]),
{
    let name = ms[i].name;
    let j = choose|j: int| 0 <= j < ms.len() && ms[j].name == name && forall|k: int| 0 <= k < j ==> ms[k].name != name;
    if j < i {
        assert(ms[j].name != ms[i].name);
    } else if j > i {
        assert(ms[i].name != ms[j].name);
    }
}

proof fn lemma_model_inner_refl<F: Fn(u64, u64) -> bool>(numbers_equal: F, pa: Seq<TypeAliasView>, ca: Seq<TypeAliasView>, ms: Seq<ModelView>, i: int)
    requires
        models_wf(ms),
        defaults_self_equal(numbers_equal, ms),
        0 <= i < ms.len(),
    ensures
        model_inner_deltas(numbers_equal, pa, ca, ms[i].name, ms[i], ms[i]) == Seq::<DeltaView>::empty(),
{
    assert(fields_wf(ms[i].fields));
    assert forall|j: int| 0 <= j < ms[i].fields.len() implies default_self_equal(numbers_equal, #[trigger] ms[i].fields[j].default) by {
        assert(default_self_equal(numbers_equal, ms[i].fields[j].default));
    }
    lemma_field_deltas_refl(numbers_equal, pa, ca, ms[i].name, ms[i].fields);
    lemma_inheritance_deltas_refl(ms[i].name, ms[i].parents);
    assert(model_inner_deltas(numbers_equal, pa, ca, ms[i].name, ms[i], ms[i]) =~= Seq::<DeltaView>::empty());
}

/// Models compared with themselves give no model deltas.
pub proof fn lemma_model_deltas_refl<F: Fn(u64, u64) -> bool>(numbers_equal: F, pa: Seq<TypeAliasView>, ca: Seq<TypeAliasView>, ms: Seq<ModelView>)
    requires
        models_wf(ms),
        defaults_self_equal(numbers_equal, ms),
    ensures
        spec_model_deltas(numbers_equal, pa, ca, ms, ms) == Seq::<DeltaView>::empty(),
{
    let f1 = |c: ModelView| model_delta_by_id(numbers_equal, pa, ca, ms, c);
    let f2 = |p: ModelView| model_removed_by_id(ms, p);
    let f3 = |c: ModelView| model_delta_by_name(numbers_equal, pa, ca, ms, c);
    let f4 = |p: ModelView| model_removed_by_name(ms, p);
    assert forall|i: int| 0 <= i < ms.len() implies #[trigger] f1(ms[i]) == Seq::<DeltaView>::empty() by {
        if ms[i].entity_id is Some {
            lemma_model_by_id_self(ms, i);
            lemma_model_inner_refl(numbers_equal, pa, ca, ms, i);
            lemma_json_eq_refl(ms[i].config);
            assert(f1(ms[i]) =~= Seq::<DeltaView>::empty());
        }
    }
    assert forall|i: int| 0 <= i < ms.len() implies #[trigger] f2(ms[i]) == Seq::<DeltaView>::empty() by {
        if ms[i].entity_id is Some {
            lemma_model_by_id_self(ms, i);
        }
    }
    assert forall|i: int| 0 <= i < ms.len() implies #[trigger] f3(ms[i]) == Seq::<DeltaView>::empty() by {
        if ms[i].entity_id is None {
            lemma_model_named_self(ms, i);
            lemma_model_inner_refl(numbers_equal, pa, ca, ms, i);
        }
    }
    assert forall|i: int| 0 <= i < ms.len() implies #[trigger] f4(ms[i]) == Seq::<DeltaView>::empty() by {
        lemma_model_named_self(ms, i);
    }
    lemma_flat_map_all_empty(ms, f1);
    lemma_flat_map_all_empty(ms, f2);
    lemma_flat_map_all_empty(ms, f3);
    lemma_flat_map_all_empty(ms, f4);
    assert(spec_model_deltas(numbers_equal, pa, ca, ms, ms) =~= Seq::<DeltaView>::empty());
}

proof fn lemma_alias_by_id_self(xs: Seq<TypeAliasView>, i: int)
    requires
        aliases_wf(xs),
        0 <= i < xs.len(),
        xs[i].entity_id is Some,
    ensures
        alias_by_id(xs, xs[i].entity_id->0) == Some(xs[i]),
{
    let id = xs[i].entity_id->0;
    assert(xs[i].entity_id == Some(id));
    let j = choose|j: int| 0 <= j < xs.len() && xs[j].entity_id == Some(id)
        && forall|k: int| 0 <= k < j ==> xs[k].entity_id != Some(id);
    if j < i {
        assert(xs[j].entity_id != xs[i].entity_id);
    } else if j > i {
        assert(xs[i].entity_id != xs[j].entity_id);
    }
}

/// Type aliases compared with themselves give no type alias deltas.
pub proof fn lemma_type_alias_deltas_refl(xs: Seq<TypeAliasView>)
    requires
        aliases_wf(xs),
    ensures
        spec_type_alias_deltas(xs, xs) == Seq::<DeltaView>::empty(),
{
    let f1 = |c: TypeAliasView| alias_delta_by_id(xs, c);
    let f2 = |p: TypeAliasView| alias_removed_by_id(xs, p);
    let f3 = |c: TypeAliasView| alias_added_by_name(xs, c);
    let f4 = |p: TypeAliasView| alias_removed_by_name(xs, p);
    assert forall|i: int| 0 <= i < xs.len() implies #[trigger] f1(xs[i]) == Seq::<DeltaView>::empty() by {
        if xs[i].entity_id is Some {
            lemma_alias_by_id_self(xs, i);
            lemma_types_eq_refl(xs[i].alias_type);
        }
    }
    assert forall|i: int| 0 <= i < xs.len() implies #[trigger] f2(xs[i]) == Seq::<DeltaView>::empty() by {
        if xs[i].entity_id is Some {
            lemma_alias_by_id_self(xs, i);
        }
    }
    assert forall|i: int| 0 <= i < xs.len() implies #[trigger] f3(xs[i]) == Seq::<DeltaView>::empty() by {
        assert(has_alias_named(xs, xs[i].name));
    }
    assert forall|i: int| 0 <= i < xs.len() implies #[trigger] f4(xs[i]) == Seq::<DeltaView>::empty() by {
        assert(has_alias_named(xs, xs[i].name));
    }
    lemma_flat_map_all_empty(xs, f1);
    lemma_flat_map_all_empty(xs, f2);
    lemma_flat_map_all_empty(xs, f3);
    lemma_flat_map_all_empty(xs, f4);
    assert(spec_type_alias_deltas(xs, xs) =~= Seq::<DeltaView>::empty());
}

/// An unchanged schema migrates to nothing: comparing a schema with itself gives no
/// deltas, provided each field default equals itself (a default that is a JSON value,
/// or a number that does not equal itself, always counts as changed).
pub proof fn law_unchanged_schema_has_no_deltas<F: Fn(u64, u64) -> bool>(numbers_equal: F, s: Schema)
    requires
        schema_wf(s),
        defaults_self_equal(numbers_equal, model_views(s.models@)),
    ensures
        spec_deltas(numbers_equal, s, s) == Seq::<DeltaView>::empty(),
{
    let pa = alias_views(s.type_aliases@);
    lemma_type_alias_deltas_refl(pa);
    lemma_model_deltas_refl(numbers_equal, pa, pa, model_views(s.models@));
    assert(spec_deltas(numbers_equal, s, s) =~= Seq::<DeltaView>::empty());
}


/// Every element of a flat map comes from the part of some item.
pub(crate) proof fn lemma_flat_map_member<A, B>(s: Seq<A>, f: spec_fn(A) -> Seq<B>, x: B)
    requires
        s.flat_map(f).contains(x),
    ensures
        exists|k: int| 0 <= k < s.len() && #[trigger] f(s[k]).contains(x),
    decreases s.len(),
{
    if s.len() == 0 {
        assert(s.flat_map(f) =~= Seq::<B>::empty()) by {
            assert(s.map_values(f) =~= Seq::<Seq<B>>::empty());
        }
    } else {
        let init = s.drop_last();
        assert(init.push(s.last()) =~= s);
        init.lemma_flat_map_push(f, s.last());
        let whole = s.flat_map(f);
        let n = init.flat_map(f).len();
        let k = choose|k: int| 0 <= k < whole.len() && whole[k] == x;
        if k < n {
            assert(init.flat_map(f)[k] == x);
            lemma_flat_map_member(init, f, x);
            let j = choose|j: int| 0 <= j < init.len() && #[trigger] f(init[j]).contains(x);
            assert(s[j] == init[j]);
        } else {
            assert(f(s.last())[k - n] == x);
            assert(f(s[s.len() - 1]).contains(x));
        }
    }
}

/// What the part of one item holds, the flat map holds.
pub(crate) proof fn lemma_flat_map_has<A, B>(s: Seq<A>, f: spec_fn(A) -> Seq<B>, k: int, x: B)
    requires
        0 <= k < s.len(),
        f(s[k]).contains(x),
    ensures
        s.flat_map(f).contains(x),
{
    crate::format::lemma_flat_map_prefix_index(s, f, k);
    let fk = f(s[k]);
    let m = choose|m: int| 0 <= m < fk.len() && fk[m] == x;
    assert(s.flat_map(f)[s.take(k).flat_map(f).len() + m] == x);
}

/// What a concatenation holds, one of its two parts holds.
proof fn lemma_add_member<B>(a: Seq<B>, b: Seq<B>, x: B)
    requires
        (a + b).contains(x),
    ensures
        a.contains(x) || b.contains(x),
{
    let ab = a + b;
    let k = choose|k: int| 0 <= k < ab.len() && ab[k] == x;
    if k < a.len() {
        assert(a[k] == x);
    } else {
        assert(b[k - a.len()] == x);
    }
}

/// In a well-formed field list, the field found by an ID is the one that has it.
proof fn lemma_field_by_id_at(fs: Seq<FieldView>, i: int)
    requires
        fields_wf(fs),
        0 <= i < fs.len(),
        fs[i].entity_id is Some,
    ensures
        field_by_id(fs, fs[i].entity_id->0) == Some(fs[i]),
{
    let id = fs[i].entity_id->0;
    assert(fs[i].entity_id == Some(id));
    let c = choose|c: int| 0 <= c < fs.len() && fs[c].entity_id == Some(id)
        && forall|k: int| 0 <= k < c ==> fs[k].entity_id != Some(id);
    assert(exists|c: int| 0 <= c < fs.len() && fs[c].entity_id == Some(id)
        && forall|k: int| 0 <= k < c ==> fs[k].entity_id != Some(id)) by {
        assert forall|k: int| 0 <= k < i implies fs[k].entity_id != Some(id) by {
            if fs[k].entity_id == Some(id) {
                assert(fs[k].entity_id is Some);
            }
        }
    }
    if c < i {
        assert(fs[c].entity_id is Some);
    } else if c > i {
        assert(fs[i].entity_id != fs[c].entity_id);
    }
}

/// What the rename law asks of two versions of a model's fields: both well formed,
/// and field `i` before and field `j` after share an ID under different names.
pub open spec fn renamed_pair(prev: Seq<FieldView>, curr: Seq<FieldView>, i: int, j: int) -> bool {
    &&& fields_wf(prev)
    &&& fields_wf(curr)
    &&& 0 <= i < prev.len()
    &&& 0 <= j < curr.len()
    &&& prev[i].entity_id is Some
    &&& curr[j].entity_id == prev[i].entity_id
    &&& prev[i].name != curr[j].name
}

/// A delta that reports the old name as removed or the new name as added.
pub open spec fn drops_pair(d: DeltaView, old_name: Seq<char>, new_name: Seq<char>) -> bool {
    ||| d matches DeltaView::FieldRemoved { field, .. } && field == old_name
    ||| d matches DeltaView::FieldAdded { field, .. } && field == new_name
}

#[verifier::spinoff_prover]
proof fn lemma_by_id_part<F: Fn(u64, u64) -> bool>(numbers_equal: F, pa: Seq<TypeAliasView>, ca: Seq<TypeAliasView>, model: Seq<char>, prev: Seq<FieldView>, curr: Seq<FieldView>, i: int, j: int, d: DeltaView)
    requires
        renamed_pair(prev, curr, i, j),
        curr.flat_map(|c: FieldView| field_delta_by_id(numbers_equal, pa, ca, model, prev, c)).contains(d),
    ensures
        !drops_pair(d, prev[i].name, curr[j].name),
{
    let by_id = |c: FieldView| field_delta_by_id(numbers_equal, pa, ca, model, prev, c);
    lemma_flat_map_member(curr, by_id, d);
    let k = choose|k: int| 0 <= k < curr.len() && #[trigger] by_id(curr[k]).contains(d);
    if k != j {
        assert(curr[k].name != curr[j].name);
    }
    lemma_field_by_id_at(prev, i);
    match curr[k].entity_id {
        Some(x) => {
            match field_by_id(prev, x) {
                Some(p) => {
                    if p.name != curr[k].name {
                        assert(d == by_id(curr[k])[0]);
                    } else {
                        let fc = field_changes(numbers_equal, pa, ca, model, p, curr[k]);
                        assert(by_id(curr[k]) == fc);
                        let m = choose|m: int| 0 <= m < fc.len() && fc[m] == d;
                    }
                },
                None => {
                    assert(d == by_id(curr[k])[0]);
                },
            }
        },
        None => {
            assert(by_id(curr[k]) =~= Seq::<DeltaView>::empty());
        },
    }
}

proof fn lemma_removed_by_id_part(model: Seq<char>, prev: Seq<FieldView>, curr: Seq<FieldView>, i: int, j: int, d: DeltaView)
    requires
        renamed_pair(prev, curr, i, j),
        prev.flat_map(|p: FieldView| field_removed_by_id(model, curr, p)).contains(d),
    ensures
        !drops_pair(d, prev[i].name, curr[j].name),
{
    let gone_id = |p: FieldView| field_removed_by_id(model, curr, p);
    lemma_flat_map_member(prev, gone_id, d);
    let k = choose|k: int| 0 <= k < prev.len() && #[trigger] gone_id(prev[k]).contains(d);
    if k != i {
        assert(prev[k].name != prev[i].name);
    }
    lemma_field_by_id_at(curr, j);
    match prev[k].entity_id {
        Some(x) => {
            if field_by_id(curr, x) is None {
                assert(d == gone_id(prev[k])[0]);
            } else {
                assert(gone_id(prev[k]) =~= Seq::<DeltaView>::empty());
            }
        },
        None => {
            assert(gone_id(prev[k]) =~= Seq::<DeltaView>::empty());
        },
    }
}

#[verifier::spinoff_prover]
proof fn lemma_by_name_part<F: Fn(u64, u64) -> bool>(numbers_equal: F, pa: Seq<TypeAliasView>, ca: Seq<TypeAliasView>, model: Seq<char>, prev: Seq<FieldView>, curr: Seq<FieldView>, i: int, j: int, d: DeltaView)
    requires
        renamed_pair(prev, curr, i, j),
        curr.flat_map(|c: FieldView| field_delta_by_name(numbers_equal, pa, ca, model, prev, c)).contains(d),
    ensures
        !drops_pair(d, prev[i].name, curr[j].name),
{
    let by_name = |c: FieldView| field_delta_by_name(numbers_equal, pa, ca, model, prev, c);
    lemma_flat_map_member(curr, by_name, d);
    let k = choose|k: int| 0 <= k < curr.len() && #[trigger] by_name(curr[k]).contains(d);
    if curr[k].entity_id is None {
        assert(k != j);
        assert(curr[k].name != curr[j].name);
        match unnumbered_field_named(prev, curr[k].name) {
            Some(p) => {
                let fc = field_changes(numbers_equal, pa, ca, model, p, curr[k]);
                assert(by_name(curr[k]) == fc);
                let m = choose|m: int| 0 <= m < fc.len() && fc[m] == d;
            },
            None => {
                assert(d == by_name(curr[k])[0]);
            },
        }
    } else {
        assert(by_name(curr[k]) =~= Seq::<DeltaView>::empty());
    }
}

proof fn lemma_removed_by_name_part(model: Seq<char>, prev: Seq<FieldView>, curr: Seq<FieldView>, i: int, j: int, d: DeltaView)
    requires
        renamed_pair(prev, curr, i, j),
        prev.flat_map(|p: FieldView| field_removed_by_name(model, curr, p)).contains(d),
    ensures
        !drops_pair(d, prev[i].name, curr[j].name),
{
    let gone_name = |p: FieldView| field_removed_by_name(model, curr, p);
    lemma_flat_map_member(prev, gone_name, d);
    let k = choose|k: int| 0 <= k < prev.len() && #[trigger] gone_name(prev[k]).contains(d);
    if prev[k].entity_id is None && !has_field_named(curr, prev[k].name) {
        assert(k != i);
        assert(prev[k].name != prev[i].name);
        assert(d == gone_name(prev[k])[0]);
    } else {
        assert(gone_name(prev[k]) =~= Seq::<DeltaView>::empty());
    }
}

/// A field renamed under the same ID keeps its data: comparing the two versions of a
/// model's fields reports the rename, and reports neither the old name as removed nor
/// the new name as added.
pub proof fn law_renamed_field_is_not_dropped<F: Fn(u64, u64) -> bool>(
    numbers_equal: F, pa: Seq<TypeAliasView>, ca: Seq<TypeAliasView>,
    model: Seq<char>,
    prev: Seq<FieldView>,
    curr: Seq<FieldView>,
    i: int,
    j: int,
)
    requires
        renamed_pair(prev, curr, i, j),
    ensures
        spec_field_deltas(numbers_equal, pa, ca, model, prev, curr).contains(DeltaView::FieldRenamed {
            model,
            old_name: prev[i].name,
            new_name: curr[j].name,
            id: curr[j].entity_id,
            before: prev[i],
            after: curr[j],
        }),
        forall|d: DeltaView| #[trigger] spec_field_deltas(numbers_equal, pa, ca, model, prev, curr).contains(d)
            ==> !drops_pair(d, prev[i].name, curr[j].name),
{
    let by_id = |c: FieldView| field_delta_by_id(numbers_equal, pa, ca, model, prev, c);
    let a = curr.flat_map(by_id);
    let b = prev.flat_map(|p: FieldView| field_removed_by_id(model, curr, p));
    let c = curr.flat_map(|c: FieldView| field_delta_by_name(numbers_equal, pa, ca, model, prev, c));
    let e = prev.flat_map(|p: FieldView| field_removed_by_name(model, curr, p));
    let all = spec_field_deltas(numbers_equal, pa, ca, model, prev, curr);
    assert(all == a + b + c + e);
    lemma_field_by_id_at(prev, i);
    let renamed = DeltaView::FieldRenamed {
        model,
        old_name: prev[i].name,
        new_name: curr[j].name,
        id: curr[j].entity_id,
        before: prev[i],
        after: curr[j],
    };
    assert(by_id(curr[j]) == seq![renamed]);
    assert(by_id(curr[j])[0] == renamed);
    lemma_flat_map_has(curr, by_id, j, renamed);
    let k = choose|k: int| 0 <= k < a.len() && a[k] == renamed;
    assert(all[k] == renamed);
    assert forall|d: DeltaView| #[trigger] all.contains(d) implies !drops_pair(d, prev[i].name, curr[j].name) by {
        lemma_add_member(a + b + c, e, d);
        if (a + b + c).contains(d) {
            lemma_add_member(a + b, c, d);
            if (a + b).contains(d) {
                lemma_add_member(a, b, d);
            }
        }
        if a.contains(d) {
            lemma_by_id_part(numbers_equal, pa, ca, model, prev, curr, i, j, d);
        } else if b.contains(d) {
            lemma_removed_by_id_part(model, prev, curr, i, j, d);
        } else if c.contains(d) {
            lemma_by_name_part(numbers_equal, pa, ca, model, prev, curr, i, j, d);
        } else {
            lemma_removed_by_name_part(model, prev, curr, i, j, d);
        }
    }
}

/// A delta that adds or removes a whole model.
pub open spec fn adds_or_removes_model(d: DeltaView) -> bool {
    d is ModelAdded || d is ModelRemoved
}

/// The changes of a field that kept its name never add or remove a model.
proof fn lemma_changes_not_model<F: Fn(u64, u64) -> bool>(numbers_equal: F, pa: Seq<TypeAliasView>, ca: Seq<TypeAliasView>, name: Seq<char>, q: FieldView, c: FieldView, d: DeltaView)
    requires
        field_changes(numbers_equal, pa, ca, name, q, c).contains(d),
    ensures
        !adds_or_removes_model(d),
{
    let t = if !field_types_same(pa, ca, q.field_type, c.field_type) {
        seq![DeltaView::FieldTypeChanged { model: name, field: c.name, before: q.field_type, after: c.field_type }]
    } else {
        seq![]
    };
    let o = if q.optional != c.optional {
        seq![DeltaView::FieldOptionalityChanged { model: name, field: c.name, before: q.optional, after: c.optional }]
    } else {
        seq![]
    };
    let v = if !values_eq(numbers_equal, q.default, c.default) {
        seq![DeltaView::FieldDefaultChanged { model: name, field: c.name, before: q.default, after: c.default }]
    } else {
        seq![]
    };
    let g = if !json_eq(q.config, c.config) {
        seq![DeltaView::FieldConfigChanged { model: name, field: c.name, before: q.config, after: c.config }]
    } else {
        seq![]
    };
    assert(field_changes(numbers_equal, pa, ca, name, q, c) == t + o + v + g);
    lemma_add_member(t + o + v, g, d);
    if (t + o + v).contains(d) {
        lemma_add_member(t + o, v, d);
        if (t + o).contains(d) {
            lemma_add_member(t, o, d);
        }
    }
}

proof fn lemma_by_id_not_model<F: Fn(u64, u64) -> bool>(numbers_equal: F, pa: Seq<TypeAliasView>, ca: Seq<TypeAliasView>, name: Seq<char>, prev: Seq<FieldView>, curr: Seq<FieldView>, d: DeltaView)
    requires
        curr.flat_map(|x: FieldView| field_delta_by_id(numbers_equal, pa, ca, name, prev, x)).contains(d),
    ensures
        !adds_or_removes_model(d),
{
    let by_id = |x: FieldView| field_delta_by_id(numbers_equal, pa, ca, name, prev, x);
    lemma_flat_map_member(curr, by_id, d);
    let k = choose|k: int| 0 <= k < curr.len() && #[trigger] by_id(curr[k]).contains(d);
    match curr[k].entity_id {
        Some(x) => match field_by_id(prev, x) {
            Some(q) => {
                if q.name != curr[k].name {
                    assert(d == by_id(curr[k])[0]);
                } else {
                    assert(by_id(curr[k]) == field_changes(numbers_equal, pa, ca, name, q, curr[k]));
                    lemma_changes_not_model(numbers_equal, pa, ca, name, q, curr[k], d);
                }
            },
            None => {
                assert(d == by_id(curr[k])[0]);
            },
        },
        None => {
            assert(by_id(curr[k]) =~= Seq::<DeltaView>::empty());
        },
    }
}

proof fn lemma_by_name_not_model<F: Fn(u64, u64) -> bool>(numbers_equal: F, pa: Seq<TypeAliasView>, ca: Seq<TypeAliasView>, name: Seq<char>, prev: Seq<FieldView>, curr: Seq<FieldView>, d: DeltaView)
    requires
        curr.flat_map(|x: FieldView| field_delta_by_name(numbers_equal, pa, ca, name, prev, x)).contains(d),
    ensures
        !adds_or_removes_model(d),
{
    let by_name = |x: FieldView| field_delta_by_name(numbers_equal, pa, ca, name, prev, x);
    lemma_flat_map_member(curr, by_name, d);
    let k = choose|k: int| 0 <= k < curr.len() && #[trigger] by_name(curr[k]).contains(d);
    if curr[k].entity_id is None {
        match unnumbered_field_named(prev, curr[k].name) {
            Some(q) => {
                assert(by_name(curr[k]) == field_changes(numbers_equal, pa, ca, name, q, curr[k]));
                lemma_changes_not_model(numbers_equal, pa, ca, name, q, curr[k], d);
            },
            None => {
                assert(d == by_name(curr[k])[0]);
            },
        }
    } else {
        assert(by_name(curr[k]) =~= Seq::<DeltaView>::empty());
    }
}

proof fn lemma_removed_not_model(name: Seq<char>, prev: Seq<FieldView>, curr: Seq<FieldView>, d: DeltaView)
    requires
        prev.flat_map(|x: FieldView| field_removed_by_id(name, curr, x)).contains(d)
            || prev.flat_map(|x: FieldView| field_removed_by_name(name, curr, x)).contains(d),
    ensures
        !adds_or_removes_model(d),
{
    let gone_id = |x: FieldView| field_removed_by_id(name, curr, x);
    let gone_name = |x: FieldView| field_removed_by_name(name, curr, x);
    if prev.flat_map(gone_id).contains(d) {
        lemma_flat_map_member(prev, gone_id, d);
        let k = choose|k: int| 0 <= k < prev.len() && #[trigger] gone_id(prev[k]).contains(d);
        let g = gone_id(prev[k]);
        let m = choose|m: int| 0 <= m < g.len() && g[m] == d;
    } else {
        lemma_flat_map_member(prev, gone_name, d);
        let k = choose|k: int| 0 <= k < prev.len() && #[trigger] gone_name(prev[k]).contains(d);
        let g = gone_name(prev[k]);
        let m = choose|m: int| 0 <= m < g.len() && g[m] == d;
    }
}

proof fn lemma_inheritance_not_model(name: Seq<char>, prev: Seq<Seq<char>>, curr: Seq<Seq<char>>, d: DeltaView)
    requires
        spec_inheritance_deltas(name, prev, curr).contains(d),
    ensures
        !adds_or_removes_model(d),
{
    let added = |q: Seq<char>| if !prev.contains(q) { seq![DeltaView::InheritanceAdded { model: name, parent: q }] } else { seq![] };
    let removed = |q: Seq<char>| if !curr.contains(q) { seq![DeltaView::InheritanceRemoved { model: name, parent: q }] } else { seq![] };
    let ia = curr.flat_map(added);
    let ir = prev.flat_map(removed);
    assert(spec_inheritance_deltas(name, prev, curr) == ia + ir);
    lemma_add_member(ia, ir, d);
    if ia.contains(d) {
        lemma_flat_map_member(curr, added, d);
        let k = choose|k: int| 0 <= k < curr.len() && #[trigger] added(curr[k]).contains(d);
        let g = added(curr[k]);
        let m = choose|m: int| 0 <= m < g.len() && g[m] == d;
    } else {
        lemma_flat_map_member(prev, removed, d);
        let k = choose|k: int| 0 <= k < prev.len() && #[trigger] removed(prev[k]).contains(d);
        let g = removed(prev[k]);
        let m = choose|m: int| 0 <= m < g.len() && g[m] == d;
    }
}

/// The deltas within a model that exists in both versions never add or remove a model.
proof fn lemma_inner_not_model<F: Fn(u64, u64) -> bool>(numbers_equal: F, pa: Seq<TypeAliasView>, ca: Seq<TypeAliasView>, name: Seq<char>, p: ModelView, c: ModelView, d: DeltaView)
    requires
        model_inner_deltas(numbers_equal, pa, ca, name, p, c).contains(d),
    ensures
        !adds_or_removes_model(d),
{
    let prev = p.fields;
    let curr = c.fields;
    let a = curr.flat_map(|x: FieldView| field_delta_by_id(numbers_equal, pa, ca, name, prev, x));
    let b = prev.flat_map(|x: FieldView| field_removed_by_id(name, curr, x));
    let cc = curr.flat_map(|x: FieldView| field_delta_by_name(numbers_equal, pa, ca, name, prev, x));
    let e = prev.flat_map(|x: FieldView| field_removed_by_name(name, curr, x));
    let fd = spec_field_deltas(numbers_equal, pa, ca, name, prev, curr);
    assert(fd == a + b + cc + e);
    lemma_add_member(fd, spec_inheritance_deltas(name, p.parents, c.parents), d);
    if fd.contains(d) {
        lemma_add_member(a + b + cc, e, d);
        if (a + b + cc).contains(d) {
            lemma_add_member(a + b, cc, d);
            if (a + b).contains(d) {
                lemma_add_member(a, b, d);
            }
        }
        if a.contains(d) {
            lemma_by_id_not_model(numbers_equal, pa, ca, name, prev, curr, d);
        } else if cc.contains(d) {
            lemma_by_name_not_model(numbers_equal, pa, ca, name, prev, curr, d);
        } else {
            lemma_removed_not_model(name, prev, curr, d);
        }
    } else {
        lemma_inheritance_not_model(name, p.parents, c.parents, d);
    }
}

/// In a well-formed model list, the model found by an ID is the one that has it.
proof fn lemma_model_by_id_at(ms: Seq<ModelView>, i: int)
    requires
        models_wf(ms),
        0 <= i < ms.len(),
        ms[i].entity_id is Some,
    ensures
        model_by_id(ms, ms[i].entity_id->0) == Some(ms[i]),
{
    let id = ms[i].entity_id->0;
    assert(ms[i].entity_id == Some(id));
    assert(exists|c: int| 0 <= c < ms.len() && ms[c].entity_id == Some(id)
        && forall|k: int| 0 <= k < c ==> ms[k].entity_id != Some(id)) by {
        assert forall|k: int| 0 <= k < i implies ms[k].entity_id != Some(id) by {
            if ms[k].entity_id == Some(id) {
                assert(ms[k].entity_id is Some);
            }
        }
    }
    let c = choose|c: int| 0 <= c < ms.len() && ms[c].entity_id == Some(id)
        && forall|k: int| 0 <= k < c ==> ms[k].entity_id != Some(id);
    if c < i {
        assert(ms[c].entity_id is Some);
    } else if c > i {
        assert(ms[i].entity_id != ms[c].entity_id);
    }
}

/// What the model rename law asks of two versions of a schema's models: both well
/// formed, and model `i` before and model `j` after share an ID under different names.
pub open spec fn renamed_model_pair(prev: Seq<ModelView>, curr: Seq<ModelView>, i: int, j: int) -> bool {
    &&& models_wf(prev)
    &&& models_wf(curr)
    &&& 0 <= i < prev.len()
    &&& 0 <= j < curr.len()
    &&& prev[i].entity_id is Some
    &&& curr[j].entity_id == prev[i].entity_id
    &&& prev[i].name != curr[j].name
}

/// A delta that reports the old model name as removed or the new one as added.
pub open spec fn drops_model(d: DeltaView, old_name: Seq<char>, new_name: Seq<char>) -> bool {
    ||| d matches DeltaView::ModelRemoved { name, .. } && name == old_name
    ||| d matches DeltaView::ModelAdded { name, .. } && name == new_name
}

proof fn lemma_model_by_id_part<F: Fn(u64, u64) -> bool>(numbers_equal: F, pa: Seq<TypeAliasView>, ca: Seq<TypeAliasView>, prev: Seq<ModelView>, curr: Seq<ModelView>, i: int, j: int, d: DeltaView)
    requires
        renamed_model_pair(prev, curr, i, j),
        curr.flat_map(|c: ModelView| model_delta_by_id(numbers_equal, pa, ca, prev, c)).contains(d),
    ensures
        !drops_model(d, prev[i].name, curr[j].name),
{
    let by_id = |c: ModelView| model_delta_by_id(numbers_equal, pa, ca, prev, c);
    lemma_flat_map_member(curr, by_id, d);
    let k = choose|k: int| 0 <= k < curr.len() && #[trigger] by_id(curr[k]).contains(d);
    if k != j {
        assert(curr[k].name != curr[j].name);
    }
    lemma_model_by_id_at(prev, i);
    let c = curr[k];
    match c.entity_id {
        Some(x) => match model_by_id(prev, x) {
            Some(p) => {
                let inner = model_inner_deltas(numbers_equal, pa, ca, c.name, p, c);
                if p.name != c.name {
                    let head = seq![DeltaView::ModelRenamed { old_name: p.name, new_name: c.name, id: c.entity_id, before: p, after: c }];
                    assert(by_id(c) == head + inner);
                    lemma_add_member(head, inner, d);
                    if inner.contains(d) {
                        lemma_inner_not_model(numbers_equal, pa, ca, c.name, p, c, d);
                    } else {
                        assert(d == head[0]);
                    }
                } else {
                    let tail = if !json_eq(p.config, c.config) {
                        seq![DeltaView::ModelConfigChanged { model: c.name, before: p.config, after: c.config }]
                    } else {
                        seq![]
                    };
                    assert(by_id(c) == inner + tail);
                    lemma_add_member(inner, tail, d);
                    if inner.contains(d) {
                        lemma_inner_not_model(numbers_equal, pa, ca, c.name, p, c, d);
                    } else {
                        assert(d == tail[0]);
                    }
                }
            },
            None => {
                assert(d == by_id(c)[0]);
            },
        },
        None => {
            assert(by_id(c) =~= Seq::<DeltaView>::empty());
        },
    }
}

proof fn lemma_model_removed_by_id_part(prev: Seq<ModelView>, curr: Seq<ModelView>, i: int, j: int, d: DeltaView)
    requires
        renamed_model_pair(prev, curr, i, j),
        prev.flat_map(|p: ModelView| model_removed_by_id(curr, p)).contains(d),
    ensures
        !drops_model(d, prev[i].name, curr[j].name),
{
    let gone = |p: ModelView| model_removed_by_id(curr, p);
    lemma_flat_map_member(prev, gone, d);
    let k = choose|k: int| 0 <= k < prev.len() && #[trigger] gone(prev[k]).contains(d);
    if k != i {
        assert(prev[k].name != prev[i].name);
    }
    lemma_model_by_id_at(curr, j);
    match prev[k].entity_id {
        Some(x) => {
            if model_by_id(curr, x) is None {
                assert(d == gone(prev[k])[0]);
            } else {
                assert(gone(prev[k]) =~= Seq::<DeltaView>::empty());
            }
        },
        None => {
            assert(gone(prev[k]) =~= Seq::<DeltaView>::empty());
        },
    }
}

proof fn lemma_model_by_name_part<F: Fn(u64, u64) -> bool>(numbers_equal: F, pa: Seq<TypeAliasView>, ca: Seq<TypeAliasView>, prev: Seq<ModelView>, curr: Seq<ModelView>, i: int, j: int, d: DeltaView)
    requires
        renamed_model_pair(prev, curr, i, j),
        curr.flat_map(|c: ModelView| model_delta_by_name(numbers_equal, pa, ca, prev, c)).contains(d),
    ensures
        !drops_model(d, prev[i].name, curr[j].name),
{
    let by_name = |c: ModelView| model_delta_by_name(numbers_equal, pa, ca, prev, c);
    lemma_flat_map_member(curr, by_name, d);
    let k = choose|k: int| 0 <= k < curr.len() && #[trigger] by_name(curr[k]).contains(d);
    let c = curr[k];
    if c.entity_id is None {
        assert(k != j);
        assert(c.name != curr[j].name);
        match model_named(prev, c.name) {
            Some(p) => {
                lemma_inner_not_model(numbers_equal, pa, ca, c.name, p, c, d);
            },
            None => {
                assert(d == by_name(c)[0]);
            },
        }
    } else {
        assert(by_name(c) =~= Seq::<DeltaView>::empty());
    }
}

proof fn lemma_model_removed_by_name_part(prev: Seq<ModelView>, curr: Seq<ModelView>, i: int, j: int, d: DeltaView)
    requires
        renamed_model_pair(prev, curr, i, j),
        prev.flat_map(|p: ModelView| model_removed_by_name(curr, p)).contains(d),
    ensures
        !drops_model(d, prev[i].name, curr[j].name),
{
    let gone = |p: ModelView| model_removed_by_name(curr, p);
    lemma_flat_map_member(prev, gone, d);
    let k = choose|k: int| 0 <= k < prev.len() && #[trigger] gone(prev[k]).contains(d);
    if prev[k].entity_id is None && model_named(curr, prev[k].name) is None {
        assert(k != i);
        assert(prev[k].name != prev[i].name);
        assert(d == gone(prev[k])[0]);
    } else {
        assert(gone(prev[k]) =~= Seq::<DeltaView>::empty());
    }
}

/// A model renamed under the same ID keeps its data: comparing the two versions of the
/// models reports the rename, and reports neither the old name as removed nor the new
/// name as added.
pub proof fn law_renamed_model_is_not_dropped<F: Fn(u64, u64) -> bool>(
    numbers_equal: F, pa: Seq<TypeAliasView>, ca: Seq<TypeAliasView>,
    prev: Seq<ModelView>,
    curr: Seq<ModelView>,
    i: int,
    j: int,
)
    requires
        renamed_model_pair(prev, curr, i, j),
    ensures
        spec_model_deltas(numbers_equal, pa, ca, prev, curr).contains(DeltaView::ModelRenamed {
            old_name: prev[i].name,
            new_name: curr[j].name,
            id: curr[j].entity_id,
            before: prev[i],
            after: curr[j],
        }),
        forall|d: DeltaView| #[trigger] spec_model_deltas(numbers_equal, pa, ca, prev, curr).contains(d)
            ==> !drops_model(d, prev[i].name, curr[j].name),
{
    let by_id = |c: ModelView| model_delta_by_id(numbers_equal, pa, ca, prev, c);
    let a = curr.flat_map(by_id);
    let b = prev.flat_map(|p: ModelView| model_removed_by_id(curr, p));
    let c = curr.flat_map(|c: ModelView| model_delta_by_name(numbers_equal, pa, ca, prev, c));
    let e = prev.flat_map(|p: ModelView| model_removed_by_name(curr, p));
    let all = spec_model_deltas(numbers_equal, pa, ca, prev, curr);
    assert(all == a + b + c + e);
    lemma_model_by_id_at(prev, i);
    let p = prev[i];
    let cj = curr[j];
    let renamed = DeltaView::ModelRenamed { old_name: p.name, new_name: cj.name, id: cj.entity_id, before: p, after: cj };
    let head = seq![renamed];
    let inner = model_inner_deltas(numbers_equal, pa, ca, cj.name, p, cj);
    assert(by_id(cj) == head + inner);
    assert(by_id(cj)[0] == renamed);
    lemma_flat_map_has(curr, by_id, j, renamed);
    let k = choose|k: int| 0 <= k < a.len() && a[k] == renamed;
    assert(all[k] == renamed);
    assert forall|d: DeltaView| #[trigger] all.contains(d) implies !drops_model(d, prev[i].name, curr[j].name) by {
        lemma_add_member(a + b + c, e, d);
        if (a + b + c).contains(d) {
            lemma_add_member(a + b, c, d);
            if (a + b).contains(d) {
                lemma_add_member(a, b, d);
            }
        }
        if a.contains(d) {
            lemma_model_by_id_part(numbers_equal, pa, ca, prev, curr, i, j, d);
        } else if b.contains(d) {
            lemma_model_removed_by_id_part(prev, curr, i, j, d);
        } else if c.contains(d) {
            lemma_model_by_name_part(numbers_equal, pa, ca, prev, curr, i, j, d);
        } else {
            lemma_model_removed_by_name_part(prev, curr, i, j, d);
        }
    }
}

/// In a well-formed type alias list, the alias found by an ID is the one that has it.
proof fn lemma_alias_by_id_at(xs: Seq<TypeAliasView>, i: int)
    requires
        aliases_wf(xs),
        0 <= i < xs.len(),
        xs[i].entity_id is Some,
    ensures
        alias_by_id(xs, xs[i].entity_id->0) == Some(xs[i]),
{
    let id = xs[i].entity_id->0;
    assert(xs[i].entity_id == Some(id));
    assert(exists|c: int| 0 <= c < xs.len() && xs[c].entity_id == Some(id)
        && forall|k: int| 0 <= k < c ==> xs[k].entity_id != Some(id)) by {
        assert forall|k: int| 0 <= k < i implies xs[k].entity_id != Some(id) by {
            if xs[k].entity_id == Some(id) {
                assert(xs[k].entity_id is Some);
            }
        }
    }
    let c = choose|c: int| 0 <= c < xs.len() && xs[c].entity_id == Some(id)
        && forall|k: int| 0 <= k < c ==> xs[k].entity_id != Some(id);
    if c < i {
        assert(xs[c].entity_id is Some);
    } else if c > i {
        assert(xs[i].entity_id != xs[c].entity_id);
    }
}

/// What the type alias rename law asks of two versions of a schema's type aliases: both
/// well formed, and alias `i` before and alias `j` after share an ID under different names.
pub open spec fn renamed_alias_pair(prev: Seq<TypeAliasView>, curr: Seq<TypeAliasView>, i: int, j: int) -> bool {
    &&& aliases_wf(prev)
    &&& aliases_wf(curr)
    &&& 0 <= i < prev.len()
    &&& 0 <= j < curr.len()
    &&& prev[i].entity_id is Some
    &&& curr[j].entity_id == prev[i].entity_id
    &&& prev[i].name != curr[j].name
}

/// A delta that reports the old type alias name as removed or the new one as added.
pub open spec fn drops_alias(d: DeltaView, old_name: Seq<char>, new_name: Seq<char>) -> bool {
    ||| d matches DeltaView::TypeAliasRemoved { name, .. } && name == old_name
    ||| d matches DeltaView::TypeAliasAdded { name, .. } && name == new_name
}

proof fn lemma_alias_ids_part(prev: Seq<TypeAliasView>, curr: Seq<TypeAliasView>, i: int, j: int, d: DeltaView)
    requires
        renamed_alias_pair(prev, curr, i, j),
        curr.flat_map(|c: TypeAliasView| alias_delta_by_id(prev, c)).contains(d)
            || prev.flat_map(|p: TypeAliasView| alias_removed_by_id(curr, p)).contains(d),
    ensures
        !drops_alias(d, prev[i].name, curr[j].name),
{
    let by_id = |c: TypeAliasView| alias_delta_by_id(prev, c);
    let gone = |p: TypeAliasView| alias_removed_by_id(curr, p);
    lemma_alias_by_id_at(prev, i);
    lemma_alias_by_id_at(curr, j);
    if curr.flat_map(by_id).contains(d) {
        lemma_flat_map_member(curr, by_id, d);
        let k = choose|k: int| 0 <= k < curr.len() && #[trigger] by_id(curr[k]).contains(d);
        if k != j {
            assert(curr[k].name != curr[j].name);
        }
        let g = by_id(curr[k]);
        let m = choose|m: int| 0 <= m < g.len() && g[m] == d;
    } else {
        lemma_flat_map_member(prev, gone, d);
        let k = choose|k: int| 0 <= k < prev.len() && #[trigger] gone(prev[k]).contains(d);
        if k != i {
            assert(prev[k].name != prev[i].name);
        }
        let g = gone(prev[k]);
        let m = choose|m: int| 0 <= m < g.len() && g[m] == d;
    }
}

proof fn lemma_alias_names_part(prev: Seq<TypeAliasView>, curr: Seq<TypeAliasView>, i: int, j: int, d: DeltaView)
    requires
        renamed_alias_pair(prev, curr, i, j),
        curr.flat_map(|c: TypeAliasView| alias_added_by_name(prev, c)).contains(d)
            || prev.flat_map(|p: TypeAliasView| alias_removed_by_name(curr, p)).contains(d),
    ensures
        !drops_alias(d, prev[i].name, curr[j].name),
{
    let added = |c: TypeAliasView| alias_added_by_name(prev, c);
    let gone = |p: TypeAliasView| alias_removed_by_name(curr, p);
    if curr.flat_map(added).contains(d) {
        lemma_flat_map_member(curr, added, d);
        let k = choose|k: int| 0 <= k < curr.len() && #[trigger] added(curr[k]).contains(d);
        if k != j {
            assert(curr[k].name != curr[j].name);
        }
        let g = added(curr[k]);
        let m = choose|m: int| 0 <= m < g.len() && g[m] == d;
    } else {
        lemma_flat_map_member(prev, gone, d);
        let k = choose|k: int| 0 <= k < prev.len() && #[trigger] gone(prev[k]).contains(d);
        if k != i {
            assert(prev[k].name != prev[i].name);
        }
        let g = gone(prev[k]);
        let m = choose|m: int| 0 <= m < g.len() && g[m] == d;
    }
}

/// A type alias renamed under the same ID keeps its identity: comparing the two
/// versions of the type aliases reports the rename, and reports neither the old name as
/// removed nor the new name as added.
pub proof fn law_renamed_type_alias_is_not_dropped(prev: Seq<TypeAliasView>, curr: Seq<TypeAliasView>, i: int, j: int)
    requires
        renamed_alias_pair(prev, curr, i, j),
    ensures
        spec_type_alias_deltas(prev, curr).contains(DeltaView::TypeAliasRenamed {
            old_name: prev[i].name,
            new_name: curr[j].name,
            id: curr[j].entity_id,
            before: prev[i],
            after: curr[j],
        }),
        forall|d: DeltaView| #[trigger] spec_type_alias_deltas(prev, curr).contains(d)
            ==> !drops_alias(d, prev[i].name, curr[j].name),
{
    let by_id = |c: TypeAliasView| alias_delta_by_id(prev, c);
    let a = curr.flat_map(by_id);
    let b = prev.flat_map(|p: TypeAliasView| alias_removed_by_id(curr, p));
    let c = curr.flat_map(|c: TypeAliasView| alias_added_by_name(prev, c));
    let e = prev.flat_map(|p: TypeAliasView| alias_removed_by_name(curr, p));
    let all = spec_type_alias_deltas(prev, curr);
    assert(all == a + b + c + e);
    lemma_alias_by_id_at(prev, i);
    let renamed = DeltaView::TypeAliasRenamed {
        old_name: prev[i].name,
        new_name: curr[j].name,
        id: curr[j].entity_id,
        before: prev[i],
        after: curr[j],
    };
    assert(by_id(curr[j]) == seq![renamed]);
    assert(by_id(curr[j])[0] == renamed);
    lemma_flat_map_has(curr, by_id, j, renamed);
    let k = choose|k: int| 0 <= k < a.len() && a[k] == renamed;
    assert(all[k] == renamed);
    assert forall|d: DeltaView| #[trigger] all.contains(d) implies !drops_alias(d, prev[i].name, curr[j].name) by {
        lemma_add_member(a + b + c, e, d);
        if (a + b + c).contains(d) {
            lemma_add_member(a + b, c, d);
            if (a + b).contains(d) {
                lemma_add_member(a, b, d);
            }
        }
        if a.contains(d) || b.contains(d) {
            lemma_alias_ids_part(prev, curr, i, j, d);
        } else {
            lemma_alias_names_part(prev, curr, i, j, d);
        }
    }
}


/// A model of the previous schema that the current schema has neither by its name nor by
/// its ID (when it has one) is reported removed, with its previous definition.
pub proof fn law_dropped_model_is_removed<F: Fn(u64, u64) -> bool>(
    numbers_equal: F, pa: Seq<TypeAliasView>, ca: Seq<TypeAliasView>,
    prev: Seq<ModelView>,
    curr: Seq<ModelView>,
    i: int,
)
    requires
        0 <= i < prev.len(),
        forall|j: int| 0 <= j < curr.len() ==> #[trigger] curr[j].name != prev[i].name,
        prev[i].entity_id is Some ==> forall|j: int| 0 <= j < curr.len() ==> #[trigger] curr[j].entity_id != prev[i].entity_id,
    ensures
        spec_model_deltas(numbers_equal, pa, ca, prev, curr).contains(DeltaView::ModelRemoved { name: prev[i].name, before: prev[i] }),
{
    let a = curr.flat_map(|c: ModelView| model_delta_by_id(numbers_equal, pa, ca, prev, c));
    let by_id_gone = |p: ModelView| model_removed_by_id(curr, p);
    let b = prev.flat_map(by_id_gone);
    let c = curr.flat_map(|c: ModelView| model_delta_by_name(numbers_equal, pa, ca, prev, c));
    let by_name_gone = |p: ModelView| model_removed_by_name(curr, p);
    let e = prev.flat_map(by_name_gone);
    let all = spec_model_deltas(numbers_equal, pa, ca, prev, curr);
    assert(all == a + b + c + e);
    let p = prev[i];
    let removed = DeltaView::ModelRemoved { name: p.name, before: p };
    match p.entity_id {
        Some(id) => {
            assert(!exists|j: int| 0 <= j < curr.len() && curr[j].entity_id == Some(id));
            assert(model_by_id(curr, id) is None);
            assert(by_id_gone(p)[0] == removed);
            lemma_flat_map_has(prev, by_id_gone, i, removed);
            let k = choose|k: int| 0 <= k < b.len() && b[k] == removed;
            assert(all[a.len() + k] == removed);
        },
        None => {
            assert(!exists|j: int| 0 <= j < curr.len() && curr[j].name == p.name);
            assert(model_named(curr, p.name) is None);
            assert(by_name_gone(p)[0] == removed);
            lemma_flat_map_has(prev, by_name_gone, i, removed);
            let k = choose|k: int| 0 <= k < e.len() && e[k] == removed;
            assert(all[a.len() + b.len() + c.len() + k] == removed);
        },
    }
}


/// What one of four parts holds, their concatenation holds.
proof fn lemma_part_in_four<B>(a: Seq<B>, b: Seq<B>, c: Seq<B>, e: Seq<B>, x: B)
    requires
        a.contains(x) || b.contains(x) || c.contains(x) || e.contains(x),
    ensures
        (a + b + c + e).contains(x),
{
    let all = a + b + c + e;
    if a.contains(x) {
        let k = choose|k: int| 0 <= k < a.len() && a[k] == x;
        assert(all[k] == x);
    } else if b.contains(x) {
        let k = choose|k: int| 0 <= k < b.len() && b[k] == x;
        assert(all[a.len() + k] == x);
    } else if c.contains(x) {
        let k = choose|k: int| 0 <= k < c.len() && c[k] == x;
        assert(all[a.len() + b.len() + k] == x);
    } else {
        let k = choose|k: int| 0 <= k < e.len() && e[k] == x;
        assert(all[a.len() + b.len() + c.len() + k] == x);
    }
}

/// A model of the current schema that the previous schema has neither by its name nor
/// by its ID (when it has one) is reported added, with its current definition.
pub proof fn law_new_model_is_added<F: Fn(u64, u64) -> bool>(
    numbers_equal: F, pa: Seq<TypeAliasView>, ca: Seq<TypeAliasView>,
    prev: Seq<ModelView>,
    curr: Seq<ModelView>,
    j: int,
)
    requires
        0 <= j < curr.len(),
        forall|i: int| 0 <= i < prev.len() ==> #[trigger] prev[i].name != curr[j].name,
        curr[j].entity_id is Some ==> forall|i: int| 0 <= i < prev.len() ==> #[trigger] prev[i].entity_id != curr[j].entity_id,
    ensures
        spec_model_deltas(numbers_equal, pa, ca, prev, curr).contains(DeltaView::ModelAdded { name: curr[j].name, after: curr[j] }),
{
    let by_id = |c: ModelView| model_delta_by_id(numbers_equal, pa, ca, prev, c);
    let a = curr.flat_map(by_id);
    let b = prev.flat_map(|p: ModelView| model_removed_by_id(curr, p));
    let by_name = |c: ModelView| model_delta_by_name(numbers_equal, pa, ca, prev, c);
    let c = curr.flat_map(by_name);
    let e = prev.flat_map(|p: ModelView| model_removed_by_name(curr, p));
    assert(spec_model_deltas(numbers_equal, pa, ca, prev, curr) == a + b + c + e);
    let m = curr[j];
    let added = DeltaView::ModelAdded { name: m.name, after: m };
    match m.entity_id {
        Some(id) => {
            assert(!exists|i: int| 0 <= i < prev.len() && prev[i].entity_id == Some(id));
            assert(model_by_id(prev, id) is None);
            assert(by_id(m)[0] == added);
            lemma_flat_map_has(curr, by_id, j, added);
        },
        None => {
            assert(!exists|i: int| 0 <= i < prev.len() && prev[i].name == m.name);
            assert(model_named(prev, m.name) is None);
            assert(by_name(m)[0] == added);
            lemma_flat_map_has(curr, by_name, j, added);
        },
    }
    lemma_part_in_four(a, b, c, e, added);
}

/// A field of the previous version of a model that the current version has neither by
/// its name nor by its ID (when it has one) is reported removed from that model.
pub proof fn law_dropped_field_is_removed<F: Fn(u64, u64) -> bool>(
    numbers_equal: F, pa: Seq<TypeAliasView>, ca: Seq<TypeAliasView>,
    model: Seq<char>,
    prev: Seq<FieldView>,
    curr: Seq<FieldView>,
    i: int,
)
    requires
        0 <= i < prev.len(),
        forall|j: int| 0 <= j < curr.len() ==> #[trigger] curr[j].name != prev[i].name,
        prev[i].entity_id is Some ==> forall|j: int| 0 <= j < curr.len() ==> #[trigger] curr[j].entity_id != prev[i].entity_id,
    ensures
        spec_field_deltas(numbers_equal, pa, ca, model, prev, curr).contains(
            DeltaView::FieldRemoved { model, field: prev[i].name, before: prev[i] },
        ),
{
    let a = curr.flat_map(|c: FieldView| field_delta_by_id(numbers_equal, pa, ca, model, prev, c));
    let by_id_gone = |p: FieldView| field_removed_by_id(model, curr, p);
    let b = prev.flat_map(by_id_gone);
    let c = curr.flat_map(|c: FieldView| field_delta_by_name(numbers_equal, pa, ca, model, prev, c));
    let by_name_gone = |p: FieldView| field_removed_by_name(model, curr, p);
    let e = prev.flat_map(by_name_gone);
    assert(spec_field_deltas(numbers_equal, pa, ca, model, prev, curr) == a + b + c + e);
    let p = prev[i];
    let removed = DeltaView::FieldRemoved { model, field: p.name, before: p };
    match p.entity_id {
        Some(id) => {
            assert(!exists|j: int| 0 <= j < curr.len() && curr[j].entity_id == Some(id));
            assert(field_by_id(curr, id) is None);
            assert(by_id_gone(p)[0] == removed);
            lemma_flat_map_has(prev, by_id_gone, i, removed);
        },
        None => {
            assert(!has_field_named(curr, p.name));
            assert(by_name_gone(p)[0] == removed);
            lemma_flat_map_has(prev, by_name_gone, i, removed);
        },
    }
    lemma_part_in_four(a, b, c, e, removed);
}

/// A field of the current version of a model that the previous version has neither by
/// its name nor by its ID (when it has one) is reported added to that model.
pub proof fn law_new_field_is_added<F: Fn(u64, u64) -> bool>(
    numbers_equal: F, pa: Seq<TypeAliasView>, ca: Seq<TypeAliasView>,
    model: Seq<char>,
    prev: Seq<FieldView>,
    curr: Seq<FieldView>,
    j: int,
)
    requires
        0 <= j < curr.len(),
        forall|i: int| 0 <= i < prev.len() ==> #[trigger] prev[i].name != curr[j].name,
        curr[j].entity_id is Some ==> forall|i: int| 0 <= i < prev.len() ==> #[trigger] prev[i].entity_id != curr[j].entity_id,
    ensures
        spec_field_deltas(numbers_equal, pa, ca, model, prev, curr).contains(
            DeltaView::FieldAdded { model, field: curr[j].name, after: curr[j] },
        ),
{
    let by_id = |c: FieldView| field_delta_by_id(numbers_equal, pa, ca, model, prev, c);
    let a = curr.flat_map(by_id);
    let b = prev.flat_map(|p: FieldView| field_removed_by_id(model, curr, p));
    let by_name = |c: FieldView| field_delta_by_name(numbers_equal, pa, ca, model, prev, c);
    let c = curr.flat_map(by_name);
    let e = prev.flat_map(|p: FieldView| field_removed_by_name(model, curr, p));
    assert(spec_field_deltas(numbers_equal, pa, ca, model, prev, curr) == a + b + c + e);
    let f = curr[j];
    let added = DeltaView::FieldAdded { model, field: f.name, after: f };
    match f.entity_id {
        Some(id) => {
            assert(!exists|i: int| 0 <= i < prev.len() && prev[i].entity_id == Some(id));
            assert(field_by_id(prev, id) is None);
            assert(by_id(f)[0] == added);
            lemma_flat_map_has(curr, by_id, j, added);
        },
        None => {
            assert(!exists|i: int| 0 <= i < prev.len() && prev[i].name == f.name && prev[i].entity_id is None);
            assert(unnumbered_field_named(prev, f.name) is None);
            assert(by_name(f)[0] == added);
            lemma_flat_map_has(curr, by_name, j, added);
        },
    }
    lemma_part_in_four(a, b, c, e, added);
}

/// A type alias of the previous schema that the current schema has neither by its name
/// nor by its ID (when it has one) is reported removed.
pub proof fn law_dropped_type_alias_is_removed(prev: Seq<TypeAliasView>, curr: Seq<TypeAliasView>, i: int)
    requires
        0 <= i < prev.len(),
        forall|j: int| 0 <= j < curr.len() ==> #[trigger] curr[j].name != prev[i].name,
        prev[i].entity_id is Some ==> forall|j: int| 0 <= j < curr.len() ==> #[trigger] curr[j].entity_id != prev[i].entity_id,
    ensures
        spec_type_alias_deltas(prev, curr).contains(DeltaView::TypeAliasRemoved { name: prev[i].name, before: prev[i] }),
{
    let a = curr.flat_map(|c: TypeAliasView| alias_delta_by_id(prev, c));
    let by_id_gone = |p: TypeAliasView| alias_removed_by_id(curr, p);
    let b = prev.flat_map(by_id_gone);
    let c = curr.flat_map(|c: TypeAliasView| alias_added_by_name(prev, c));
    let by_name_gone = |p: TypeAliasView| alias_removed_by_name(curr, p);
    let e = prev.flat_map(by_name_gone);
    assert(spec_type_alias_deltas(prev, curr) == a + b + c + e);
    let p = prev[i];
    let removed = DeltaView::TypeAliasRemoved { name: p.name, before: p };
    match p.entity_id {
        Some(id) => {
            assert(!exists|j: int| 0 <= j < curr.len() && curr[j].entity_id == Some(id));
            assert(alias_by_id(curr, id) is None);
            assert(by_id_gone(p)[0] == removed);
            lemma_flat_map_has(prev, by_id_gone, i, removed);
        },
        None => {
            assert(!has_alias_named(curr, p.name));
            assert(by_name_gone(p)[0] == removed);
            lemma_flat_map_has(prev, by_name_gone, i, removed);
        },
    }
    lemma_part_in_four(a, b, c, e, removed);
}

/// A type alias of the current schema that the previous schema has neither by its name
/// nor by its ID (when it has one) is reported added.
pub proof fn law_new_type_alias_is_added(prev: Seq<TypeAliasView>, curr: Seq<TypeAliasView>, j: int)
    requires
        0 <= j < curr.len(),
        forall|i: int| 0 <= i < prev.len() ==> #[trigger] prev[i].name != curr[j].name,
        curr[j].entity_id is Some ==> forall|i: int| 0 <= i < prev.len() ==> #[trigger] prev[i].entity_id != curr[j].entity_id,
    ensures
        spec_type_alias_deltas(prev, curr).contains(DeltaView::TypeAliasAdded { name: curr[j].name, after: curr[j] }),
{
    let by_id = |c: TypeAliasView| alias_delta_by_id(prev, c);
    let a = curr.flat_map(by_id);
    let b = prev.flat_map(|p: TypeAliasView| alias_removed_by_id(curr, p));
    let by_name = |c: TypeAliasView| alias_added_by_name(prev, c);
    let c = curr.flat_map(by_name);
    let e = prev.flat_map(|p: TypeAliasView| alias_removed_by_name(curr, p));
    assert(spec_type_alias_deltas(prev, curr) == a + b + c + e);
    let x = curr[j];
    let added = DeltaView::TypeAliasAdded { name: x.name, after: x };
    match x.entity_id {
        Some(id) => {
            assert(!exists|i: int| 0 <= i < prev.len() && prev[i].entity_id == Some(id));
            assert(alias_by_id(prev, id) is None);
            assert(by_id(x)[0] == added);
            lemma_flat_map_has(curr, by_id, j, added);
        },
        None => {
            assert(!has_alias_named(prev, x.name));
            assert(by_name(x)[0] == added);
            lemma_flat_map_has(curr, by_name, j, added);
        },
    }
    lemma_part_in_four(a, b, c, e, added);
}


/// Each change between two versions of a kept field is one of the changes listed for it.
proof fn lemma_field_changes_has<F: Fn(u64, u64) -> bool>(numbers_equal: F, pa: Seq<TypeAliasView>, ca: Seq<TypeAliasView>, model: Seq<char>, p: FieldView, c: FieldView)
    ensures
        ({
            let ch = field_changes(numbers_equal, pa, ca, model, p, c);
            &&& !field_types_same(pa, ca, p.field_type, c.field_type) ==> ch.contains(
                DeltaView::FieldTypeChanged { model, field: c.name, before: p.field_type, after: c.field_type })
            &&& p.optional != c.optional ==> ch.contains(
                DeltaView::FieldOptionalityChanged { model, field: c.name, before: p.optional, after: c.optional })
            &&& !values_eq(numbers_equal, p.default, c.default) ==> ch.contains(
                DeltaView::FieldDefaultChanged { model, field: c.name, before: p.default, after: c.default })
            &&& !json_eq(p.config, c.config) ==> ch.contains(
                DeltaView::FieldConfigChanged { model, field: c.name, before: p.config, after: c.config })
        }),
{
    let t: Seq<DeltaView> = if !field_types_same(pa, ca, p.field_type, c.field_type) {
        seq![DeltaView::FieldTypeChanged { model, field: c.name, before: p.field_type, after: c.field_type }]
    } else {
        seq![]
    };
    let o: Seq<DeltaView> = if p.optional != c.optional {
        seq![DeltaView::FieldOptionalityChanged { model, field: c.name, before: p.optional, after: c.optional }]
    } else {
        seq![]
    };
    let d: Seq<DeltaView> = if !values_eq(numbers_equal, p.default, c.default) {
        seq![DeltaView::FieldDefaultChanged { model, field: c.name, before: p.default, after: c.default }]
    } else {
        seq![]
    };
    let g: Seq<DeltaView> = if !json_eq(p.config, c.config) {
        seq![DeltaView::FieldConfigChanged { model, field: c.name, before: p.config, after: c.config }]
    } else {
        seq![]
    };
    assert(field_changes(numbers_equal, pa, ca, model, p, c) == t + o + d + g);
    if t.len() > 0 {
        assert(t.contains(t[0]));
        lemma_part_in_four(t, o, d, g, t[0]);
    }
    if o.len() > 0 {
        assert(o.contains(o[0]));
        lemma_part_in_four(t, o, d, g, o[0]);
    }
    if d.len() > 0 {
        assert(d.contains(d[0]));
        lemma_part_in_four(t, o, d, g, d[0]);
    }
    if g.len() > 0 {
        assert(g.contains(g[0]));
        lemma_part_in_four(t, o, d, g, g[0]);
    }
}

/// A field that both versions of a model hold (by its ID, or by its name where it has no
/// ID) and whose type, optionality, default value or configuration changed is reported
/// with that change.
pub proof fn law_changed_field_is_reported<F: Fn(u64, u64) -> bool>(
    numbers_equal: F, pa: Seq<TypeAliasView>, ca: Seq<TypeAliasView>,
    model: Seq<char>,
    prev: Seq<FieldView>,
    curr: Seq<FieldView>,
    i: int,
    j: int,
)
    requires
        fields_wf(prev),
        0 <= i < prev.len(),
        0 <= j < curr.len(),
        prev[i].name == curr[j].name,
        prev[i].entity_id == curr[j].entity_id,
    ensures
        ({
            let p = prev[i];
            let c = curr[j];
            let all = spec_field_deltas(numbers_equal, pa, ca, model, prev, curr);
            &&& !field_types_same(pa, ca, p.field_type, c.field_type) ==> all.contains(
                DeltaView::FieldTypeChanged { model, field: c.name, before: p.field_type, after: c.field_type })
            &&& p.optional != c.optional ==> all.contains(
                DeltaView::FieldOptionalityChanged { model, field: c.name, before: p.optional, after: c.optional })
            &&& !values_eq(numbers_equal, p.default, c.default) ==> all.contains(
                DeltaView::FieldDefaultChanged { model, field: c.name, before: p.default, after: c.default })
            &&& !json_eq(p.config, c.config) ==> all.contains(
                DeltaView::FieldConfigChanged { model, field: c.name, before: p.config, after: c.config })
        }),
{
    let by_id = |c: FieldView| field_delta_by_id(numbers_equal, pa, ca, model, prev, c);
    let a = curr.flat_map(by_id);
    let b = prev.flat_map(|p: FieldView| field_removed_by_id(model, curr, p));
    let by_name = |c: FieldView| field_delta_by_name(numbers_equal, pa, ca, model, prev, c);
    let c = curr.flat_map(by_name);
    let e = prev.flat_map(|p: FieldView| field_removed_by_name(model, curr, p));
    let all = spec_field_deltas(numbers_equal, pa, ca, model, prev, curr);
    assert(all == a + b + c + e);
    let p = prev[i];
    let f = curr[j];
    let ch = field_changes(numbers_equal, pa, ca, model, p, f);
    lemma_field_changes_has(numbers_equal, pa, ca, model, p, f);
    match f.entity_id {
        Some(id) => {
            lemma_field_by_id_at(prev, i);
            assert(by_id(f) == ch);
        },
        None => {
            lemma_unnumbered_self(prev, i);
            assert(by_name(f) == ch);
        },
    }
    assert forall|x: DeltaView| ch.contains(x) implies all.contains(x) by {
        if f.entity_id is Some {
            lemma_flat_map_has(curr, by_id, j, x);
        } else {
            lemma_flat_map_has(curr, by_name, j, x);
        }
        lemma_part_in_four(a, b, c, e, x);
    }
}


/// A parent that only the current version of a model names is reported added, and one
/// that only the previous version names is reported removed.
pub proof fn law_parent_changes_are_reported(model: Seq<char>, prev: Seq<Seq<char>>, curr: Seq<Seq<char>>, q: Seq<char>)
    ensures
        curr.contains(q) && !prev.contains(q) ==> spec_inheritance_deltas(model, prev, curr).contains(
            DeltaView::InheritanceAdded { model, parent: q }),
        prev.contains(q) && !curr.contains(q) ==> spec_inheritance_deltas(model, prev, curr).contains(
            DeltaView::InheritanceRemoved { model, parent: q }),
{
    let fa = |x: Seq<char>| if !prev.contains(x) { seq![DeltaView::InheritanceAdded { model, parent: x }] } else { seq![] };
    let fr = |x: Seq<char>| if !curr.contains(x) { seq![DeltaView::InheritanceRemoved { model, parent: x }] } else { seq![] };
    let a = curr.flat_map(fa);
    let r = prev.flat_map(fr);
    let all = spec_inheritance_deltas(model, prev, curr);
    assert(all == a + r);
    if curr.contains(q) && !prev.contains(q) {
        let k = choose|k: int| 0 <= k < curr.len() && curr[k] == q;
        let x = DeltaView::InheritanceAdded { model, parent: q };
        assert(fa(curr[k])[0] == x);
        lemma_flat_map_has(curr, fa, k, x);
        let m = choose|m: int| 0 <= m < a.len() && a[m] == x;
        assert(all[m] == x);
    }
    if prev.contains(q) && !curr.contains(q) {
        let k = choose|k: int| 0 <= k < prev.len() && prev[k] == q;
        let x = DeltaView::InheritanceRemoved { model, parent: q };
        assert(fr(prev[k])[0] == x);
        lemma_flat_map_has(prev, fr, k, x);
        let m = choose|m: int| 0 <= m < r.len() && r[m] == x;
        assert(all[a.len() + m] == x);
    }
}

/// A model that both schemas hold (by its ID, or by its name where it has no ID) has
/// every change of its fields and of its parents reported, and, where it has an ID, a
/// change of its configuration too.
pub proof fn law_kept_model_reports_its_changes<F: Fn(u64, u64) -> bool>(
    numbers_equal: F, pa: Seq<TypeAliasView>, ca: Seq<TypeAliasView>,
    prev: Seq<ModelView>,
    curr: Seq<ModelView>,
    i: int,
    j: int,
)
    requires
        models_wf(prev),
        0 <= i < prev.len(),
        0 <= j < curr.len(),
        prev[i].name == curr[j].name,
        prev[i].entity_id == curr[j].entity_id,
    ensures
        ({
            let p = prev[i];
            let c = curr[j];
            let all = spec_model_deltas(numbers_equal, pa, ca, prev, curr);
            &&& forall|d: DeltaView| #[trigger] spec_field_deltas(numbers_equal, pa, ca, c.name, p.fields, c.fields).contains(d)
                ==> all.contains(d)
            &&& forall|d: DeltaView| #[trigger] spec_inheritance_deltas(c.name, p.parents, c.parents).contains(d)
                ==> all.contains(d)
            &&& p.entity_id is Some && !json_eq(p.config, c.config) ==> all.contains(
                DeltaView::ModelConfigChanged { model: c.name, before: p.config, after: c.config })
        }),
{
    let by_id = |c: ModelView| model_delta_by_id(numbers_equal, pa, ca, prev, c);
    let a = curr.flat_map(by_id);
    let b = prev.flat_map(|p: ModelView| model_removed_by_id(curr, p));
    let by_name = |c: ModelView| model_delta_by_name(numbers_equal, pa, ca, prev, c);
    let c = curr.flat_map(by_name);
    let e = prev.flat_map(|p: ModelView| model_removed_by_name(curr, p));
    let all = spec_model_deltas(numbers_equal, pa, ca, prev, curr);
    assert(all == a + b + c + e);
    let p = prev[i];
    let m = curr[j];
    let fd = spec_field_deltas(numbers_equal, pa, ca, m.name, p.fields, m.fields);
    let hd = spec_inheritance_deltas(m.name, p.parents, m.parents);
    let inner = model_inner_deltas(numbers_equal, pa, ca, m.name, p, m);
    assert(inner == fd + hd);
    let part = if m.entity_id is Some { by_id(m) } else { by_name(m) };
    let cfg: Seq<DeltaView> = if !json_eq(p.config, m.config) {
        seq![DeltaView::ModelConfigChanged { model: m.name, before: p.config, after: m.config }]
    } else {
        seq![]
    };
    match m.entity_id {
        Some(id) => {
            lemma_model_by_id_at(prev, i);
            assert(part == inner + cfg);
        },
        None => {
            lemma_model_named_self(prev, i);
            assert(part == inner);
        },
    }
    assert forall|x: DeltaView| part.contains(x) implies all.contains(x) by {
        if m.entity_id is Some {
            lemma_flat_map_has(curr, by_id, j, x);
        } else {
            lemma_flat_map_has(curr, by_name, j, x);
        }
        lemma_part_in_four(a, b, c, e, x);
    }
    assert forall|d: DeltaView| #[trigger] fd.contains(d) implies all.contains(d) by {
        let k = choose|k: int| 0 <= k < fd.len() && fd[k] == d;
        assert(part[k] == d);
    }
    assert forall|d: DeltaView| #[trigger] hd.contains(d) implies all.contains(d) by {
        let k = choose|k: int| 0 <= k < hd.len() && hd[k] == d;
        assert(part[fd.len() + k] == d);
    }
    if p.entity_id is Some && !json_eq(p.config, m.config) {
        let x = DeltaView::ModelConfigChanged { model: m.name, before: p.config, after: m.config };
        assert(part[inner.len() as int] == x);
    }
}


/// A type alias that both schemas hold under one ID and one name, and whose type changed,
/// is reported with that change.
pub proof fn law_retyped_type_alias_is_reported(prev: Seq<TypeAliasView>, curr: Seq<TypeAliasView>, i: int, j: int)
    requires
        aliases_wf(prev),
        0 <= i < prev.len(),
        0 <= j < curr.len(),
        prev[i].entity_id is Some,
        prev[i].entity_id == curr[j].entity_id,
        prev[i].name == curr[j].name,
        !types_eq(prev[i].alias_type, curr[j].alias_type),
    ensures
        spec_type_alias_deltas(prev, curr).contains(DeltaView::TypeAliasTypeChanged {
            name: curr[j].name,
            before: prev[i].alias_type,
            after: curr[j].alias_type,
        }),
{
    let by_id = |c: TypeAliasView| alias_delta_by_id(prev, c);
    let a = curr.flat_map(by_id);
    let b = prev.flat_map(|p: TypeAliasView| alias_removed_by_id(curr, p));
    let c = curr.flat_map(|c: TypeAliasView| alias_added_by_name(prev, c));
    let e = prev.flat_map(|p: TypeAliasView| alias_removed_by_name(curr, p));
    assert(spec_type_alias_deltas(prev, curr) == a + b + c + e);
    lemma_alias_by_id_at(prev, i);
    let x = DeltaView::TypeAliasTypeChanged { name: curr[j].name, before: prev[i].alias_type, after: curr[j].alias_type };
    assert(by_id(curr[j])[0] == x);
    lemma_flat_map_has(curr, by_id, j, x);
    lemma_part_in_four(a, b, c, e, x);
}

} // verus!
