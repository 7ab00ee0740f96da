use vstd::prelude::*;

use crate::json::{configs_equal, json_eq, json_get, JsonValue, JsonView};
use crate::paths::{contains_text, str_eq, views};
use crate::schema::{copy_opt_value, copy_strings, field_views, is_number_comparison, opt_value_view, types_eq, types_equal, values_eq, values_equal, EntityId, FieldDefinition, FieldView, ModelDefinition, ModelView, Schema, TypeAliasDefinition, TypeAliasView, TypeExpression, TypeView, Value, ValueView};

verus! {

/// One change between two versions of a schema.
#[derive(Debug)]
pub enum Delta {
    TypeAliasAdded { name: String, after: TypeAliasDefinition },
    TypeAliasRemoved { name: String, before: TypeAliasDefinition },
    TypeAliasRenamed { old_name: String, new_name: String, id: Option<EntityId>, before: TypeAliasDefinition, after: TypeAliasDefinition },
    TypeAliasTypeChanged { name: String, before: TypeExpression, after: TypeExpression },
    ModelAdded { name: String, after: ModelDefinition },
    ModelRemoved { name: String, before: ModelDefinition },
    ModelRenamed { old_name: String, new_name: String, id: Option<EntityId>, before: ModelDefinition, after: ModelDefinition },
    ModelConfigChanged { model: String, before: JsonValue, after: JsonValue },
    FieldAdded { model: String, field: String, after: FieldDefinition },
    FieldRemoved { model: String, field: String, before: FieldDefinition },
    FieldRenamed { model: String, old_name: String, new_name: String, id: Option<EntityId>, before: FieldDefinition, after: FieldDefinition },
    FieldTypeChanged { model: String, field: String, before: TypeExpression, after: TypeExpression },
    FieldOptionalityChanged { model: String, field: String, before: bool, after: bool },
    FieldDefaultChanged { model: String, field: String, before: Option<Value>, after: Option<Value> },
    FieldConfigChanged { model: String, field: String, before: JsonValue, after: JsonValue },
    InheritanceAdded { model: String, parent: String },
    InheritanceRemoved { model: String, parent: String },
}

/// The mathematical value of a `Delta`.
pub enum DeltaView {
    TypeAliasAdded { name: Seq<char>, after: TypeAliasView },
    TypeAliasRemoved { name: Seq<char>, before: TypeAliasView },
    TypeAliasRenamed { old_name: Seq<char>, new_name: Seq<char>, id: Option<EntityId>, before: TypeAliasView, after: TypeAliasView },
    TypeAliasTypeChanged { name: Seq<char>, before: TypeView, after: TypeView },
    ModelAdded { name: Seq<char>, after: ModelView },
    ModelRemoved { name: Seq<char>, before: ModelView },
    ModelRenamed { old_name: Seq<char>, new_name: Seq<char>, id: Option<EntityId>, before: ModelView, after: ModelView },
    ModelConfigChanged { model: Seq<char>, before: JsonView, after: JsonView },
    FieldAdded { model: Seq<char>, field: Seq<char>, after: FieldView },
    FieldRemoved { model: Seq<char>, field: Seq<char>, before: FieldView },
    FieldRenamed { model: Seq<char>, old_name: Seq<char>, new_name: Seq<char>, id: Option<EntityId>, before: FieldView, after: FieldView },
    FieldTypeChanged { model: Seq<char>, field: Seq<char>, before: TypeView, after: TypeView },
    FieldOptionalityChanged { model: Seq<char>, field: Seq<char>, before: bool, after: bool },
    FieldDefaultChanged { model: Seq<char>, field: Seq<char>, before: Option<ValueView>, after: Option<ValueView> },
    FieldConfigChanged { model: Seq<char>, field: Seq<char>, before: JsonView, after: JsonView },
    InheritanceAdded { model: Seq<char>, parent: Seq<char> },
    InheritanceRemoved { model: Seq<char>, parent: Seq<char> },
}

impl View for Delta {
    type V = DeltaView;

    open spec fn view(&self) -> DeltaView {
        match self {
            Delta::TypeAliasAdded { name, after } => DeltaView::TypeAliasAdded { name: name@, after: after@ },
            Delta::TypeAliasRemoved { name, before } => DeltaView::TypeAliasRemoved { name: name@, before: before@ },
            Delta::TypeAliasRenamed { old_name, new_name, id, before, after } =>
                DeltaView::TypeAliasRenamed { old_name: old_name@, new_name: new_name@, id: *id, before: before@, after: after@ },
            Delta::TypeAliasTypeChanged { name, before, after } =>
                DeltaView::TypeAliasTypeChanged { name: name@, before: before@, after: after@ },
            Delta::ModelAdded { name, after } => DeltaView::ModelAdded { name: name@, after: after@ },
            Delta::ModelRemoved { name, before } => DeltaView::ModelRemoved { name: name@, before: before@ },
            Delta::ModelRenamed { old_name, new_name, id, before, after } =>
                DeltaView::ModelRenamed { old_name: old_name@, new_name: new_name@, id: *id, before: before@, after: after@ },
            Delta::ModelConfigChanged { model, before, after } =>
                DeltaView::ModelConfigChanged { model: model@, before: before@, after: after@ },
            Delta::FieldAdded { model, field, after } => DeltaView::FieldAdded { model: model@, field: field@, after: after@ },
            Delta::FieldRemoved { model, field, before } => DeltaView::FieldRemoved { model: model@, field: field@, before: before@ },
            Delta::FieldRenamed { model, old_name, new_name, id, before, after } =>
                DeltaView::FieldRenamed { model: model@, old_name: old_name@, new_name: new_name@, id: *id, before: before@, after: after@ },
            Delta::FieldTypeChanged { model, field, before, after } =>
                DeltaView::FieldTypeChanged { model: model@, field: field@, before: before@, after: after@ },
            Delta::FieldOptionalityChanged { model, field, before, after } =>
                DeltaView::FieldOptionalityChanged { model: model@, field: field@, before: *before, after: *after },
            Delta::FieldDefaultChanged { model, field, before, after } =>
                DeltaView::FieldDefaultChanged { model: model@, field: field@, before: opt_value_view(*before), after: opt_value_view(*after) },
            Delta::FieldConfigChanged { model, field, before, after } =>
                DeltaView::FieldConfigChanged { model: model@, field: field@, before: before@, after: after@ },
            Delta::InheritanceAdded { model, parent } => DeltaView::InheritanceAdded { model: model@, parent: parent@ },
            Delta::InheritanceRemoved { model, parent } => DeltaView::InheritanceRemoved { model: model@, parent: parent@ },
        }
    }
}

/// The views of a list of deltas.
pub open spec fn delta_views(v: Seq<Delta>) -> Seq<DeltaView> {
    v.map_values(|d: Delta| d@)
}

proof fn lemma_delta_views_append(a: Seq<Delta>, b: Seq<Delta>)
    ensures
        delta_views(a + b) == delta_views(a) + delta_views(b),
{
    assert(delta_views(a + b) =~= delta_views(a) + delta_views(b));
}

proof fn lemma_delta_views_push(a: Seq<Delta>, d: Delta)
    ensures
        delta_views(a.push(d)) == delta_views(a).push(d@),
{
    assert(delta_views(a.push(d)) =~= delta_views(a).push(d@));
}

/// Appends `other` to `out`.
fn append_deltas(out: &mut Vec<Delta>, other: Vec<Delta>)
    ensures
        delta_views(final(out)@) == delta_views(old(out)@) + delta_views(other@),
{
    let mut other = other;
    let ghost o = other@;
    out.append(&mut other);
    proof { lemma_delta_views_append(old(out)@, o); }
}

/// Appends one delta to `out`.
fn push_delta(out: &mut Vec<Delta>, d: Delta)
    ensures
        delta_views(final(out)@) == delta_views(old(out)@).push(d@),
{
    let ghost d0 = d;
    out.push(d);
    proof { lemma_delta_views_push(old(out)@, d0); }
}

// ---------------------------------------------------------------------------
// Field deltas
// ---------------------------------------------------------------------------

/// The first field of the list that has the given ID.
pub open spec fn field_by_id(fs: Seq<FieldView>, id: EntityId) -> Option<FieldView> {
    if exists|i: int| 0 <= i < fs.len() && fs[i].entity_id == Some(id) {
        Some(fs[choose|i: int| 0 <= i < fs.len() && fs[i].entity_id == Some(id)
            && forall|k: int| 0 <= k < i ==> fs[k].entity_id != Some(id)])
    } else {
        None
    }
}

/// The first field of the list with the given name and without an ID.
pub open spec fn unnumbered_field_named(fs: Seq<FieldView>, name: Seq<char>) -> Option<FieldView> {
    if exists|i: int| 0 <= i < fs.len() && fs[i].name == name && fs[i].entity_id is None {
        Some(fs[choose|i: int| 0 <= i < fs.len() && fs[i].name == name && fs[i].entity_id is None
            && forall|k: int| 0 <= k < i ==> !(fs[k].name == name && fs[k].entity_id is None)])
    } else {
        None
    }
}

/// Whether a field of the list has the given name.
pub open spec fn has_field_named(fs: Seq<FieldView>, name: Seq<char>) -> bool {
    exists|i: int| 0 <= i < fs.len() && fs[i].name == name
}

/// The first type alias of the list with the given name.
pub open spec fn alias_named(xs: Seq<TypeAliasView>, name: Seq<char>) -> Option<TypeAliasView> {
    if exists|i: int| 0 <= i < xs.len() && xs[i].name == name {
        Some(xs[choose|i: int| 0 <= i < xs.len() && xs[i].name == name && forall|k: int| 0 <= k < i ==> xs[k].name != name])
    } else {
        None
    }
}

/// A type with an alias name resolved: an identifier that names a type alias of the
/// list stands for the alias's type; any other type stands for itself.
pub open spec fn resolved(t: TypeView, aliases: Seq<TypeAliasView>) -> TypeView {
    match t {
        TypeView::Identifier(n) => match alias_named(aliases, n) {
            Some(a) => a.alias_type,
            None => t,
        },
        _ => t,
    }
}

/// Whether a field kept its type: the two types are equal as written, or equal once a
/// type alias name in either is resolved (against the aliases of its own schema
/// version), so that a field typed by an alias equals the type the alias stands for.
pub open spec fn field_types_same(pa: Seq<TypeAliasView>, ca: Seq<TypeAliasView>, p: TypeView, c: TypeView) -> bool {
    types_eq(p, c) || types_eq(resolved(p, pa), resolved(c, ca))
}

/// The index of the first type alias with the given name.
fn find_alias_named(xs: &Vec<TypeAliasDefinition>, name: &str) -> (r: Option<usize>)
    ensures
        match r {
            Some(i) => i < xs@.len() && alias_named(alias_views(xs@), name@) == Some(xs@[i as int]@),
            None => alias_named(alias_views(xs@), name@) is None,
        },
{
    let ghost av = alias_views(xs@);
    let mut i: usize = 0;
    while i < xs.len()
        invariant
            av == alias_views(xs@),
            i <= xs@.len(),
            forall|k: int| 0 <= k < i ==> av[k].name != name@,
        decreases xs@.len() - i,
    {
        if str_eq(xs[i].name.as_str(), name) {
            proof {
                assert(av[i as int].name == name@);
                let c = choose|c: int| 0 <= c < av.len() && av[c].name == name@ && forall|k: int| 0 <= k < c ==> av[k].name != name@;
                if c > i {
                    assert(av[i as int].name != name@);
                }
                assert(c == i);
            }
            return Some(i);
        }
        proof { assert(av[i as int].name == xs@[i as int].name@); }
        i = i + 1;
    }
    None
}

/// The type that a type expression stands for (see `resolved`).
fn resolve_type<'a>(t: &'a TypeExpression, aliases: &'a Vec<TypeAliasDefinition>) -> (r: &'a TypeExpression)
    ensures
        r@ == resolved(t@, alias_views(aliases@)),
{
    match t {
        TypeExpression::Identifier { name } => match find_alias_named(aliases, name.as_str()) {
            Some(i) => &aliases[i].alias_type,
            None => t,
        },
        _ => t,
    }
}

/// Whether a field kept its type (see `field_types_same`).
fn field_types_match(prev_aliases: &Vec<TypeAliasDefinition>, curr_aliases: &Vec<TypeAliasDefinition>, p: &TypeExpression, c: &TypeExpression) -> (r: bool)
    ensures
        r == field_types_same(alias_views(prev_aliases@), alias_views(curr_aliases@), p@, c@),
{
    if types_equal(p, c) {
        true
    } else {
        types_equal(resolve_type(p, prev_aliases), resolve_type(c, curr_aliases))
    }
}

/// The changes between two versions of a field that kept its name: type,
/// optionality, default value and configuration, in that order.
pub open spec fn field_changes<F: Fn(u64, u64) -> bool>(numbers_equal: F, pa: Seq<TypeAliasView>, ca: Seq<TypeAliasView>, model: Seq<char>, p: FieldView, c: FieldView) -> Seq<DeltaView> {
    (if !field_types_same(pa, ca, p.field_type, c.field_type) {
        seq![DeltaView::FieldTypeChanged { model, field: c.name, before: p.field_type, after: c.field_type }]
    } else {
        seq![]
    }) + (if p.optional != c.optional {
        seq![DeltaView::FieldOptionalityChanged { model, field: c.name, before: p.optional, after: c.optional }]
    } else {
        seq![]
    }) + (if !values_eq(numbers_equal, p.default, c.default) {
        seq![DeltaView::FieldDefaultChanged { model, field: c.name, before: p.default, after: c.default }]
    } else {
        seq![]
    }) + (if !json_eq(p.config, c.config) {
        seq![DeltaView::FieldConfigChanged { model, field: c.name, before: p.config, after: c.config }]
    } else {
        seq![]
    })
}

/// Phase one, for a current field with an ID: renamed, changed in place, or added.
pub open spec fn field_delta_by_id<F: Fn(u64, u64) -> bool>(numbers_equal: F, pa: Seq<TypeAliasView>, ca: Seq<TypeAliasView>, model: Seq<char>, prev: Seq<FieldView>, c: FieldView) -> Seq<DeltaView> {
    match c.entity_id {
        Some(id) => match field_by_id(prev, id) {
            Some(p) => if p.name != c.name {
                seq![DeltaView::FieldRenamed { model, old_name: p.name, new_name: c.name, id: c.entity_id, before: p, after: c }]
            } else {
                field_changes(numbers_equal, pa, ca, model, p, c)
            },
            None => seq![DeltaView::FieldAdded { model, field: c.name, after: c }],
        },
        None => seq![],
    }
}

/// Phase two, for a previous field with an ID: removed when no current field has it.
pub open spec fn field_removed_by_id(model: Seq<char>, curr: Seq<FieldView>, p: FieldView) -> Seq<DeltaView> {
    match p.entity_id {
        Some(id) => if field_by_id(curr, id) is None {
            seq![DeltaView::FieldRemoved { model, field: p.name, before: p }]
        } else {
            seq![]
        },
        None => seq![],
    }
}

/// Phase three, for a current field without an ID: compared with the previous field of
/// the same name that has no ID either, or added.
pub open spec fn field_delta_by_name<F: Fn(u64, u64) -> bool>(numbers_equal: F, pa: Seq<TypeAliasView>, ca: Seq<TypeAliasView>, model: Seq<char>, prev: Seq<FieldView>, c: FieldView) -> Seq<DeltaView> {
    if c.entity_id is None {
        match unnumbered_field_named(prev, c.name) {
            Some(p) => field_changes(numbers_equal, pa, ca, model, p, c),
            None => seq![DeltaView::FieldAdded { model, field: c.name, after: c }],
        }
    } else {
        seq![]
    }
}

/// Phase four, for a previous field without an ID: removed when no current field has its name.
pub open spec fn field_removed_by_name(model: Seq<char>, curr: Seq<FieldView>, p: FieldView) -> Seq<DeltaView> {
    if p.entity_id is None && !has_field_named(curr, p.name) {
        seq![DeltaView::FieldRemoved { model, field: p.name, before: p }]
    } else {
        seq![]
    }
}

/// The field deltas of a model: fields with IDs first (renamed, changed or added, then
/// removed), then fields without IDs (changed or added, then removed).
pub open spec fn spec_field_deltas<F: Fn(u64, u64) -> bool>(numbers_equal: F, pa: Seq<TypeAliasView>, ca: Seq<TypeAliasView>, model: Seq<char>, prev: Seq<FieldView>, curr: Seq<FieldView>) -> Seq<DeltaView> {
    curr.flat_map(|c: FieldView| field_delta_by_id(numbers_equal, pa, ca, model, prev, c))
        + prev.flat_map(|p: FieldView| field_removed_by_id(model, curr, p))
        + curr.flat_map(|c: FieldView| field_delta_by_name(numbers_equal, pa, ca, model, prev, c))
        + prev.flat_map(|p: FieldView| field_removed_by_name(model, curr, p))
}

/// Fields of one model, as the delta computation needs them: names differ, and IDs
/// (where present) differ.
pub open spec fn fields_wf(fs: Seq<FieldView>) -> bool {
    &&& forall|i: int, j: int| 0 <= i < j < fs.len() ==> fs[i].name != fs[j].name
    &&& forall|i: int, j: int| 0 <= i < j < fs.len() && fs[i].entity_id is Some ==> fs[i].entity_id != fs[j].entity_id
}

/// Finds the first field with the given ID.
fn find_field_by_id(fs: &Vec<FieldDefinition>, id: EntityId) -> (r: Option<usize>)
    ensures
        match r {
            Some(i) => i < fs@.len() && field_by_id(field_views(fs@), id) == Some(fs@[i as int]@),
            None => field_by_id(field_views(fs@), id) is None,
        },
{
    let ghost fv = field_views(fs@);
    let mut i: usize = 0;
    while i < fs.len()
        invariant
            fv == field_views(fs@),
            i <= fs@.len(),
            forall|k: int| 0 <= k < i ==> fv[k].entity_id != Some(id),
        decreases fs@.len() - i,
    {
        match fs[i].entity_id {
            Some(e) => {
                if e == id {
                    proof {
                        assert(fv[i as int].entity_id == Some(id));
                        let c = choose|c: int| 0 <= c < fv.len() && fv[c].entity_id == Some(id)
                            && forall|k: int| 0 <= k < c ==> fv[k].entity_id != Some(id);
                        if c > i {
                            assert(fv[i as int].entity_id != Some(id));
                        }
                        assert(c == i);
                    }
                    return Some(i);
                }
            },
            None => {},
        }
        proof { assert(fv[i as int].entity_id == fs@[i as int].entity_id); }
        i = i + 1;
    }
    None
}

/// Finds the first field with the given name and without an ID.
fn find_unnumbered_field(fs: &Vec<FieldDefinition>, name: &str) -> (r: Option<usize>)
    ensures
        match r {
            Some(i) => i < fs@.len() && unnumbered_field_named(field_views(fs@), name@) == Some(fs@[i as int]@),
            None => unnumbered_field_named(field_views(fs@), name@) is None,
        },
{
    let ghost fv = field_views(fs@);
    let mut i: usize = 0;
    while i < fs.len()
        invariant
            fv == field_views(fs@),
            i <= fs@.len(),
            forall|k: int| 0 <= k < i ==> !(fv[k].name == name@ && fv[k].entity_id is None),
        decreases fs@.len() - i,
    {
        if fs[i].entity_id.is_none() && str_eq(fs[i].name.as_str(), name) {
            proof {
                let c = choose|c: int| 0 <= c < fv.len() && fv[c].name == name@ && fv[c].entity_id is None
                    && forall|k: int| 0 <= k < c ==> !(fv[k].name == name@ && fv[k].entity_id is None);
                if c > i {
                    assert(!(fv[i as int].name == name@ && fv[i as int].entity_id is None));
                }
                assert(c == i);
            }
            return Some(i);
        }
        i = i + 1;
    }
    None
}

/// Whether a field of the list has the given name.
fn contains_field_named(fs: &Vec<FieldDefinition>, name: &str) -> (r: bool)
    ensures
        r == has_field_named(field_views(fs@), name@),
{
    let ghost fv = field_views(fs@);
    let mut i: usize = 0;
    while i < fs.len()
        invariant
            fv == field_views(fs@),
            i <= fs@.len(),
            forall|k: int| 0 <= k < i ==> fv[k].name != name@,
        decreases fs@.len() - i,
    {
        if str_eq(fs[i].name.as_str(), name) {
            proof { assert(fv[i as int].name == name@); }
            return true;
        }
        i = i + 1;
    }
    false
}

/// The changes between two versions of a field that kept its name.
fn compute_field_changes<F: Fn(u64, u64) -> bool>(numbers_equal: &F, prev_aliases: &Vec<TypeAliasDefinition>, curr_aliases: &Vec<TypeAliasDefinition>, model: &str, p: &FieldDefinition, c: &FieldDefinition) -> (r: Vec<Delta>)
    requires
        is_number_comparison(*numbers_equal),
    ensures
        delta_views(r@) == field_changes(*numbers_equal, alias_views(prev_aliases@), alias_views(curr_aliases@), model@, p@, c@),
{
    let ghost pa = alias_views(prev_aliases@);
    let ghost ca = alias_views(curr_aliases@);
    let mut out: Vec<Delta> = Vec::new();
    let ghost a = if !field_types_same(pa, ca, p@.field_type, c@.field_type) {
        seq![DeltaView::FieldTypeChanged { model: model@, field: c@.name, before: p@.field_type, after: c@.field_type }]
    } else {
        Seq::<DeltaView>::empty()
    };
    let ghost b = if p.optional != c.optional {
        seq![DeltaView::FieldOptionalityChanged { model: model@, field: c@.name, before: p.optional, after: c.optional }]
    } else {
        Seq::<DeltaView>::empty()
    };
    let ghost d = if !values_eq(*numbers_equal, p@.default, c@.default) {
        seq![DeltaView::FieldDefaultChanged { model: model@, field: c@.name, before: p@.default, after: c@.default }]
    } else {
        Seq::<DeltaView>::empty()
    };
    if !field_types_match(prev_aliases, curr_aliases, &p.field_type, &c.field_type) {
        push_delta(&mut out, Delta::FieldTypeChanged {
            model: model.to_string(),
            field: c.name.clone(),
            before: p.field_type.copy(),
            after: c.field_type.copy(),
        });
    }
    assert(delta_views(out@) =~= a);
    if p.optional != c.optional {
        push_delta(&mut out, Delta::FieldOptionalityChanged {
            model: model.to_string(),
            field: c.name.clone(),
            before: p.optional,
            after: c.optional,
        });
    }
    assert(delta_views(out@) =~= a + b);
    if !values_equal(numbers_equal, &p.default, &c.default) {
        push_delta(&mut out, Delta::FieldDefaultChanged {
            model: model.to_string(),
            field: c.name.clone(),
            before: copy_opt_value(&p.default),
            after: copy_opt_value(&c.default),
        });
    }
    assert(delta_views(out@) =~= a + b + d);
    if !configs_equal(&p.config, &c.config) {
        push_delta(&mut out, Delta::FieldConfigChanged {
            model: model.to_string(),
            field: c.name.clone(),
            before: p.config.deep_copy(),
            after: c.config.deep_copy(),
        });
    }
    assert(delta_views(out@) =~= field_changes(*numbers_equal, pa, ca, model@, p@, c@));
    out
}

/// The field deltas within a model (see `spec_field_deltas`).
pub fn compute_field_deltas<F: Fn(u64, u64) -> bool>(
    numbers_equal: &F, prev_aliases: &Vec<TypeAliasDefinition>, curr_aliases: &Vec<TypeAliasDefinition>,
    model_name: &str,
    prev_fields: &Vec<FieldDefinition>,
    curr_fields: &Vec<FieldDefinition>,
) -> (r: Vec<Delta>)
    requires
        is_number_comparison(*numbers_equal),
        fields_wf(field_views(prev_fields@)),
        fields_wf(field_views(curr_fields@)),
    ensures
        delta_views(r@) == spec_field_deltas(*numbers_equal, alias_views(prev_aliases@), alias_views(curr_aliases@), model_name@, field_views(prev_fields@), field_views(curr_fields@)),
{
    let ghost pa = alias_views(prev_aliases@);
    let ghost ca = alias_views(curr_aliases@);
    let ghost f = *numbers_equal;
    let ghost model = model_name@;
    let ghost pv = field_views(prev_fields@);
    let ghost cv = field_views(curr_fields@);
    let ghost g1 = |c: FieldView| field_delta_by_id(f, pa, ca, model, pv, c);
    let ghost g2 = |p: FieldView| field_removed_by_id(model, cv, p);
    let ghost g3 = |c: FieldView| field_delta_by_name(f, pa, ca, model, pv, c);
    let ghost g4 = |p: FieldView| field_removed_by_name(model, cv, p);
    let mut out: Vec<Delta> = Vec::new();

    // Phase 1: current fields with IDs.
    let mut i: usize = 0;
    assert(cv.take(0).flat_map(g1) =~= Seq::<DeltaView>::empty());
    while i < curr_fields.len()
        invariant
            f == *numbers_equal,
            pa == alias_views(prev_aliases@),
            ca == alias_views(curr_aliases@),
            is_number_comparison(f),
            model == model_name@,
            pv == field_views(prev_fields@),
            cv == field_views(curr_fields@),
            g1 == (|c: FieldView| field_delta_by_id(f, pa, ca, model, pv, c)),
            i <= curr_fields@.len(),
            delta_views(out@) == cv.take(i as int).flat_map(g1),
        decreases curr_fields@.len() - i,
    {
        let c = &curr_fields[i];
        let ghost before = delta_views(out@);
        match c.entity_id {
            Some(id) => {
                match find_field_by_id(prev_fields, id) {
                    Some(j) => {
                        let p = &prev_fields[j];
                        if !str_eq(p.name.as_str(), c.name.as_str()) {
                            push_delta(&mut out, Delta::FieldRenamed {
                                model: model_name.to_string(),
                                old_name: p.name.clone(),
                                new_name: c.name.clone(),
                                id: c.entity_id,
                                before: p.copy(),
                                after: c.copy(),
                            });
                        } else {
                            let changes = compute_field_changes(numbers_equal, prev_aliases, curr_aliases, model_name, p, c);
                            append_deltas(&mut out, changes);
                        }
                    },
                    None => {
                        push_delta(&mut out, Delta::FieldAdded { model: model_name.to_string(), field: c.name.clone(), after: c.copy() });
                    },
                }
            },
            None => {},
        }
        proof {
            assert(cv[i as int] == c@);
            cv.lemma_flat_map_take_append(g1, i as int);
            assert(delta_views(out@) =~= before + g1(cv[i as int]));
        }
        i = i + 1;
    }
    proof { assert(cv.take(cv.len() as int) =~= cv); }
    let ghost after1 = delta_views(out@);

    // Phase 2: previous fields with IDs that are gone.
    let mut i: usize = 0;
    assert(pv.take(0).flat_map(g2) =~= Seq::<DeltaView>::empty());
    while i < prev_fields.len()
        invariant
            model == model_name@,
            pv == field_views(prev_fields@),
            cv == field_views(curr_fields@),
            g2 == (|p: FieldView| field_removed_by_id(model, cv, p)),
            i <= prev_fields@.len(),
            delta_views(out@) == after1 + pv.take(i as int).flat_map(g2),
        decreases prev_fields@.len() - i,
    {
        let p = &prev_fields[i];
        let ghost before = delta_views(out@);
        match p.entity_id {
            Some(id) => {
                if find_field_by_id(curr_fields, id).is_none() {
                    push_delta(&mut out, Delta::FieldRemoved { model: model_name.to_string(), field: p.name.clone(), before: p.copy() });
                }
            },
            None => {},
        }
        proof {
            assert(pv[i as int] == p@);
            pv.lemma_flat_map_take_append(g2, i as int);
            assert(delta_views(out@) =~= before + g2(pv[i as int]));
        }
        i = i + 1;
    }
    proof { assert(pv.take(pv.len() as int) =~= pv); }
    let ghost after2 = delta_views(out@);

    // Phase 3: current fields without IDs.
    let mut i: usize = 0;
    assert(cv.take(0).flat_map(g3) =~= Seq::<DeltaView>::empty());
    while i < curr_fields.len()
        invariant
            f == *numbers_equal,
            pa == alias_views(prev_aliases@),
            ca == alias_views(curr_aliases@),
            is_number_comparison(f),
            model == model_name@,
            pv == field_views(prev_fields@),
            cv == field_views(curr_fields@),
            g3 == (|c: FieldView| field_delta_by_name(f, pa, ca, model, pv, c)),
            i <= curr_fields@.len(),
            delta_views(out@) == after2 + cv.take(i as int).flat_map(g3),
        decreases curr_fields@.len() - i,
    {
        let c = &curr_fields[i];
        let ghost before = delta_views(out@);
        if c.entity_id.is_none() {
            match find_unnumbered_field(prev_fields, c.name.as_str()) {
                Some(j) => {
                    let changes = compute_field_changes(numbers_equal, prev_aliases, curr_aliases, model_name, &prev_fields[j], c);
                    append_deltas(&mut out, changes);
                },
                None => {
                    push_delta(&mut out, Delta::FieldAdded { model: model_name.to_string(), field: c.name.clone(), after: c.copy() });
                },
            }
        }
        proof {
            assert(cv[i as int] == c@);
            cv.lemma_flat_map_take_append(g3, i as int);
            assert(delta_views(out@) =~= before + g3(cv[i as int]));
        }
        i = i + 1;
    }
    proof { assert(cv.take(cv.len() as int) =~= cv); }
    let ghost after3 = delta_views(out@);

    // Phase 4: previous fields without IDs whose name is gone.
    let mut i: usize = 0;
    assert(pv.take(0).flat_map(g4) =~= Seq::<DeltaView>::empty());
    while i < prev_fields.len()
        invariant
            model == model_name@,
            pv == field_views(prev_fields@),
            cv == field_views(curr_fields@),
            g4 == (|p: FieldView| field_removed_by_name(model, cv, p)),
            i <= prev_fields@.len(),
            delta_views(out@) == after3 + pv.take(i as int).flat_map(g4),
        decreases prev_fields@.len() - i,
    {
        let p = &prev_fields[i];
        let ghost before = delta_views(out@);
        if p.entity_id.is_none() && !contains_field_named(curr_fields, p.name.as_str()) {
            push_delta(&mut out, Delta::FieldRemoved { model: model_name.to_string(), field: p.name.clone(), before: p.copy() });
        }
        proof {
            assert(pv[i as int] == p@);
            pv.lemma_flat_map_take_append(g4, i as int);
            assert(delta_views(out@) =~= before + g4(pv[i as int]));
        }
        i = i + 1;
    }
    proof { assert(pv.take(pv.len() as int) =~= pv); }
    out
}

// ---------------------------------------------------------------------------
// Inheritance deltas
// ---------------------------------------------------------------------------

/// Parents that were added (in current order), then parents that were removed (in
/// previous order).
pub open spec fn spec_inheritance_deltas(model: Seq<char>, prev: Seq<Seq<char>>, curr: Seq<Seq<char>>) -> Seq<DeltaView> {
    curr.flat_map(|q: Seq<char>| if !prev.contains(q) { seq![DeltaView::InheritanceAdded { model, parent: q }] } else { seq![] })
        + prev.flat_map(|q: Seq<char>| if !curr.contains(q) { seq![DeltaView::InheritanceRemoved { model, parent: q }] } else { seq![] })
}

/// The inheritance deltas of a model (see `spec_inheritance_deltas`).
pub fn compute_inheritance_deltas(model_name: &str, prev_parents: &Vec<String>, curr_parents: &Vec<String>) -> (r: Vec<Delta>)
    ensures
        delta_views(r@) == spec_inheritance_deltas(model_name@, views(prev_parents@), views(curr_parents@)),
{
    let ghost model = model_name@;
    let ghost pv = views(prev_parents@);
    let ghost cv = views(curr_parents@);
    let ghost g1 = |q: Seq<char>| if !pv.contains(q) { seq![DeltaView::InheritanceAdded { model, parent: q }] } else { Seq::<DeltaView>::empty() };
    let ghost g2 = |q: Seq<char>| if !cv.contains(q) { seq![DeltaView::InheritanceRemoved { model, parent: q }] } else { Seq::<DeltaView>::empty() };
    let mut out: Vec<Delta> = Vec::new();
    let mut i: usize = 0;
    assert(cv.take(0).flat_map(g1) =~= Seq::<DeltaView>::empty());
    while i < curr_parents.len()
        invariant
            model == model_name@,
            pv == views(prev_parents@),
            cv == views(curr_parents@),
            g1 == (|q: Seq<char>| if !pv.contains(q) { seq![DeltaView::InheritanceAdded { model, parent: q }] } else { Seq::<DeltaView>::empty() }),
            i <= curr_parents@.len(),
            delta_views(out@) == cv.take(i as int).flat_map(g1),
        decreases curr_parents@.len() - i,
    {
        let ghost before = delta_views(out@);
        if !contains_text(prev_parents.as_slice(), curr_parents[i].as_str()) {
            push_delta(&mut out, Delta::InheritanceAdded { model: model_name.to_string(), parent: curr_parents[i].clone() });
        }
        proof {
            cv.lemma_flat_map_take_append(g1, i as int);
            assert(delta_views(out@) =~= before + g1(cv[i as int]));
        }
        i = i + 1;
    }
    proof { assert(cv.take(cv.len() as int) =~= cv); }
    let ghost after1 = delta_views(out@);
    let mut i: usize = 0;
    assert(pv.take(0).flat_map(g2) =~= Seq::<DeltaView>::empty());
    while i < prev_parents.len()
        invariant
            model == model_name@,
            pv == views(prev_parents@),
            cv == views(curr_parents@),
            g2 == (|q: Seq<char>| if !cv.contains(q) { seq![DeltaView::InheritanceRemoved { model, parent: q }] } else { Seq::<DeltaView>::empty() }),
            i <= prev_parents@.len(),
            delta_views(out@) == after1 + pv.take(i as int).flat_map(g2),
        decreases prev_parents@.len() - i,
    {
        let ghost before = delta_views(out@);
        if !contains_text(curr_parents.as_slice(), prev_parents[i].as_str()) {
            push_delta(&mut out, Delta::InheritanceRemoved { model: model_name.to_string(), parent: prev_parents[i].clone() });
        }
        proof {
            pv.lemma_flat_map_take_append(g2, i as int);
            assert(delta_views(out@) =~= before + g2(pv[i as int]));
        }
        i = i + 1;
    }
    proof { assert(pv.take(pv.len() as int) =~= pv); }
    out
}

// ---------------------------------------------------------------------------
// Model deltas
// ---------------------------------------------------------------------------

/// The views of a list of models.
pub open spec fn model_views(s: Seq<ModelDefinition>) -> Seq<ModelView> {
    s.map_values(|m: ModelDefinition| m@)
}

/// The views of a list of type aliases.
pub open spec fn alias_views(s: Seq<TypeAliasDefinition>) -> Seq<TypeAliasView> {
    s.map_values(|a: TypeAliasDefinition| a@)
}

/// The first model of the list that has the given ID.
pub open spec fn model_by_id(ms: Seq<ModelView>, id: EntityId) -> Option<ModelView> {
    if exists|i: int| 0 <= i < ms.len() && ms[i].entity_id == Some(id) {
        Some(ms[choose|i: int| 0 <= i < ms.len() && ms[i].entity_id == Some(id)
            && forall|k: int| 0 <= k < i ==> ms[k].entity_id != Some(id)])
    } else {
        None
    }
}

/// The first model of the list with the given name.
pub open spec fn model_named(ms: Seq<ModelView>, name: Seq<char>) -> Option<ModelView> {
    if exists|i: int| 0 <= i < ms.len() && ms[i].name == name {
        Some(ms[choose|i: int| 0 <= i < ms.len() && ms[i].name == name && forall|k: int| 0 <= k < i ==> ms[k].name != name])
    } else {
        None
    }
}

/// The deltas within a model that exists in both versions: its fields, then its parents.
pub open spec fn model_inner_deltas<F: Fn(u64, u64) -> bool>(numbers_equal: F, pa: Seq<TypeAliasView>, ca: Seq<TypeAliasView>, name: Seq<char>, p: ModelView, c: ModelView) -> Seq<DeltaView> {
    spec_field_deltas(numbers_equal, pa, ca, name, p.fields, c.fields) + spec_inheritance_deltas(name, p.parents, c.parents)
}

/// Phase one, for a current model with an ID: renamed (with its inner deltas), changed
/// in place (inner deltas, then a configuration change), or added.
pub open spec fn model_delta_by_id<F: Fn(u64, u64) -> bool>(numbers_equal: F, pa: Seq<TypeAliasView>, ca: Seq<TypeAliasView>, prev: Seq<ModelView>, c: ModelView) -> Seq<DeltaView> {
    match c.entity_id {
        Some(id) => match model_by_id(prev, id) {
            Some(p) => if p.name != c.name {
                seq![DeltaView::ModelRenamed { old_name: p.name, new_name: c.name, id: c.entity_id, before: p, after: c }]
                    + model_inner_deltas(numbers_equal, pa, ca, c.name, p, c)
            } else {
                model_inner_deltas(numbers_equal, pa, ca, c.name, p, c) + if !json_eq(p.config, c.config) {
                    seq![DeltaView::ModelConfigChanged { model: c.name, before: p.config, after: c.config }]
                } else {
                    seq![]
                }
            },
            None => seq![DeltaView::ModelAdded { name: c.name, after: c }],
        },
        None => seq![],
    }
}

/// Phase two, for a previous model with an ID: removed when no current model has it.
pub open spec fn model_removed_by_id(curr: Seq<ModelView>, p: ModelView) -> Seq<DeltaView> {
    match p.entity_id {
        Some(id) => if model_by_id(curr, id) is None {
            seq![DeltaView::ModelRemoved { name: p.name, before: p }]
        } else {
            seq![]
        },
        None => seq![],
    }
}

/// Phase three, for a current model without an ID: the inner deltas against the previous
/// model of that name, or added.
pub open spec fn model_delta_by_name<F: Fn(u64, u64) -> bool>(numbers_equal: F, pa: Seq<TypeAliasView>, ca: Seq<TypeAliasView>, prev: Seq<ModelView>, c: ModelView) -> Seq<DeltaView> {
    if c.entity_id is None {
        match model_named(prev, c.name) {
            Some(p) => model_inner_deltas(numbers_equal, pa, ca, c.name, p, c),
            None => seq![DeltaView::ModelAdded { name: c.name, after: c }],
        }
    } else {
        seq![]
    }
}

/// Phase four, for a previous model without an ID: removed when no current model has its name.
pub open spec fn model_removed_by_name(curr: Seq<ModelView>, p: ModelView) -> Seq<DeltaView> {
    if p.entity_id is None && model_named(curr, p.name) is None {
        seq![DeltaView::ModelRemoved { name: p.name, before: p }]
    } else {
        seq![]
    }
}

/// The model deltas, phase by phase.
pub open spec fn spec_model_deltas<F: Fn(u64, u64) -> bool>(numbers_equal: F, pa: Seq<TypeAliasView>, ca: Seq<TypeAliasView>, prev: Seq<ModelView>, curr: Seq<ModelView>) -> Seq<DeltaView> {
    curr.flat_map(|c: ModelView| model_delta_by_id(numbers_equal, pa, ca, prev, c))
        + prev.flat_map(|p: ModelView| model_removed_by_id(curr, p))
        + curr.flat_map(|c: ModelView| model_delta_by_name(numbers_equal, pa, ca, prev, c))
        + prev.flat_map(|p: ModelView| model_removed_by_name(curr, p))
}

/// Models of one schema as the delta computation needs them: names differ, IDs (where
/// present) differ, and so do the names and IDs of the fields of each model.
pub open spec fn models_wf(ms: Seq<ModelView>) -> bool {
    &&& forall|i: int, j: int| 0 <= i < j < ms.len() ==> ms[i].name != ms[j].name
    &&& forall|i: int, j: int| 0 <= i < j < ms.len() && ms[i].entity_id is Some ==> ms[i].entity_id != ms[j].entity_id
    &&& forall|i: int| 0 <= i < ms.len() ==> fields_wf(#[trigger] ms[i].fields)
}

fn find_model_by_id(ms: &Vec<ModelDefinition>, id: EntityId) -> (r: Option<usize>)
    ensures
        match r {
            Some(i) => i < ms@.len() && model_by_id(model_views(ms@), id) == Some(ms@[i as int]@),
            None => model_by_id(model_views(ms@), id) is None,
        },
{
    let ghost mv = model_views(ms@);
    let mut i: usize = 0;
    while i < ms.len()
        invariant
            mv == model_views(ms@),
            i <= ms@.len(),
            forall|k: int| 0 <= k < i ==> mv[k].entity_id != Some(id),
        decreases ms@.len() - i,
    {
        match ms[i].entity_id {
            Some(e) => {
                if e == id {
                    proof {
                        assert(mv[i as int].entity_id == Some(id));
                        let c = choose|c: int| 0 <= c < mv.len() && mv[c].entity_id == Some(id)
                            && forall|k: int| 0 <= k < c ==> mv[k].entity_id != Some(id);
                        if c > i {
                            assert(mv[i as int].entity_id != Some(id));
                        }
                        assert(c == i);
                    }
                    return Some(i);
                }
            },
            None => {},
        }
        proof { assert(mv[i as int].entity_id == ms@[i as int].entity_id); }
        i = i + 1;
    }
    None
}

fn find_model_named(ms: &Vec<ModelDefinition>, name: &str) -> (r: Option<usize>)
    ensures
        match r {
            Some(i) => i < ms@.len() && model_named(model_views(ms@), name@) == Some(ms@[i as int]@),
            None => model_named(model_views(ms@), name@) is None,
        },
{
    let ghost mv = model_views(ms@);
    let mut i: usize = 0;
    while i < ms.len()
        invariant
            mv == model_views(ms@),
            i <= ms@.len(),
            forall|k: int| 0 <= k < i ==> mv[k].name != name@,
        decreases ms@.len() - i,
    {
        if str_eq(ms[i].name.as_str(), name) {
            proof {
                assert(mv[i as int].name == name@);
                let c = choose|c: int| 0 <= c < mv.len() && mv[c].name == name@ && forall|k: int| 0 <= k < c ==> mv[k].name != name@;
                if c > i {
                    assert(mv[i as int].name != name@);
                }
                assert(c == i);
            }
            return Some(i);
        }
        i = i + 1;
    }
    None
}

/// Field and inheritance deltas of a model present in both versions.
fn compute_model_inner<F: Fn(u64, u64) -> bool>(numbers_equal: &F, prev_aliases: &Vec<TypeAliasDefinition>, curr_aliases: &Vec<TypeAliasDefinition>, name: &str, p: &ModelDefinition, c: &ModelDefinition) -> (r: Vec<Delta>)
    requires
        is_number_comparison(*numbers_equal),
        fields_wf(p@.fields),
        fields_wf(c@.fields),
    ensures
        delta_views(r@) == model_inner_deltas(*numbers_equal, alias_views(prev_aliases@), alias_views(curr_aliases@), name@, p@, c@),
{
    let ghost pa = alias_views(prev_aliases@);
    let ghost ca = alias_views(curr_aliases@);
    let mut out = compute_field_deltas(numbers_equal, prev_aliases, curr_aliases, name, &p.fields, &c.fields);
    let inh = compute_inheritance_deltas(name, &p.parents, &c.parents);
    append_deltas(&mut out, inh);
    out
}

/// The model deltas between two schemas (see `spec_model_deltas`).
pub fn compute_model_deltas<F: Fn(u64, u64) -> bool>(numbers_equal: &F, prev_aliases: &Vec<TypeAliasDefinition>, curr_aliases: &Vec<TypeAliasDefinition>, prev_models: &Vec<ModelDefinition>, curr_models: &Vec<ModelDefinition>) -> (r: Vec<Delta>)
    requires
        is_number_comparison(*numbers_equal),
        models_wf(model_views(prev_models@)),
        models_wf(model_views(curr_models@)),
    ensures
        delta_views(r@) == spec_model_deltas(*numbers_equal, alias_views(prev_aliases@), alias_views(curr_aliases@), model_views(prev_models@), model_views(curr_models@)),
{
    let ghost pa = alias_views(prev_aliases@);
    let ghost ca = alias_views(curr_aliases@);
    let ghost f = *numbers_equal;
    let ghost pv = model_views(prev_models@);
    let ghost cv = model_views(curr_models@);
    let ghost g1 = |c: ModelView| model_delta_by_id(f, pa, ca, pv, c);
    let ghost g2 = |p: ModelView| model_removed_by_id(cv, p);
    let ghost g3 = |c: ModelView| model_delta_by_name(f, pa, ca, pv, c);
    let ghost g4 = |p: ModelView| model_removed_by_name(cv, p);
    let mut out: Vec<Delta> = Vec::new();

    let mut i: usize = 0;
    assert(cv.take(0).flat_map(g1) =~= Seq::<DeltaView>::empty());
    while i < curr_models.len()
        invariant
            f == *numbers_equal,
            pa == alias_views(prev_aliases@),
            ca == alias_views(curr_aliases@),
            is_number_comparison(f),
            pv == model_views(prev_models@),
            cv == model_views(curr_models@),
            models_wf(pv),
            models_wf(cv),
            g1 == (|c: ModelView| model_delta_by_id(f, pa, ca, pv, c)),
            i <= curr_models@.len(),
            delta_views(out@) == cv.take(i as int).flat_map(g1),
        decreases curr_models@.len() - i,
    {
        let c = &curr_models[i];
        let ghost before = delta_views(out@);
        proof { assert(cv[i as int] == c@); assert(fields_wf(cv[i as int].fields)); }
        match c.entity_id {
            Some(id) => {
                match find_model_by_id(prev_models, id) {
                    Some(j) => {
                        let p = &prev_models[j];
                        proof { assert(pv[j as int] == p@); assert(fields_wf(pv[j as int].fields)); }
                        if !str_eq(p.name.as_str(), c.name.as_str()) {
                            push_delta(&mut out, Delta::ModelRenamed {
                                old_name: p.name.clone(),
                                new_name: c.name.clone(),
                                id: c.entity_id,
                                before: p.copy(),
                                after: c.copy(),
                            });
                            let inner = compute_model_inner(numbers_equal, prev_aliases, curr_aliases, c.name.as_str(), p, c);
                            append_deltas(&mut out, inner);
                        } else {
                            let inner = compute_model_inner(numbers_equal, prev_aliases, curr_aliases, c.name.as_str(), p, c);
                            append_deltas(&mut out, inner);
                            if !configs_equal(&p.config, &c.config) {
                                push_delta(&mut out, Delta::ModelConfigChanged {
                                    model: c.name.clone(),
                                    before: p.config.deep_copy(),
                                    after: c.config.deep_copy(),
                                });
                            }
                        }
                    },
                    None => {
                        push_delta(&mut out, Delta::ModelAdded { name: c.name.clone(), after: c.copy() });
                    },
                }
            },
            None => {},
        }
        proof {
            cv.lemma_flat_map_take_append(g1, i as int);
            assert(delta_views(out@) =~= before + g1(cv[i as int]));
        }
        i = i + 1;
    }
    proof { assert(cv.take(cv.len() as int) =~= cv); }
    let ghost after1 = delta_views(out@);

    let mut i: usize = 0;
    assert(pv.take(0).flat_map(g2) =~= Seq::<DeltaView>::empty());
    while i < prev_models.len()
        invariant
            pv == model_views(prev_models@),
            cv == model_views(curr_models@),
            g2 == (|p: ModelView| model_removed_by_id(cv, p)),
            i <= prev_models@.len(),
            delta_views(out@) == after1 + pv.take(i as int).flat_map(g2),
        decreases prev_models@.len() - i,
    {
        let p = &prev_models[i];
        let ghost before = delta_views(out@);
        match p.entity_id {
            Some(id) => {
                if find_model_by_id(curr_models, id).is_none() {
                    push_delta(&mut out, Delta::ModelRemoved { name: p.name.clone(), before: p.copy() });
                }
            },
            None => {},
        }
        proof {
            assert(pv[i as int] == p@);
            pv.lemma_flat_map_take_append(g2, i as int);
            assert(delta_views(out@) =~= before + g2(pv[i as int]));
        }
        i = i + 1;
    }
    proof { assert(pv.take(pv.len() as int) =~= pv); }
    let ghost after2 = delta_views(out@);

    let mut i: usize = 0;
    assert(cv.take(0).flat_map(g3) =~= Seq::<DeltaView>::empty());
    while i < curr_models.len()
        invariant
            f == *numbers_equal,
            pa == alias_views(prev_aliases@),
            ca == alias_views(curr_aliases@),
            is_number_comparison(f),
            pv == model_views(prev_models@),
            cv == model_views(curr_models@),
            models_wf(pv),
            models_wf(cv),
            g3 == (|c: ModelView| model_delta_by_name(f, pa, ca, pv, c)),
            i <= curr_models@.len(),
            delta_views(out@) == after2 + cv.take(i as int).flat_map(g3),
        decreases curr_models@.len() - i,
    {
        let c = &curr_models[i];
        let ghost before = delta_views(out@);
        proof { assert(cv[i as int] == c@); assert(fields_wf(cv[i as int].fields)); }
        if c.entity_id.is_none() {
            match find_model_named(prev_models, c.name.as_str()) {
                Some(j) => {
                    proof { assert(pv[j as int] == prev_models@[j as int]@); assert(fields_wf(pv[j as int].fields)); }
                    let inner = compute_model_inner(numbers_equal, prev_aliases, curr_aliases, c.name.as_str(), &prev_models[j], c);
                    append_deltas(&mut out, inner);
                },
                None => {
                    push_delta(&mut out, Delta::ModelAdded { name: c.name.clone(), after: c.copy() });
                },
            }
        }
        proof {
            cv.lemma_flat_map_take_append(g3, i as int);
            assert(delta_views(out@) =~= before + g3(cv[i as int]));
        }
        i = i + 1;
    }
    proof { assert(cv.take(cv.len() as int) =~= cv); }
    let ghost after3 = delta_views(out@);

    let mut i: usize = 0;
    assert(pv.take(0).flat_map(g4) =~= Seq::<DeltaView>::empty());
    while i < prev_models.len()
        invariant
            pv == model_views(prev_models@),
            cv == model_views(curr_models@),
            g4 == (|p: ModelView| model_removed_by_name(cv, p)),
            i <= prev_models@.len(),
            delta_views(out@) == after3 + pv.take(i as int).flat_map(g4),
        decreases prev_models@.len() - i,
    {
        let p = &prev_models[i];
        let ghost before = delta_views(out@);
        if p.entity_id.is_none() && find_model_named(curr_models, p.name.as_str()).is_none() {
            push_delta(&mut out, Delta::ModelRemoved { name: p.name.clone(), before: p.copy() });
        }
        proof {
            assert(pv[i as int] == p@);
            pv.lemma_flat_map_take_append(g4, i as int);
            assert(delta_views(out@) =~= before + g4(pv[i as int]));
        }
        i = i + 1;
    }
    proof { assert(pv.take(pv.len() as int) =~= pv); }
    out
}

// ---------------------------------------------------------------------------
// Type alias deltas
// ---------------------------------------------------------------------------

/// The first type alias of the list that has the given ID.
pub open spec fn alias_by_id(xs: Seq<TypeAliasView>, id: EntityId) -> Option<TypeAliasView> {
    if exists|i: int| 0 <= i < xs.len() && xs[i].entity_id == Some(id) {
        Some(xs[choose|i: int| 0 <= i < xs.len() && xs[i].entity_id == Some(id)
            && forall|k: int| 0 <= k < i ==> xs[k].entity_id != Some(id)])
    } else {
        None
    }
}

/// Whether a type alias of the list has the given name.
pub open spec fn has_alias_named(xs: Seq<TypeAliasView>, name: Seq<char>) -> bool {
    exists|i: int| 0 <= i < xs.len() && xs[i].name == name
}

/// Phase one, for a current type alias with an ID: renamed, retyped, or added.
pub open spec fn alias_delta_by_id(prev: Seq<TypeAliasView>, c: TypeAliasView) -> Seq<DeltaView> {
    match c.entity_id {
        Some(id) => match alias_by_id(prev, id) {
            Some(p) => if p.name != c.name {
                seq![DeltaView::TypeAliasRenamed { old_name: p.name, new_name: c.name, id: c.entity_id, before: p, after: c }]
            } else if !types_eq(p.alias_type, c.alias_type) {
                seq![DeltaView::TypeAliasTypeChanged { name: c.name, before: p.alias_type, after: c.alias_type }]
            } else {
                seq![]
            },
            None => seq![DeltaView::TypeAliasAdded { name: c.name, after: c }],
        },
        None => seq![],
    }
}

/// Phase two, for a previous type alias with an ID: removed when no current one has it.
pub open spec fn alias_removed_by_id(curr: Seq<TypeAliasView>, p: TypeAliasView) -> Seq<DeltaView> {
    match p.entity_id {
        Some(id) => if alias_by_id(curr, id) is None {
            seq![DeltaView::TypeAliasRemoved { name: p.name, before: p }]
        } else {
            seq![]
        },
        None => seq![],
    }
}

/// Phase three, for a current type alias without an ID: added when no previous type
/// alias has its name (a kept name records no change).
pub open spec fn alias_added_by_name(prev: Seq<TypeAliasView>, c: TypeAliasView) -> Seq<DeltaView> {
    if c.entity_id is None && !has_alias_named(prev, c.name) {
        seq![DeltaView::TypeAliasAdded { name: c.name, after: c }]
    } else {
        seq![]
    }
}

/// Phase four, for a previous type alias without an ID: removed when no current one has its name.
pub open spec fn alias_removed_by_name(curr: Seq<TypeAliasView>, p: TypeAliasView) -> Seq<DeltaView> {
    if p.entity_id is None && !has_alias_named(curr, p.name) {
        seq![DeltaView::TypeAliasRemoved { name: p.name, before: p }]
    } else {
        seq![]
    }
}

/// The type alias deltas, phase by phase.
pub open spec fn spec_type_alias_deltas(prev: Seq<TypeAliasView>, curr: Seq<TypeAliasView>) -> Seq<DeltaView> {
    curr.flat_map(|c: TypeAliasView| alias_delta_by_id(prev, c))
        + prev.flat_map(|p: TypeAliasView| alias_removed_by_id(curr, p))
        + curr.flat_map(|c: TypeAliasView| alias_added_by_name(prev, c))
        + prev.flat_map(|p: TypeAliasView| alias_removed_by_name(curr, p))
}

/// Type aliases of one schema as the delta computation needs them: names differ, and
/// IDs (where present) differ.
pub open spec fn aliases_wf(xs: Seq<TypeAliasView>) -> bool {
    &&& forall|i: int, j: int| 0 <= i < j < xs.len() ==> xs[i].name != xs[j].name
    &&& forall|i: int, j: int| 0 <= i < j < xs.len() && xs[i].entity_id is Some ==> xs[i].entity_id != xs[j].entity_id
}

fn find_alias_by_id(xs: &Vec<TypeAliasDefinition>, id: EntityId) -> (r: Option<usize>)
    ensures
        match r {
            Some(i) => i < xs@.len() && alias_by_id(alias_views(xs@), id) == Some(xs@[i as int]@),
            None => alias_by_id(alias_views(xs@), id) is None,
        },
{
    let ghost av = alias_views(xs@);
    let mut i: usize = 0;
    while i < xs.len()
        invariant
            av == alias_views(xs@),
            i <= xs@.len(),
            forall|k: int| 0 <= k < i ==> av[k].entity_id != Some(id),
        decreases xs@.len() - i,
    {
        match xs[i].entity_id {
            Some(e) => {
                if e == id {
                    proof {
                        assert(av[i as int].entity_id == Some(id));
                        let c = choose|c: int| 0 <= c < av.len() && av[c].entity_id == Some(id)
                            && forall|k: int| 0 <= k < c ==> av[k].entity_id != Some(id);
                        if c > i {
                            assert(av[i as int].entity_id != Some(id));
                        }
                        assert(c == i);
                    }
                    return Some(i);
                }
            },
            None => {},
        }
        proof { assert(av[i as int].entity_id == xs@[i as int].entity_id); }
        i = i + 1;
    }
    None
}

fn contains_alias_named(xs: &Vec<TypeAliasDefinition>, name: &str) -> (r: bool)
    ensures
        r == has_alias_named(alias_views(xs@), name@),
{
    let ghost av = alias_views(xs@);
    let mut i: usize = 0;
    while i < xs.len()
        invariant
            av == alias_views(xs@),
            i <= xs@.len(),
            forall|k: int| 0 <= k < i ==> av[k].name != name@,
        decreases xs@.len() - i,
    {
        if str_eq(xs[i].name.as_str(), name) {
            proof { assert(av[i as int].name == name@); }
            return true;
        }
        i = i + 1;
    }
    false
}

/// The type alias deltas between two schemas (see `spec_type_alias_deltas`).
pub fn compute_type_alias_deltas(prev_aliases: &Vec<TypeAliasDefinition>, curr_aliases: &Vec<TypeAliasDefinition>) -> (r: Vec<Delta>)
    requires
        aliases_wf(alias_views(prev_aliases@)),
        aliases_wf(alias_views(curr_aliases@)),
    ensures
        delta_views(r@) == spec_type_alias_deltas(alias_views(prev_aliases@), alias_views(curr_aliases@)),
{
    let ghost pv = alias_views(prev_aliases@);
    let ghost cv = alias_views(curr_aliases@);
    let ghost g1 = |c: TypeAliasView| alias_delta_by_id(pv, c);
    let ghost g2 = |p: TypeAliasView| alias_removed_by_id(cv, p);
    let ghost g3 = |c: TypeAliasView| alias_added_by_name(pv, c);
    let ghost g4 = |p: TypeAliasView| alias_removed_by_name(cv, p);
    let mut out: Vec<Delta> = Vec::new();

    let mut i: usize = 0;
    assert(cv.take(0).flat_map(g1) =~= Seq::<DeltaView>::empty());
    while i < curr_aliases.len()
        invariant
            pv == alias_views(prev_aliases@),
            cv == alias_views(curr_aliases@),
            g1 == (|c: TypeAliasView| alias_delta_by_id(pv, c)),
            i <= curr_aliases@.len(),
            delta_views(out@) == cv.take(i as int).flat_map(g1),
        decreases curr_aliases@.len() - i,
    {
        let c = &curr_aliases[i];
        let ghost before = delta_views(out@);
        match c.entity_id {
            Some(id) => {
                match find_alias_by_id(prev_aliases, id) {
                    Some(j) => {
                        let p = &prev_aliases[j];
                        if !str_eq(p.name.as_str(), c.name.as_str()) {
                            push_delta(&mut out, Delta::TypeAliasRenamed {
                                old_name: p.name.clone(),
                                new_name: c.name.clone(),
                                id: c.entity_id,
                                before: p.copy(),
                                after: c.copy(),
                            });
                        } else if !types_equal(&p.alias_type, &c.alias_type) {
                            push_delta(&mut out, Delta::TypeAliasTypeChanged {
                                name: c.name.clone(),
                                before: p.alias_type.copy(),
                                after: c.alias_type.copy(),
                            });
                        }
                    },
                    None => {
                        push_delta(&mut out, Delta::TypeAliasAdded { name: c.name.clone(), after: c.copy() });
                    },
                }
            },
            None => {},
        }
        proof {
            assert(cv[i as int] == c@);
            cv.lemma_flat_map_take_append(g1, i as int);
            assert(delta_views(out@) =~= before + g1(cv[i as int]));
        }
        i = i + 1;
    }
    proof { assert(cv.take(cv.len() as int) =~= cv); }
    let ghost after1 = delta_views(out@);

    let mut i: usize = 0;
    assert(pv.take(0).flat_map(g2) =~= Seq::<DeltaView>::empty());
    while i < prev_aliases.len()
        invariant
            pv == alias_views(prev_aliases@),
            cv == alias_views(curr_aliases@),
            g2 == (|p: TypeAliasView| alias_removed_by_id(cv, p)),
            i <= prev_aliases@.len(),
            delta_views(out@) == after1 + pv.take(i as int).flat_map(g2),
        decreases prev_aliases@.len() - i,
    {
        let p = &prev_aliases[i];
        let ghost before = delta_views(out@);
        match p.entity_id {
            Some(id) => {
                if find_alias_by_id(curr_aliases, id).is_none() {
                    push_delta(&mut out, Delta::TypeAliasRemoved { name: p.name.clone(), before: p.copy() });
                }
            },
            None => {},
        }
        proof {
            assert(pv[i as int] == p@);
            pv.lemma_flat_map_take_append(g2, i as int);
            assert(delta_views(out@) =~= before + g2(pv[i as int]));
        }
        i = i + 1;
    }
    proof { assert(pv.take(pv.len() as int) =~= pv); }
    let ghost after2 = delta_views(out@);

    let mut i: usize = 0;
    assert(cv.take(0).flat_map(g3) =~= Seq::<DeltaView>::empty());
    while i < curr_aliases.len()
        invariant
            pv == alias_views(prev_aliases@),
            cv == alias_views(curr_aliases@),
            g3 == (|c: TypeAliasView| alias_added_by_name(pv, c)),
            i <= curr_aliases@.len(),
            delta_views(out@) == after2 + cv.take(i as int).flat_map(g3),
        decreases curr_aliases@.len() - i,
    {
        let c = &curr_aliases[i];
        let ghost before = delta_views(out@);
        if c.entity_id.is_none() && !contains_alias_named(prev_aliases, c.name.as_str()) {
            push_delta(&mut out, Delta::TypeAliasAdded { name: c.name.clone(), after: c.copy() });
        }
        proof {
            assert(cv[i as int] == c@);
            cv.lemma_flat_map_take_append(g3, i as int);
            assert(delta_views(out@) =~= before + g3(cv[i as int]));
        }
        i = i + 1;
    }
    proof { assert(cv.take(cv.len() as int) =~= cv); }
    let ghost after3 = delta_views(out@);

    let mut i: usize = 0;
    assert(pv.take(0).flat_map(g4) =~= Seq::<DeltaView>::empty());
    while i < prev_aliases.len()
        invariant
            pv == alias_views(prev_aliases@),
            cv == alias_views(curr_aliases@),
            g4 == (|p: TypeAliasView| alias_removed_by_name(cv, p)),
            i <= prev_aliases@.len(),
            delta_views(out@) == after3 + pv.take(i as int).flat_map(g4),
        decreases prev_aliases@.len() - i,
    {
        let p = &prev_aliases[i];
        let ghost before = delta_views(out@);
        if p.entity_id.is_none() && !contains_alias_named(curr_aliases, p.name.as_str()) {
            push_delta(&mut out, Delta::TypeAliasRemoved { name: p.name.clone(), before: p.copy() });
        }
        proof {
            assert(pv[i as int] == p@);
            pv.lemma_flat_map_take_append(g4, i as int);
            assert(delta_views(out@) =~= before + g4(pv[i as int]));
        }
        i = i + 1;
    }
    proof { assert(pv.take(pv.len() as int) =~= pv); }
    out
}

/// A schema as the delta computation needs it (see `aliases_wf` and `models_wf`).
pub open spec fn schema_wf(s: Schema) -> bool {
    aliases_wf(alias_views(s.type_aliases@)) && models_wf(model_views(s.models@))
}

/// All deltas between two schemas: type alias deltas first, then model deltas (which
/// hold the field and inheritance deltas of each model).
pub open spec fn spec_deltas<F: Fn(u64, u64) -> bool>(numbers_equal: F, previous: Schema, current: Schema) -> Seq<DeltaView> {
    let pa = alias_views(previous.type_aliases@);
    let ca = alias_views(current.type_aliases@);
    spec_type_alias_deltas(alias_views(previous.type_aliases@), alias_views(current.type_aliases@))
        + spec_model_deltas(numbers_equal, pa, ca, model_views(previous.models@), model_views(current.models@))
}

/// Whether two optional entity IDs clash: the first is present and equal to the second.
fn ids_clash(a: Option<EntityId>, b: Option<EntityId>) -> (r: bool)
    ensures
        r == (a is Some && a == b),
{
    match (a, b) {
        (Some(x), Some(y)) => x == y,
        _ => false,
    }
}

/// Decides whether a model's fields are well formed (see `fields_wf`): no two fields
/// share a name, and no two share an entity ID.
pub fn check_fields_wf(fs: &Vec<FieldDefinition>) -> (r: bool)
    ensures
        r == fields_wf(field_views(fs@)),
{
    let ghost fv = field_views(fs@);
    let mut i: usize = 0;
    while i < fs.len()
        invariant
            fv == field_views(fs@),
            fv.len() == fs@.len(),
            i <= fs@.len(),
            forall|a: int, b: int| 0 <= a < b < fv.len() && a < i ==> fv[a].name != fv[b].name,
            forall|a: int, b: int| 0 <= a < b < fv.len() && a < i && fv[a].entity_id is Some ==> fv[a].entity_id != fv[b].entity_id,
        decreases fs@.len() - i,
    {
        let mut j: usize = i + 1;
        while j < fs.len()
            invariant
                fv == field_views(fs@),
                fv.len() == fs@.len(),
                i < fs@.len(),
                i + 1 <= j <= fs@.len(),
                forall|a: int, b: int| 0 <= a < b < fv.len() && a < i ==> fv[a].name != fv[b].name,
                forall|a: int, b: int| 0 <= a < b < fv.len() && a < i && fv[a].entity_id is Some ==> fv[a].entity_id != fv[b].entity_id,
                forall|b: int| i < b < j ==> fv[i as int].name != fv[b].name,
                forall|b: int| i < b < j && fv[i as int].entity_id is Some ==> fv[i as int].entity_id != fv[b].entity_id,
            decreases fs@.len() - j,
        {
            proof { assert(fv[i as int] == fs@[i as int]@ && fv[j as int] == fs@[j as int]@); }
            if str_eq(fs[i].name.as_str(), fs[j].name.as_str()) {
                proof { assert(fv[i as int].name == fv[j as int].name); }
                return false;
            }
            if ids_clash(fs[i].entity_id, fs[j].entity_id) {
                return false;
            }
            j = j + 1;
        }
        i = i + 1;
    }
    true
}

/// Decides whether a schema's models are well formed (see `models_wf`).
pub fn check_models_wf(ms: &Vec<ModelDefinition>) -> (r: bool)
    ensures
        r == models_wf(model_views(ms@)),
{
    let ghost mv = model_views(ms@);
    let mut i: usize = 0;
    while i < ms.len()
        invariant
            mv == model_views(ms@),
            mv.len() == ms@.len(),
            i <= ms@.len(),
            forall|a: int, b: int| 0 <= a < b < mv.len() && a < i ==> mv[a].name != mv[b].name,
            forall|a: int, b: int| 0 <= a < b < mv.len() && a < i && mv[a].entity_id is Some ==> mv[a].entity_id != mv[b].entity_id,
            forall|a: int| 0 <= a < i ==> fields_wf(#[trigger] mv[a].fields),
        decreases ms@.len() - i,
    {
        proof { assert(mv[i as int] == ms@[i as int]@); }
        if !check_fields_wf(&ms[i].fields) {
            proof {
                assert(mv[i as int].fields == field_views(ms@[i as int].fields@));
                assert(!fields_wf(mv[i as int].fields));
            }
            return false;
        }
        let mut j: usize = i + 1;
        while j < ms.len()
            invariant
                mv == model_views(ms@),
                mv.len() == ms@.len(),
                i < ms@.len(),
                i + 1 <= j <= ms@.len(),
                forall|a: int, b: int| 0 <= a < b < mv.len() && a < i ==> mv[a].name != mv[b].name,
                forall|a: int, b: int| 0 <= a < b < mv.len() && a < i && mv[a].entity_id is Some ==> mv[a].entity_id != mv[b].entity_id,
                forall|b: int| i < b < j ==> mv[i as int].name != mv[b].name,
                forall|b: int| i < b < j && mv[i as int].entity_id is Some ==> mv[i as int].entity_id != mv[b].entity_id,
            decreases ms@.len() - j,
        {
            proof { assert(mv[i as int] == ms@[i as int]@ && mv[j as int] == ms@[j as int]@); }
            if str_eq(ms[i].name.as_str(), ms[j].name.as_str()) {
                return false;
            }
            if ids_clash(ms[i].entity_id, ms[j].entity_id) {
                return false;
            }
            j = j + 1;
        }
        i = i + 1;
    }
    true
}

/// Decides whether a schema's type aliases are well formed (see `aliases_wf`).
pub fn check_aliases_wf(xs: &Vec<TypeAliasDefinition>) -> (r: bool)
    ensures
        r == aliases_wf(alias_views(xs@)),
{
    let ghost av = alias_views(xs@);
    let mut i: usize = 0;
    while i < xs.len()
        invariant
            av == alias_views(xs@),
            av.len() == xs@.len(),
            i <= xs@.len(),
            forall|a: int, b: int| 0 <= a < b < av.len() && a < i ==> av[a].name != av[b].name,
            forall|a: int, b: int| 0 <= a < b < av.len() && a < i && av[a].entity_id is Some ==> av[a].entity_id != av[b].entity_id,
        decreases xs@.len() - i,
    {
        let mut j: usize = i + 1;
        while j < xs.len()
            invariant
                av == alias_views(xs@),
                av.len() == xs@.len(),
                i < xs@.len(),
                i + 1 <= j <= xs@.len(),
                forall|a: int, b: int| 0 <= a < b < av.len() && a < i ==> av[a].name != av[b].name,
                forall|a: int, b: int| 0 <= a < b < av.len() && a < i && av[a].entity_id is Some ==> av[a].entity_id != av[b].entity_id,
                forall|b: int| i < b < j ==> av[i as int].name != av[b].name,
                forall|b: int| i < b < j && av[i as int].entity_id is Some ==> av[i as int].entity_id != av[b].entity_id,
            decreases xs@.len() - j,
        {
            proof { assert(av[i as int] == xs@[i as int]@ && av[j as int] == xs@[j as int]@); }
            if str_eq(xs[i].name.as_str(), xs[j].name.as_str()) {
                return false;
            }
            if ids_clash(xs[i].entity_id, xs[j].entity_id) {
                return false;
            }
            j = j + 1;
        }
        i = i + 1;
    }
    true
}

/// Decides whether a schema is well formed (see `schema_wf`): the check to make
/// before `compute_deltas`.
pub fn schema_is_wf(s: &Schema) -> (r: bool)
    ensures
        r == schema_wf(*s),
{
    check_aliases_wf(&s.type_aliases) && check_models_wf(&s.models)
}

/// Compute the deltas between a previous and a current schema. Numbers in default
/// values are compared by `numbers_equal`.
pub fn compute_deltas<F: Fn(u64, u64) -> bool>(numbers_equal: &F, previous: &Schema, current: &Schema) -> (r: Vec<Delta>)
    requires
        is_number_comparison(*numbers_equal),
        schema_wf(*previous),
        schema_wf(*current),
    ensures
        delta_views(r@) == spec_deltas(*numbers_equal, *previous, *current),
{
    let mut deltas = compute_type_alias_deltas(&previous.type_aliases, &current.type_aliases);
    let models = compute_model_deltas(numbers_equal, &previous.type_aliases, &current.type_aliases, &previous.models, &current.models);
    append_deltas(&mut deltas, models);
    deltas
}

// ---------------------------------------------------------------------------
// Per-plugin configurations
// ---------------------------------------------------------------------------

/// The configuration of one plugin inside a configuration keyed by plugin name: the
/// object stored under the plugin's name, or `{}` when there is none.
pub open spec fn unwrapped(config: JsonView, plugin_name: Seq<char>) -> JsonView {
    match json_get(config, plugin_name) {
        Some(v) => if v is Object { v } else { JsonView::Object(Seq::empty()) },
        None => JsonView::Object(Seq::empty()),
    }
}

/// Unwraps a configuration that may be wrapped in plugin names:
/// `{"sql": {"table_name": "..."}}` becomes `{"table_name": "..."}` for the plugin "sql".
pub fn unwrap_config(config: &JsonValue, plugin_name: &str) -> (r: JsonValue)
    ensures
        r@ == unwrapped(config@, plugin_name@),
{
    match config.get(plugin_name) {
        Some(plugin_config) => {
            if plugin_config.is_object() {
                return plugin_config.deep_copy();
            }
        },
        None => {},
    }
    JsonValue::empty_object()
}

/// A field with its configuration unwrapped for one plugin.
pub open spec fn transformed_field(f: FieldView, plugin_name: Seq<char>) -> FieldView {
    FieldView { config: unwrapped(f.config, plugin_name), ..f }
}

/// A model with its own and its fields' configurations unwrapped for one plugin.
pub open spec fn transformed_model(m: ModelView, plugin_name: Seq<char>) -> ModelView {
    ModelView {
        fields: m.fields.map_values(|f: FieldView| transformed_field(f, plugin_name)),
        config: unwrapped(m.config, plugin_name),
        ..m
    }
}

/// A type alias with its configuration unwrapped for one plugin.
pub open spec fn transformed_alias(a: TypeAliasView, plugin_name: Seq<char>) -> TypeAliasView {
    TypeAliasView { config: unwrapped(a.config, plugin_name), ..a }
}

/// A delta with every configuration it carries unwrapped for one plugin; deltas that
/// carry no configuration stay as they are.
pub open spec fn transformed_delta(d: DeltaView, plugin_name: Seq<char>) -> DeltaView {
    match d {
        DeltaView::ModelAdded { name, after } => DeltaView::ModelAdded { name, after: transformed_model(after, plugin_name) },
        DeltaView::ModelRemoved { name, before } => DeltaView::ModelRemoved { name, before: transformed_model(before, plugin_name) },
        DeltaView::ModelRenamed { old_name, new_name, id, before, after } => DeltaView::ModelRenamed {
            old_name, new_name, id, before: transformed_model(before, plugin_name), after: transformed_model(after, plugin_name),
        },
        DeltaView::FieldAdded { model, field, after } => DeltaView::FieldAdded { model, field, after: transformed_field(after, plugin_name) },
        DeltaView::FieldRemoved { model, field, before } => DeltaView::FieldRemoved { model, field, before: transformed_field(before, plugin_name) },
        DeltaView::FieldRenamed { model, old_name, new_name, id, before, after } => DeltaView::FieldRenamed {
            model, old_name, new_name, id, before: transformed_field(before, plugin_name), after: transformed_field(after, plugin_name),
        },
        DeltaView::ModelConfigChanged { model, before, after } => DeltaView::ModelConfigChanged {
            model, before: unwrapped(before, plugin_name), after: unwrapped(after, plugin_name),
        },
        DeltaView::FieldConfigChanged { model, field, before, after } => DeltaView::FieldConfigChanged {
            model, field, before: unwrapped(before, plugin_name), after: unwrapped(after, plugin_name),
        },
        DeltaView::TypeAliasAdded { name, after } => DeltaView::TypeAliasAdded { name, after: transformed_alias(after, plugin_name) },
        DeltaView::TypeAliasRemoved { name, before } => DeltaView::TypeAliasRemoved { name, before: transformed_alias(before, plugin_name) },
        DeltaView::TypeAliasRenamed { old_name, new_name, id, before, after } => DeltaView::TypeAliasRenamed {
            old_name, new_name, id, before: transformed_alias(before, plugin_name), after: transformed_alias(after, plugin_name),
        },
        other => other,
    }
}

/// A field with its configuration unwrapped for one plugin.
pub fn transform_field_definition(field: &FieldDefinition, plugin_name: &str) -> (r: FieldDefinition)
    ensures
        r@ == transformed_field(field@, plugin_name@),
{
    FieldDefinition {
        name: field.name.clone(),
        field_type: field.field_type.copy(),
        optional: field.optional,
        default: copy_opt_value(&field.default),
        config: unwrap_config(&field.config, plugin_name),
        entity_id: field.entity_id,
    }
}

/// A model with its own and its fields' configurations unwrapped for one plugin.
pub fn transform_model_definition(model: &ModelDefinition, plugin_name: &str) -> (r: ModelDefinition)
    ensures
        r@ == transformed_model(model@, plugin_name@),
{
    let mut fields: Vec<FieldDefinition> = Vec::new();
    let mut i: usize = 0;
    while i < model.fields.len()
        invariant
            i <= model.fields@.len(),
            fields@.len() == i,
            forall|j: int| 0 <= j < i ==> (#[trigger] fields@[j])@ == transformed_field(model.fields@[j]@, plugin_name@),
        decreases model.fields@.len() - i,
    {
        fields.push(transform_field_definition(&model.fields[i], plugin_name));
        i = i + 1;
    }
    let r = ModelDefinition {
        name: model.name.clone(),
        parents: copy_strings(&model.parents),
        fields,
        config: unwrap_config(&model.config, plugin_name),
        entity_id: model.entity_id,
    };
    assert(r@.fields =~= model@.fields.map_values(|f: FieldView| transformed_field(f, plugin_name@)));
    r
}

/// A type alias with its configuration unwrapped for one plugin.
pub fn transform_type_alias_definition(alias: &TypeAliasDefinition, plugin_name: &str) -> (r: TypeAliasDefinition)
    ensures
        r@ == transformed_alias(alias@, plugin_name@),
{
    TypeAliasDefinition {
        name: alias.name.clone(),
        alias_type: alias.alias_type.copy(),
        config: unwrap_config(&alias.config, plugin_name),
        entity_id: alias.entity_id,
    }
}

/// One delta with its configurations unwrapped for one plugin.
#[verifier::spinoff_prover]
#[verifier::rlimit(80)]
fn transform_delta(delta: &Delta, plugin_name: &str) -> (r: Delta)
    ensures
        r@ == transformed_delta(delta@, plugin_name@),
{
    match delta {
        Delta::ModelAdded { name, after } => Delta::ModelAdded { name: name.clone(), after: transform_model_definition(after, plugin_name) },
        Delta::ModelRemoved { name, before } => Delta::ModelRemoved { name: name.clone(), before: transform_model_definition(before, plugin_name) },
        Delta::ModelRenamed { old_name, new_name, id, before, after } => Delta::ModelRenamed {
            old_name: old_name.clone(),
            new_name: new_name.clone(),
            id: *id,
            before: transform_model_definition(before, plugin_name),
            after: transform_model_definition(after, plugin_name),
        },
        Delta::FieldAdded { model, field, after } => Delta::FieldAdded {
            model: model.clone(),
            field: field.clone(),
            after: transform_field_definition(after, plugin_name),
        },
        Delta::FieldRemoved { model, field, before } => Delta::FieldRemoved {
            model: model.clone(),
            field: field.clone(),
            before: transform_field_definition(before, plugin_name),
        },
        Delta::FieldRenamed { model, old_name, new_name, id, before, after } => Delta::FieldRenamed {
            model: model.clone(),
            old_name: old_name.clone(),
            new_name: new_name.clone(),
            id: *id,
            before: transform_field_definition(before, plugin_name),
            after: transform_field_definition(after, plugin_name),
        },
        Delta::ModelConfigChanged { model, before, after } => Delta::ModelConfigChanged {
            model: model.clone(),
            before: unwrap_config(before, plugin_name),
            after: unwrap_config(after, plugin_name),
        },
        Delta::FieldConfigChanged { model, field, before, after } => Delta::FieldConfigChanged {
            model: model.clone(),
            field: field.clone(),
            before: unwrap_config(before, plugin_name),
            after: unwrap_config(after, plugin_name),
        },
        Delta::TypeAliasAdded { name, after } => Delta::TypeAliasAdded {
            name: name.clone(),
            after: transform_type_alias_definition(after, plugin_name),
        },
        Delta::TypeAliasRemoved { name, before } => Delta::TypeAliasRemoved {
            name: name.clone(),
            before: transform_type_alias_definition(before, plugin_name),
        },
        Delta::TypeAliasRenamed { old_name, new_name, id, before, after } => Delta::TypeAliasRenamed {
            old_name: old_name.clone(),
            new_name: new_name.clone(),
            id: *id,
            before: transform_type_alias_definition(before, plugin_name),
            after: transform_type_alias_definition(after, plugin_name),
        },
        Delta::TypeAliasTypeChanged { name, before, after } => Delta::TypeAliasTypeChanged {
            name: name.clone(),
            before: before.copy(),
            after: after.copy(),
        },
        Delta::FieldTypeChanged { model, field, before, after } => Delta::FieldTypeChanged {
            model: model.clone(),
            field: field.clone(),
            before: before.copy(),
            after: after.copy(),
        },
        Delta::FieldOptionalityChanged { model, field, before, after } => Delta::FieldOptionalityChanged {
            model: model.clone(),
            field: field.clone(),
            before: *before,
            after: *after,
        },
        Delta::FieldDefaultChanged { model, field, before, after } => Delta::FieldDefaultChanged {
            model: model.clone(),
            field: field.clone(),
            before: copy_opt_value(before),
            after: copy_opt_value(after),
        },
        Delta::InheritanceAdded { model, parent } => Delta::InheritanceAdded { model: model.clone(), parent: parent.clone() },
        Delta::InheritanceRemoved { model, parent } => Delta::InheritanceRemoved { model: model.clone(), parent: parent.clone() },
    }
}

/// The deltas as one plugin should see them: each configuration they carry is unwrapped
/// for that plugin (deltas are computed over configurations keyed by plugin name).
pub fn transform_deltas_for_plugin(deltas: &Vec<Delta>, plugin_name: &str) -> (r: Vec<Delta>)
    ensures
        delta_views(r@) == delta_views(deltas@).map_values(|d: DeltaView| transformed_delta(d, plugin_name@)),
{
    let mut out: Vec<Delta> = Vec::new();
    let mut i: usize = 0;
    while i < deltas.len()
        invariant
            i <= deltas@.len(),
            out@.len() == i,
            forall|j: int| 0 <= j < i ==> (#[trigger] out@[j])@ == transformed_delta(deltas@[j]@, plugin_name@),
        decreases deltas@.len() - i,
    {
        out.push(transform_delta(&deltas[i], plugin_name));
        i = i + 1;
    }
    assert(delta_views(out@) =~= delta_views(deltas@).map_values(|d: DeltaView| transformed_delta(d, plugin_name@)));
    out
}

} // verus!
