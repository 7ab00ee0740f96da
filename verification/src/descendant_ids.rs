use vstd::prelude::*;

use crate::format::{child_registrations, field_regs, global_regs, member_registrations, tree_registrations, Registration};
use crate::paths::str_eq;
use crate::syntax::{extract_entity_id, field_child, SyntaxNode};

verus! {

/// The field IDs one model uses in the descendant files.
#[derive(Debug)]
pub struct ModelFieldIds {
    pub model: String,
    pub ids: Vec<u64>,
}

/// IDs collected from the files that extend a given file.
#[derive(Debug)]
pub struct DescendantIds {
    /// Global IDs (models and type aliases) used by descendants.
    pub global_ids: Vec<u64>,
    /// Per-model field IDs used by descendants, one entry per model.
    pub model_field_ids: Vec<ModelFieldIds>,
}

impl DescendantIds {
    /// The global IDs in use.
    pub open spec fn global_set(&self) -> Set<u64> {
        self.global_ids@.to_set()
    }

    /// Whether the model has an entry.
    pub open spec fn has_model(&self, model: Seq<char>) -> bool {
        exists|i: int| 0 <= i < self.model_field_ids@.len() && #[trigger] self.model_field_ids@[i].model@ == model
    }

    /// The field IDs the model uses.
    pub open spec fn field_set(&self, model: Seq<char>) -> Set<u64> {
        Set::new(|id: u64| exists|i: int| 0 <= i < self.model_field_ids@.len()
            && #[trigger] self.model_field_ids@[i].model@ == model && self.model_field_ids@[i].ids@.contains(id))
    }

    /// Each model has at most one entry, and no ID is recorded twice (the IDs are sets).
    pub open spec fn wf(&self) -> bool {
        &&& forall|i: int, k: int| 0 <= i < k < self.model_field_ids@.len()
            ==> self.model_field_ids@[i].model@ != self.model_field_ids@[k].model@
        &&& self.global_ids@.no_duplicates()
        &&& forall|i: int| 0 <= i < self.model_field_ids@.len() ==> (#[trigger] self.model_field_ids@[i]).ids@.no_duplicates()
    }

    /// No IDs collected.
    pub fn new() -> (r: Self)
        ensures
            r.wf(),
            r.global_set() == Set::<u64>::empty(),
            forall|m: Seq<char>| !#[trigger] r.has_model(m),
            forall|m: Seq<char>| #[trigger] r.field_set(m) == Set::<u64>::empty(),
    {
        let r = DescendantIds { global_ids: Vec::new(), model_field_ids: Vec::new() };
        assert(r.global_set() =~= Set::<u64>::empty());
        assert forall|m: Seq<char>| #[trigger] r.field_set(m) == Set::<u64>::empty() by {
            assert(r.field_set(m) =~= Set::<u64>::empty());
        }
        r
    }

    /// Whether a descendant uses the global ID.
    pub fn has_global_id(&self, id: u64) -> (r: bool)
        ensures
            r == self.global_set().contains(id),
    {
        let mut i: usize = 0;
        while i < self.global_ids.len()
            invariant
                i <= self.global_ids@.len(),
                forall|k: int| 0 <= k < i ==> self.global_ids@[k] != id,
            decreases self.global_ids@.len() - i,
        {
            if self.global_ids[i] == id {
                proof { assert(self.global_ids@.contains(id)); }
                return true;
            }
            i = i + 1;
        }
        false
    }

    fn find_model(&self, model_name: &str) -> (r: Option<usize>)
        requires
            self.wf(),
        ensures
            match r {
                Some(i) => i < self.model_field_ids@.len() && self.model_field_ids@[i as int].model@ == model_name@
                    && self.field_set(model_name@) == self.model_field_ids@[i as int].ids@.to_set(),
                None => !self.has_model(model_name@) && self.field_set(model_name@) == Set::<u64>::empty(),
            },
    {
        let mut i: usize = 0;
        while i < self.model_field_ids.len()
            invariant
                self.wf(),
                i <= self.model_field_ids@.len(),
                forall|k: int| 0 <= k < i ==> self.model_field_ids@[k].model@ != model_name@,
            decreases self.model_field_ids@.len() - i,
        {
            if str_eq(self.model_field_ids[i].model.as_str(), model_name) {
                proof {
                    assert(self.field_set(model_name@) =~= self.model_field_ids@[i as int].ids@.to_set()) by {
                        assert forall|id: u64| self.field_set(model_name@).contains(id)
                            implies self.model_field_ids@[i as int].ids@.contains(id) by {
                            let k = choose|k: int| 0 <= k < self.model_field_ids@.len()
                                && #[trigger] self.model_field_ids@[k].model@ == model_name@
                                && self.model_field_ids@[k].ids@.contains(id);
                            assert(k == i as int);
                        }
                    }
                }
                return Some(i);
            }
            i = i + 1;
        }
        proof { assert(self.field_set(model_name@) =~= Set::<u64>::empty()); }
        None
    }

    /// Whether a descendant uses the field ID in the model.
    pub fn has_field_id(&self, model_name: &str, id: u64) -> (r: bool)
        requires
            self.wf(),
        ensures
            r == self.field_set(model_name@).contains(id),
    {
        match self.find_model(model_name) {
            Some(i) => {
                let ids = &self.model_field_ids[i].ids;
                let mut j: usize = 0;
                while j < ids.len()
                    invariant
                        self.field_set(model_name@) == ids@.to_set(),
                        j <= ids@.len(),
                        forall|k: int| 0 <= k < j ==> ids@[k] != id,
                    decreases ids@.len() - j,
                {
                    if ids[j] == id {
                        proof { assert(ids@.contains(id)); }
                        return true;
                    }
                    j = j + 1;
                }
                false
            },
            None => false,
        }
    }

    /// All global IDs used by descendants.
    pub fn global_ids(&self) -> (r: &Vec<u64>)
        ensures
            r@.to_set() == self.global_set(),
    {
        &self.global_ids
    }

    /// The field IDs used by descendants in the model, if it has any.
    pub fn field_ids_for_model(&self, model_name: &str) -> (r: Option<&Vec<u64>>)
        requires
            self.wf(),
        ensures
            match r {
                Some(v) => self.has_model(model_name@) && v@.to_set() == self.field_set(model_name@),
                None => !self.has_model(model_name@),
            },
    {
        match self.find_model(model_name) {
            Some(i) => Some(&self.model_field_ids[i].ids),
            None => None,
        }
    }

    /// Records a global ID.
    fn add_global(&mut self, id: u64)
        requires
            old(self).wf(),
        ensures
            final(self).wf(),
            final(self).global_set() == old(self).global_set().insert(id),
            final(self).model_field_ids == old(self).model_field_ids,
    {
        if self.has_global_id(id) {
            proof { assert(self.global_set().insert(id) =~= self.global_set()); }
            return;
        }
        let ghost before = self.global_ids@;
        self.global_ids.push(id);
        proof {
            before.lemma_push_to_set_commute(id);
            assert(self.global_ids@ == before.push(id));
            assert(!before.contains(id));
            assert(self.global_ids@.no_duplicates()) by {
                assert forall|a: int, b: int| 0 <= a < b < self.global_ids@.len() implies self.global_ids@[a] != self.global_ids@[b] by {
                    if b == before.len() {
                        assert(self.global_ids@[a] == before[a]);
                    }
                }
            }
        }
    }

    /// Records a field ID of a model, creating the model's entry if needed.
    fn add_field(&mut self, model_name: &str, id: u64)
        requires
            old(self).wf(),
        ensures
            final(self).wf(),
            final(self).global_ids == old(self).global_ids,
            final(self).field_set(model_name@) == old(self).field_set(model_name@).insert(id),
            final(self).has_model(model_name@),
            forall|m: Seq<char>| m != model_name@ ==> #[trigger] final(self).field_set(m) == old(self).field_set(m),
            forall|m: Seq<char>| m != model_name@ ==> (#[trigger] final(self).has_model(m) <==> old(self).has_model(m)),
    {
        if self.has_field_id(model_name, id) {
            proof {
                assert(self.field_set(model_name@).insert(id) =~= self.field_set(model_name@));
                let k = choose|k: int| 0 <= k < self.model_field_ids@.len()
                    && #[trigger] self.model_field_ids@[k].model@ == model_name@ && self.model_field_ids@[k].ids@.contains(id);
            }
            return;
        }
        let ghost before = *self;
        match self.find_model(model_name) {
            Some(i) => {
                let mut ids = self.model_field_ids[i].ids.clone();
                proof { assert(!ids@.contains(id)); }
                ids.push(id);
                let entry = ModelFieldIds { model: self.model_field_ids[i].model.clone(), ids };
                self.model_field_ids.set(i, entry);
                proof {
                    before.model_field_ids@[i as int].ids@.lemma_push_to_set_commute(id);
                    assert(self.model_field_ids@[i as int].ids@ == before.model_field_ids@[i as int].ids@.push(id));
                    assert(self.wf()) by {
                        assert forall|a: int, b: int| 0 <= a < b < self.model_field_ids@.len()
                            implies self.model_field_ids@[a].model@ != self.model_field_ids@[b].model@ by {
                            assert(self.model_field_ids@[a].model@ == before.model_field_ids@[a].model@);
                            assert(self.model_field_ids@[b].model@ == before.model_field_ids@[b].model@);
                        }
                    }
                    assert(self.has_model(model_name@)) by {
                        assert(self.model_field_ids@[i as int].model@ == model_name@);
                    }
                    assert forall|m: Seq<char>| #![trigger self.field_set(m)] #![trigger self.has_model(m)]
                        true implies (m == model_name@ ==> self.field_set(m) == before.field_set(m).insert(id))
                        && (m != model_name@ ==> self.field_set(m) == before.field_set(m) && (self.has_model(m) <==> before.has_model(m))) by {
                        assert(self.field_set(m) =~= if m == model_name@ { before.field_set(m).insert(id) } else { before.field_set(m) }) by {
                            assert forall|x: u64| self.field_set(m).contains(x) implies
                                (if m == model_name@ { before.field_set(m).insert(id) } else { before.field_set(m) }).contains(x) by {
                                let k = choose|k: int| 0 <= k < self.model_field_ids@.len()
                                    && #[trigger] self.model_field_ids@[k].model@ == m && self.model_field_ids@[k].ids@.contains(x);
                                if k != i as int {
                                    assert(self.model_field_ids@[k] == before.model_field_ids@[k]);
                                } else if x != id {
                                    let j = choose|j: int| 0 <= j < self.model_field_ids@[k].ids@.len() && self.model_field_ids@[k].ids@[j] == x;
                                    assert(before.model_field_ids@[k].ids@[j] == x);
                                }
                            }
                            assert forall|x: u64| (if m == model_name@ { before.field_set(m).insert(id) } else { before.field_set(m) }).contains(x)
                                implies self.field_set(m).contains(x) by {
                                if m == model_name@ && x == id {
                                    assert(self.model_field_ids@[i as int].ids@.contains(id));
                                } else {
                                    let k = choose|k: int| 0 <= k < before.model_field_ids@.len()
                                        && #[trigger] before.model_field_ids@[k].model@ == m && before.model_field_ids@[k].ids@.contains(x);
                                    if k != i as int {
                                        assert(self.model_field_ids@[k] == before.model_field_ids@[k]);
                                    } else {
                                        let j = choose|j: int| 0 <= j < before.model_field_ids@[k].ids@.len() && before.model_field_ids@[k].ids@[j] == x;
                                        assert(self.model_field_ids@[k].ids@[j] == x);
                                    }
                                }
                            }
                        }
                        if m != model_name@ {
                            if self.has_model(m) {
                                let k = choose|k: int| 0 <= k < self.model_field_ids@.len() && #[trigger] self.model_field_ids@[k].model@ == m;
                                assert(before.model_field_ids@[k].model@ == m);
                            }
                            if before.has_model(m) {
                                let k = choose|k: int| 0 <= k < before.model_field_ids@.len() && #[trigger] before.model_field_ids@[k].model@ == m;
                                assert(self.model_field_ids@[k].model@ == m);
                            }
                        }
                    }
                }
            },
            None => {
                let mut ids: Vec<u64> = Vec::new();
                ids.push(id);
                self.model_field_ids.push(ModelFieldIds { model: model_name.to_string(), ids });
                proof {
                    let n = before.model_field_ids@.len() as int;
                    assert(self.model_field_ids@[n].ids@ =~= seq![id]);
                    assert(self.wf()) by {
                        assert forall|a: int, b: int| 0 <= a < b < self.model_field_ids@.len()
                            implies self.model_field_ids@[a].model@ != self.model_field_ids@[b].model@ by {
                            assert(self.model_field_ids@[a] == before.model_field_ids@[a]);
                            if b < n {
                                assert(self.model_field_ids@[b] == before.model_field_ids@[b]);
                            }
                        }
                    }
                    assert(self.has_model(model_name@)) by {
                        assert(self.model_field_ids@[n].model@ == model_name@);
                    }
                    assert forall|m: Seq<char>| #![trigger self.field_set(m)] #![trigger self.has_model(m)]
                        true implies (m == model_name@ ==> self.field_set(m) == before.field_set(m).insert(id))
                        && (m != model_name@ ==> self.field_set(m) == before.field_set(m) && (self.has_model(m) <==> before.has_model(m))) by {
                        assert(self.field_set(m) =~= if m == model_name@ { before.field_set(m).insert(id) } else { before.field_set(m) }) by {
                            assert forall|x: u64| self.field_set(m).contains(x) implies
                                (if m == model_name@ { before.field_set(m).insert(id) } else { before.field_set(m) }).contains(x) by {
                                let k = choose|k: int| 0 <= k < self.model_field_ids@.len()
                                    && #[trigger] self.model_field_ids@[k].model@ == m && self.model_field_ids@[k].ids@.contains(x);
                                if k < n {
                                    assert(self.model_field_ids@[k] == before.model_field_ids@[k]);
                                } else {
                                    assert(self.model_field_ids@[k].ids@.contains(x));
                                }
                            }
                            assert forall|x: u64| (if m == model_name@ { before.field_set(m).insert(id) } else { before.field_set(m) }).contains(x)
                                implies self.field_set(m).contains(x) by {
                                if m == model_name@ && x == id {
                                    assert(self.model_field_ids@[n].ids@[0] == id);
                                    assert(self.model_field_ids@[n].ids@.contains(id));
                                } else {
                                    let k = choose|k: int| 0 <= k < before.model_field_ids@.len()
                                        && #[trigger] before.model_field_ids@[k].model@ == m && before.model_field_ids@[k].ids@.contains(x);
                                    assert(self.model_field_ids@[k] == before.model_field_ids@[k]);
                                }
                            }
                        }
                        if m != model_name@ {
                            if self.has_model(m) {
                                let k = choose|k: int| 0 <= k < self.model_field_ids@.len() && #[trigger] self.model_field_ids@[k].model@ == m;
                                assert(k < n);
                                assert(before.model_field_ids@[k].model@ == m);
                            }
                            if before.has_model(m) {
                                let k = choose|k: int| 0 <= k < before.model_field_ids@.len() && #[trigger] before.model_field_ids@[k].model@ == m;
                                assert(self.model_field_ids@[k].model@ == m);
                            }
                        }
                    }
                }
            },
        }
    }
}

/// `new` is `old` with the registrations recorded.
pub open spec fn gathered(old: DescendantIds, new: DescendantIds, regs: Seq<Registration>) -> bool {
    &&& new.wf()
    &&& new.global_set() == old.global_set().union(global_regs(regs).to_set())
    &&& forall|m: Seq<char>| #[trigger] new.field_set(m) == old.field_set(m).union(field_regs(regs, m).to_set())
    &&& forall|m: Seq<char>| #[trigger] new.has_model(m) <==> (old.has_model(m) || field_regs(regs, m).len() > 0)
}

proof fn lemma_gathered_empty(d: DescendantIds)
    requires
        d.wf(),
    ensures
        gathered(d, d, Seq::empty()),
{
    let e = Seq::<Registration>::empty();
    assert(global_regs(e) =~= Seq::<u64>::empty());
    assert(d.global_set() =~= d.global_set().union(Seq::<u64>::empty().to_set()));
    assert forall|m: Seq<char>| #[trigger] d.field_set(m) == d.field_set(m).union(field_regs(e, m).to_set()) by {
        assert(field_regs(e, m) =~= Seq::<u64>::empty());
        assert(d.field_set(m) =~= d.field_set(m).union(Seq::<u64>::empty().to_set()));
    }
    assert forall|m: Seq<char>| #[trigger] d.has_model(m) <==> (d.has_model(m) || field_regs(e, m).len() > 0) by {
        assert(field_regs(e, m) =~= Seq::<u64>::empty());
    }
}

proof fn lemma_gathered_push(a: DescendantIds, b: DescendantIds, c: DescendantIds, regs: Seq<Registration>, r: Registration)
    requires
        gathered(a, b, regs),
        c.wf(),
        match r {
            Registration::Global(id) => {
                &&& c.global_set() == b.global_set().insert(id)
                &&& c.model_field_ids == b.model_field_ids
            },
            Registration::Field(model, id) => {
                &&& c.global_ids == b.global_ids
                &&& c.field_set(model) == b.field_set(model).insert(id)
                &&& c.has_model(model)
                &&& forall|m: Seq<char>| m != model ==> #[trigger] c.field_set(m) == b.field_set(m)
                &&& forall|m: Seq<char>| m != model ==> (#[trigger] c.has_model(m) <==> b.has_model(m))
            },
        },
    ensures
        gathered(a, c, regs.push(r)),
{
    let gf = |x: Registration| match x {
        Registration::Global(id) => seq![id],
        _ => Seq::<u64>::empty(),
    };
    regs.lemma_flat_map_push(gf, r);
    assert(global_regs(regs.push(r)) == global_regs(regs) + gf(r));
    assert forall|m: Seq<char>| #![trigger field_regs(regs.push(r), m)]
        field_regs(regs.push(r), m) == field_regs(regs, m) + match r {
            Registration::Field(mm, i) => if mm == m { seq![i] } else { Seq::<u64>::empty() },
            _ => Seq::<u64>::empty(),
        } by {
        let ff = |x: Registration| match x {
            Registration::Field(mm, i) => if mm == m { seq![i] } else { Seq::<u64>::empty() },
            _ => Seq::<u64>::empty(),
        };
        regs.lemma_flat_map_push(ff, r);
    }
    match r {
        Registration::Global(id) => {
            assert(global_regs(regs.push(r)) =~= global_regs(regs).push(id));
            global_regs(regs).lemma_push_to_set_commute(id);
            assert(c.global_set() =~= a.global_set().union(global_regs(regs.push(r)).to_set()));
            assert forall|m: Seq<char>| #[trigger] c.field_set(m) == a.field_set(m).union(field_regs(regs.push(r), m).to_set()) by {
                assert(field_regs(regs.push(r), m) =~= field_regs(regs, m));
                assert(c.field_set(m) =~= b.field_set(m));
            }
            assert forall|m: Seq<char>| #[trigger] c.has_model(m) <==> (a.has_model(m) || field_regs(regs.push(r), m).len() > 0) by {
                assert(field_regs(regs.push(r), m) =~= field_regs(regs, m));
                assert(c.has_model(m) == b.has_model(m));
            }
        },
        Registration::Field(model, id) => {
            assert(global_regs(regs.push(r)) =~= global_regs(regs));
            assert(c.global_set() == b.global_set());
            assert forall|m: Seq<char>| #[trigger] c.field_set(m) == a.field_set(m).union(field_regs(regs.push(r), m).to_set()) by {
                if m == model {
                    assert(field_regs(regs.push(r), m) =~= field_regs(regs, m).push(id));
                    field_regs(regs, m).lemma_push_to_set_commute(id);
                    assert(c.field_set(m) =~= a.field_set(m).union(field_regs(regs.push(r), m).to_set()));
                } else {
                    assert(field_regs(regs.push(r), m) =~= field_regs(regs, m));
                }
            }
            assert forall|m: Seq<char>| #[trigger] c.has_model(m) <==> (a.has_model(m) || field_regs(regs.push(r), m).len() > 0) by {
                if m == model {
                    assert(field_regs(regs.push(r), m) =~= field_regs(regs, m).push(id));
                } else {
                    assert(field_regs(regs.push(r), m) =~= field_regs(regs, m));
                }
            }
        },
    }
}

/// Records the field IDs of one model body.
fn extract_field_ids(body: &SyntaxNode, model_name: &str, result: &mut DescendantIds,
    Ghost(start): Ghost<DescendantIds>, Ghost(done): Ghost<Seq<Registration>>)
    requires
        gathered(start, *old(result), done),
    ensures
        gathered(start, *final(result), done + body.children@.flat_map(|m: SyntaxNode| member_registrations(model_name@, m))),
{
    let ghost g = |m: SyntaxNode| member_registrations(model_name@, m);
    let mut i: usize = 0;
    proof {
        assert(body.children@.take(0).flat_map(g) =~= Seq::<Registration>::empty()) by {
            assert(body.children@.take(0).map_values(g) =~= Seq::<Seq<Registration>>::empty());
        }
        assert(done + body.children@.take(0).flat_map(g) =~= done);
    }
    while i < body.children.len()
        invariant
            g == (|m: SyntaxNode| member_registrations(model_name@, m)),
            i <= body.children@.len(),
            gathered(start, *result, done + body.children@.take(i as int).flat_map(g)),
        decreases body.children@.len() - i,
    {
        let member = &body.children[i];
        let ghost prefix = done + body.children@.take(i as int).flat_map(g);
        let ghost before = *result;
        let ghost mine = g(*member);
        proof {
            crate::format::lemma_walk_step(done, body.children@, g, i as int);
        }
        if member.is_kind("field_definition") {
            match extract_entity_id(member) {
                Some(id) => {
                    result.add_field(model_name, id);
                    proof {
                        lemma_gathered_push(start, before, *result, prefix, Registration::Field(model_name@, id));
                        assert(prefix.push(Registration::Field(model_name@, id)) =~= prefix + mine);
                    }
                },
                None => {
                    proof { assert(prefix + mine =~= prefix); }
                },
            }
        } else {
            proof { assert(prefix + mine =~= prefix); }
        }
        i = i + 1;
    }
    proof { assert(body.children@.take(i as int) =~= body.children@); }
}

/// Records the IDs written on one top-level node.
#[verifier::spinoff_prover]
fn extract_child_ids(child: &SyntaxNode, result: &mut DescendantIds, Ghost(start): Ghost<DescendantIds>, Ghost(prefix): Ghost<Seq<Registration>>)
    requires
        gathered(start, *old(result), prefix),
    ensures
        gathered(start, *final(result), prefix + child_registrations(*child)),
{
    let ghost before = *result;
    let ghost mine = child_registrations(*child);
    proof { reveal_strlit("model_definition"); reveal_strlit("type_alias"); reveal_strlit("name"); reveal_strlit("body"); }
    if child.is_kind("type_alias") {
        match extract_entity_id(child) {
            Some(id) => {
                result.add_global(id);
                proof {
                    lemma_gathered_push(start, before, *result, prefix, Registration::Global(id));
                    assert(prefix.push(Registration::Global(id)) =~= prefix + mine);
                }
            },
            None => {
                proof { assert(prefix + mine =~= prefix); }
            },
        }
    } else if child.is_kind("model_definition") {
        let model_name = child.field_text_or_empty("name");
        let ghost gl: Seq<Registration> = match crate::syntax::entity_id_of(*child) {
            Some(id) => seq![Registration::Global(id)],
            None => seq![],
        };
        let ghost bg = |m: SyntaxNode| member_registrations(model_name@, m);
        let ghost body_regs: Seq<Registration> = match field_child(*child, "body"@) {
            Some(body) => body.children@.flat_map(bg),
            None => seq![],
        };
        proof { assert(mine == gl + body_regs); }
        let ghost mid = prefix + gl;
        match extract_entity_id(child) {
            Some(id) => {
                result.add_global(id);
                proof {
                    lemma_gathered_push(start, before, *result, prefix, Registration::Global(id));
                    assert(prefix.push(Registration::Global(id)) =~= mid);
                }
            },
            None => {
                proof { assert(mid =~= prefix); }
            },
        }
        match child.child_by_field_name("body") {
            Some(body) => {
                extract_field_ids(body, model_name.as_str(), result, Ghost(start), Ghost(mid));
                proof { assert(mid + body_regs =~= prefix + mine); }
            },
            None => {
                proof { assert(mid =~= prefix + mine); }
            },
        }
    } else {
        proof { assert(prefix + mine =~= prefix); }
    }
}

/// Records every entity ID written in a document: type alias and model IDs as global
/// IDs, field IDs under their model.
pub fn extract_ids_from_tree(root: &SyntaxNode, result: &mut DescendantIds)
    requires
        old(result).wf(),
    ensures
        gathered(*old(result), *final(result), tree_registrations(*root)),
{
    let ghost start = *result;
    let ghost g = |c: SyntaxNode| child_registrations(c);
    proof {
        lemma_gathered_empty(start);
        assert(root.children@.take(0).flat_map(g) =~= Seq::<Registration>::empty()) by {
            assert(root.children@.take(0).map_values(g) =~= Seq::<Seq<Registration>>::empty());
        }
    }
    let mut i: usize = 0;
    while i < root.children.len()
        invariant
            g == (|c: SyntaxNode| child_registrations(c)),
            root.children@.flat_map(g) == tree_registrations(*root),
            i <= root.children@.len(),
            gathered(start, *result, root.children@.take(i as int).flat_map(g)),
        decreases root.children@.len() - i,
    {
        proof { root.children@.lemma_flat_map_take_append(g, i as int); }
        extract_child_ids(&root.children[i], result, Ghost(start), Ghost(root.children@.take(i as int).flat_map(g)));
        i = i + 1;
    }
    proof { assert(root.children@.take(i as int) =~= root.children@); }
}

/// The IDs used by a list of documents: each one's IDs recorded in turn.
pub open spec fn trees_registrations(trees: Seq<SyntaxNode>) -> Seq<Registration> {
    trees.flat_map(|t: SyntaxNode| tree_registrations(t))
}

proof fn lemma_gathered_trans(a: DescendantIds, b: DescendantIds, c: DescendantIds, r1: Seq<Registration>, r2: Seq<Registration>)
    requires
        gathered(a, b, r1),
        gathered(b, c, r2),
    ensures
        gathered(a, c, r1 + r2),
{
    let gf = |x: Registration| match x {
        Registration::Global(id) => seq![id],
        _ => Seq::<u64>::empty(),
    };
    crate::format::lemma_flat_map_append(r1, r2, gf);
    assert(global_regs(r1 + r2) == global_regs(r1) + global_regs(r2));
    assert(c.global_set() =~= a.global_set().union(global_regs(r1 + r2).to_set())) by {
        assert forall|x: u64| global_regs(r1 + r2).to_set().contains(x) <==> (global_regs(r1).to_set().contains(x) || global_regs(r2).to_set().contains(x)) by {
            vstd::seq_lib::lemma_seq_concat_contains_all_elements(global_regs(r1), global_regs(r2), x);
        }
    }
    assert forall|m: Seq<char>| #![trigger c.field_set(m)] #![trigger c.has_model(m)]
        c.field_set(m) == a.field_set(m).union(field_regs(r1 + r2, m).to_set())
        && (c.has_model(m) <==> (a.has_model(m) || field_regs(r1 + r2, m).len() > 0)) by {
        let ff = |x: Registration| match x {
            Registration::Field(mm, i) => if mm == m { seq![i] } else { Seq::<u64>::empty() },
            _ => Seq::<u64>::empty(),
        };
        crate::format::lemma_flat_map_append(r1, r2, ff);
        assert(field_regs(r1 + r2, m) == field_regs(r1, m) + field_regs(r2, m));
        assert forall|x: u64| field_regs(r1 + r2, m).to_set().contains(x) <==> (field_regs(r1, m).to_set().contains(x) || field_regs(r2, m).to_set().contains(x)) by {
            vstd::seq_lib::lemma_seq_concat_contains_all_elements(field_regs(r1, m), field_regs(r2, m), x);
        }
        assert(c.field_set(m) =~= a.field_set(m).union(field_regs(r1 + r2, m).to_set()));
    }
}

/// The IDs used by the given descendant documents, recorded one document after another.
pub fn collect_ids_from_trees(trees: &Vec<SyntaxNode>) -> (r: DescendantIds)
    ensures
        r.wf(),
        r.global_set() == global_regs(trees_registrations(trees@)).to_set(),
        forall|m: Seq<char>| #[trigger] r.field_set(m) == field_regs(trees_registrations(trees@), m).to_set(),
        forall|m: Seq<char>| #[trigger] r.has_model(m) <==> field_regs(trees_registrations(trees@), m).len() > 0,
{
    let mut result = DescendantIds::new();
    let ghost start = result;
    let ghost g = |t: SyntaxNode| tree_registrations(t);
    proof {
        lemma_gathered_empty(start);
        assert(trees@.take(0).flat_map(g) =~= Seq::<Registration>::empty()) by {
            assert(trees@.take(0).map_values(g) =~= Seq::<Seq<Registration>>::empty());
        }
    }
    let mut i: usize = 0;
    while i < trees.len()
        invariant
            g == (|t: SyntaxNode| tree_registrations(t)),
            i <= trees@.len(),
            start.global_set() == Set::<u64>::empty(),
            forall|m: Seq<char>| !#[trigger] start.has_model(m),
            forall|m: Seq<char>| #[trigger] start.field_set(m) == Set::<u64>::empty(),
            gathered(start, result, trees@.take(i as int).flat_map(g)),
        decreases trees@.len() - i,
    {
        let ghost before = result;
        proof { trees@.lemma_flat_map_take_append(g, i as int); }
        extract_ids_from_tree(&trees[i], &mut result);
        proof { lemma_gathered_trans(start, before, result, trees@.take(i as int).flat_map(g), g(trees@[i as int])); }
        i = i + 1;
    }
    proof {
        assert(trees@.take(i as int) =~= trees@);
        let regs = trees_registrations(trees@);
        assert(result.global_set() =~= global_regs(regs).to_set());
        assert forall|m: Seq<char>| #[trigger] result.field_set(m) == field_regs(regs, m).to_set() by {
            assert(result.field_set(m) =~= field_regs(regs, m).to_set());
        }
    }
    result
}

} // verus!
