use vstd::prelude::*;

use crate::paths::str_eq;
use crate::syntax::{entity_id_of, extract_entity_id, field_child, field_text, field_text_or_empty, SyntaxNode};

verus! {

/// Options for the format command.
#[derive(Debug, Clone)]
pub struct FormatOptions {
    /// Auto-assign entity IDs to entities without them.
    pub assign_ids: bool,
    /// Check formatting without writing changes (dry-run).
    pub check: bool,
    /// Write changes to files (default: true, set to false for --check).
    pub write: bool,
    /// Number of spaces for indentation (default: 2).
    pub indent_size: usize,
    /// Format whitespace (indentation, spacing, etc.).
    pub format_whitespace: bool,
}

impl FormatOptions {
    /// The default options: no ID assignment, write changes, indent by two, format whitespace.
    pub fn default() -> (o: FormatOptions)
        ensures
            !o.assign_ids && !o.check && o.write && o.indent_size == 2 && o.format_whitespace,
    {
        FormatOptions { assign_ids: false, check: false, write: true, indent_size: 2, format_whitespace: true }
    }
}

/// The kind of entity that an ID belongs to.
#[derive(Debug, Clone, Copy, PartialEq, Eq, Hash, Structural)]
pub enum EntityType {
    TypeAlias,
    Model,
    Field,
}

impl EntityType {
    /// The name shown to users: "Type alias", "Model" or "Field".
    pub fn label(&self) -> (s: &'static str)
        ensures
            s@ == match *self {
                EntityType::TypeAlias => "Type alias"@,
                EntityType::Model => "Model"@,
                EntityType::Field => "Field"@,
            },
    {
        match self {
            EntityType::TypeAlias => "Type alias",
            EntityType::Model => "Model",
            EntityType::Field => "Field",
        }
    }
}

/// An entity ID that formatting assigned.
#[derive(Debug, Clone)]
pub struct IdAssignment {
    /// Type of entity.
    pub entity_type: EntityType,
    /// Name of the entity.
    pub entity_name: String,
    /// Model name (for fields only).
    pub model_name: Option<String>,
    /// Assigned ID.
    pub assigned_id: u64,
}

/// The field IDs used in one model, and the next free one.
#[derive(Debug)]
struct ModelIds {
    name: String,
    ids: Vec<u64>,
    next: u64,
}

/// Tracks the entity IDs in use and hands out fresh ones.
///
/// Type aliases and models share one (global) ID space; each model has its own
/// space of field IDs. A fresh ID is one more than the largest ID seen so far.
#[derive(Debug)]
pub struct EntityIdTracker {
    global_ids: Vec<u64>,
    next_global: u64,
    models: Vec<ModelIds>,
}

impl EntityIdTracker {
    /// The global IDs (type aliases and models) in use.
    pub closed spec fn global_ids(&self) -> Set<u64> {
        self.global_ids@.to_set()
    }

    /// The next global ID that `next_global_id` hands out.
    pub closed spec fn next_global(&self) -> u64 {
        self.next_global
    }

    /// Whether the tracker holds an entry for the model.
    pub closed spec fn has_model(&self, model: Seq<char>) -> bool {
        exists|i: int| 0 <= i < self.models@.len() && #[trigger] self.models@[i].name@ == model
    }

    /// The field IDs in use in the model.
    pub closed spec fn field_ids(&self, model: Seq<char>) -> Set<u64> {
        Set::new(|id: u64| exists|i: int| 0 <= i < self.models@.len() && #[trigger] self.models@[i].name@ == model
            && self.models@[i].ids@.contains(id))
    }

    /// The next field ID that `next_field_id` hands out for the model (1 for a new model).
    pub closed spec fn next_field(&self, model: Seq<char>) -> u64 {
        if self.has_model(model) {
            self.models@[choose|i: int| 0 <= i < self.models@.len() && #[trigger] self.models@[i].name@ == model].next
        } else {
            1
        }
    }

    /// Well-formed: every ID in use is below the next one handed out, and each model
    /// has one entry.
    pub closed spec fn wf(&self) -> bool {
        &&& self.next_global >= 1
        &&& forall|j: int| 0 <= j < self.global_ids@.len() ==> #[trigger] self.global_ids@[j] < self.next_global
        &&& forall|i: int, k: int| 0 <= i < k < self.models@.len() ==> self.models@[i].name@ != self.models@[k].name@
        &&& forall|i: int| 0 <= i < self.models@.len() ==> (#[trigger] self.models@[i]).next >= 1
        &&& forall|i: int, j: int| 0 <= i < self.models@.len() && 0 <= j < self.models@[i].ids@.len()
            ==> #[trigger] self.models@[i].ids@[j] < self.models@[i].next
    }

    proof fn lemma_next_field(&self, model: Seq<char>, i: int)
        requires
            self.wf(),
            0 <= i < self.models@.len(),
            self.models@[i].name@ == model,
        ensures
            self.next_field(model) == self.models@[i].next,
            self.field_ids(model) == self.models@[i].ids@.to_set(),
    {
        let c = choose|c: int| 0 <= c < self.models@.len() && #[trigger] self.models@[c].name@ == model;
        assert(c == i);
        assert(self.field_ids(model) =~= self.models@[i].ids@.to_set()) by {
            assert forall|id: u64| self.field_ids(model).contains(id) implies self.models@[i].ids@.contains(id) by {
                let k = choose|k: int| 0 <= k < self.models@.len() && #[trigger] self.models@[k].name@ == model
                    && self.models@[k].ids@.contains(id);
                assert(k == i);
            }
        }
    }

    proof fn lemma_no_model(&self, model: Seq<char>)
        requires
            self.wf(),
            !self.has_model(model),
        ensures
            self.next_field(model) == 1,
            self.field_ids(model) == Set::<u64>::empty(),
    {
        assert(self.field_ids(model) =~= Set::<u64>::empty());
    }

    /// An empty tracker: no IDs in use; the first fresh ID of every space is 1.
    pub fn new() -> (t: Self)
        ensures
            t.wf(),
            t.global_ids() == Set::<u64>::empty(),
            t.next_global() == 1,
            forall|m: Seq<char>| #[trigger] t.field_ids(m) == Set::<u64>::empty(),
            forall|m: Seq<char>| #[trigger] t.next_field(m) == 1,
    {
        let t = EntityIdTracker { global_ids: Vec::new(), next_global: 1, models: Vec::new() };
        assert(t.global_ids() =~= Set::<u64>::empty());
        assert forall|m: Seq<char>| #![trigger t.field_ids(m)] #![trigger t.next_field(m)] t.field_ids(m) == Set::<u64>::empty() && t.next_field(m) == 1 by {
            t.lemma_no_model(m);
        }
        t
    }

    /// Register a type alias or model ID.
    pub fn add_global_id(&mut self, id: u64)
        requires
            old(self).wf(),
            id < u64::MAX,
        ensures
            final(self).wf(),
            final(self).global_ids() == old(self).global_ids().insert(id),
            final(self).next_global() == if id >= old(self).next_global() { (id + 1) as u64 } else { old(self).next_global() },
            forall|m: Seq<char>| #[trigger] final(self).field_ids(m) == old(self).field_ids(m),
            forall|m: Seq<char>| #[trigger] final(self).next_field(m) == old(self).next_field(m),
    {
        let ghost before = *self;
        self.global_ids.push(id);
        if id >= self.next_global {
            self.next_global = id + 1;
        }
        assert(self.global_ids@.to_set() =~= before.global_ids@.to_set().insert(id)) by {
            assert(self.global_ids@ == before.global_ids@.push(id));
            before.global_ids@.lemma_push_to_set_commute(id);
        }
        assert forall|m: Seq<char>| #![trigger self.field_ids(m)] #![trigger self.next_field(m)] self.field_ids(m) == before.field_ids(m)
            && self.next_field(m) == before.next_field(m) by {
            assert(self.field_ids(m) =~= before.field_ids(m));
        }
    }

    /// The index of the model's entry, if it has one.
    fn find_model(&self, model: &str) -> (r: Option<usize>)
        requires
            self.wf(),
        ensures
            match r {
                Some(i) => i < self.models@.len() && self.models@[i as int].name@ == model@,
                None => !self.has_model(model@),
            },
    {
        let mut i: usize = 0;
        while i < self.models.len()
            invariant
                i <= self.models@.len(),
                forall|k: int| 0 <= k < i ==> self.models@[k].name@ != model@,
            decreases self.models@.len() - i,
        {
            if str_eq(self.models[i].name.as_str(), model) {
                return Some(i);
            }
            i = i + 1;
        }
        None
    }

    /// Puts `id` into the model's field IDs and sets its next field ID to `next`,
    /// creating the model's entry if needed.
    #[verifier::spinoff_prover]
    fn set_model(&mut self, model: &str, id: u64, next: u64)
        requires
            old(self).wf(),
            next >= 1,
            id < next,
            forall|x: u64| old(self).field_ids(model@).contains(x) ==> x < next,
        ensures
            final(self).wf(),
            final(self).global_ids() == old(self).global_ids(),
            final(self).next_global() == old(self).next_global(),
            final(self).field_ids(model@) == old(self).field_ids(model@).insert(id),
            final(self).next_field(model@) == next,
            forall|m: Seq<char>| m != model@ ==> #[trigger] final(self).field_ids(m) == old(self).field_ids(m),
            forall|m: Seq<char>| m != model@ ==> #[trigger] final(self).next_field(m) == old(self).next_field(m),
    {
        let ghost before = *self;
        match self.find_model(model) {
            Some(i) => {
                proof { before.lemma_next_field(model@, i as int); }
                let mut ids = self.models[i].ids.clone();
                ids.push(id);
                let entry = ModelIds { name: self.models[i].name.clone(), ids, next };
                proof {
                    assert(entry.ids@ == before.models@[i as int].ids@.push(id));
                    assert forall|j: int| 0 <= j < entry.ids@.len() implies #[trigger] entry.ids@[j] < next by {
                        if j < entry.ids@.len() - 1 {
                            assert(entry.ids@[j] == before.models@[i as int].ids@[j]);
                            assert(before.models@[i as int].ids@.to_set().contains(entry.ids@[j]));
                        }
                    }
                }
                self.models.set(i, entry);
                proof {
                    assert(self.wf());
                    self.lemma_next_field(model@, i as int);
                    assert(self.models@[i as int].ids@ == before.models@[i as int].ids@.push(id));
                    before.models@[i as int].ids@.lemma_push_to_set_commute(id);
                    assert(self.models@[i as int].ids@.to_set() =~= before.models@[i as int].ids@.to_set().insert(id));
                    assert forall|m: Seq<char>| #![trigger self.field_ids(m)] #![trigger self.next_field(m)] m != model@ implies
                        self.field_ids(m) == before.field_ids(m) && self.next_field(m) == before.next_field(m) by {
                        assert(self.field_ids(m) =~= before.field_ids(m)) by {
                            assert forall|x: u64| self.field_ids(m).contains(x) <==> before.field_ids(m).contains(x) by {
                                if self.field_ids(m).contains(x) {
                                    let k = choose|k: int| 0 <= k < self.models@.len() && #[trigger] self.models@[k].name@ == m
                                        && self.models@[k].ids@.contains(x);
                                    assert(k != i);
                                    assert(self.models@[k] == before.models@[k]);
                                }
                                if before.field_ids(m).contains(x) {
                                    let k = choose|k: int| 0 <= k < before.models@.len() && #[trigger] before.models@[k].name@ == m
                                        && before.models@[k].ids@.contains(x);
                                    assert(k != i);
                                    assert(self.models@[k] == before.models@[k]);
                                }
                            }
                        }
                        if before.has_model(m) {
                            let k = choose|k: int| 0 <= k < before.models@.len() && #[trigger] before.models@[k].name@ == m;
                            assert(self.models@[k] == before.models@[k]);
                            before.lemma_next_field(m, k);
                            self.lemma_next_field(m, k);
                        } else {
                            assert(!self.has_model(m)) by {
                                if self.has_model(m) {
                                    let k = choose|k: int| 0 <= k < self.models@.len() && #[trigger] self.models@[k].name@ == m;
                                    assert(self.models@[k].name@ == before.models@[k].name@);
                                }
                            }
                        }
                    }
                }
            },
            None => {
                proof { before.lemma_no_model(model@); }
                let mut ids: Vec<u64> = Vec::new();
                ids.push(id);
                let name = model.to_string();
                self.models.push(ModelIds { name, ids, next });
                proof {
                    let n = before.models@.len() as int;
                    assert(self.models@[n].name@ == model@);
                    assert(self.wf()) by {
                        assert forall|i: int, k: int| 0 <= i < k < self.models@.len()
                            implies self.models@[i].name@ != self.models@[k].name@ by {
                            if k == n {
                                assert(self.models@[i] == before.models@[i]);
                            } else {
                                assert(self.models@[i] == before.models@[i]);
                                assert(self.models@[k] == before.models@[k]);
                            }
                        }
                        assert forall|i: int, j: int| 0 <= i < self.models@.len() && 0 <= j < self.models@[i].ids@.len()
                            implies #[trigger] self.models@[i].ids@[j] < self.models@[i].next by {
                            if i < n {
                                assert(self.models@[i] == before.models@[i]);
                            }
                        }
                        assert forall|i: int| 0 <= i < self.models@.len() implies (#[trigger] self.models@[i]).next >= 1 by {
                            if i < n {
                                assert(self.models@[i] == before.models@[i]);
                            }
                        }
                    }
                    self.lemma_next_field(model@, n);
                    assert(self.models@[n].ids@.to_set() =~= Set::<u64>::empty().insert(id)) by {
                        assert(self.models@[n].ids@ == Seq::<u64>::empty().push(id));
                        Seq::<u64>::empty().lemma_push_to_set_commute(id);
                        assert(Seq::<u64>::empty().to_set() =~= Set::<u64>::empty());
                    }
                    assert forall|m: Seq<char>| #![trigger self.field_ids(m)] #![trigger self.next_field(m)] m != model@ implies
                        self.field_ids(m) == before.field_ids(m) && self.next_field(m) == before.next_field(m) by {
                        assert(self.field_ids(m) =~= before.field_ids(m)) by {
                            assert forall|x: u64| self.field_ids(m).contains(x) <==> before.field_ids(m).contains(x) by {
                                if self.field_ids(m).contains(x) {
                                    let k = choose|k: int| 0 <= k < self.models@.len() && #[trigger] self.models@[k].name@ == m
                                        && self.models@[k].ids@.contains(x);
                                    assert(k != n);
                                    assert(self.models@[k] == before.models@[k]);
                                }
                                if before.field_ids(m).contains(x) {
                                    let k = choose|k: int| 0 <= k < before.models@.len() && #[trigger] before.models@[k].name@ == m
                                        && before.models@[k].ids@.contains(x);
                                    assert(self.models@[k] == before.models@[k]);
                                }
                            }
                        }
                        if before.has_model(m) {
                            let k = choose|k: int| 0 <= k < before.models@.len() && #[trigger] before.models@[k].name@ == m;
                            assert(self.models@[k] == before.models@[k]);
                            before.lemma_next_field(m, k);
                            self.lemma_next_field(m, k);
                        } else {
                            assert(!self.has_model(m)) by {
                                if self.has_model(m) {
                                    let k = choose|k: int| 0 <= k < self.models@.len() && #[trigger] self.models@[k].name@ == m;
                                    if k < n {
                                        assert(self.models@[k] == before.models@[k]);
                                    }
                                }
                            }
                            self.lemma_no_model(m);
                        }
                    }
                }
            },
        }
    }

    /// Register a field ID for a specific model.
    pub fn add_field_id(&mut self, model_name: &str, id: u64)
        requires
            old(self).wf(),
            id < u64::MAX,
        ensures
            final(self).wf(),
            final(self).global_ids() == old(self).global_ids(),
            final(self).next_global() == old(self).next_global(),
            final(self).field_ids(model_name@) == old(self).field_ids(model_name@).insert(id),
            final(self).next_field(model_name@) == if id >= old(self).next_field(model_name@) {
                (id + 1) as u64
            } else {
                old(self).next_field(model_name@)
            },
            forall|m: Seq<char>| m != model_name@ ==> #[trigger] final(self).field_ids(m) == old(self).field_ids(m),
            forall|m: Seq<char>| m != model_name@ ==> #[trigger] final(self).next_field(m) == old(self).next_field(m),
    {
        let current = self.current_next_field(model_name);
        let next = if id >= current { id + 1 } else { current };
        self.set_model(model_name, id, next);
    }

    /// The next field ID of the model (1 when the model has none yet), with the fact
    /// that every field ID in use is below it.
    fn current_next_field(&self, model_name: &str) -> (n: u64)
        requires
            self.wf(),
        ensures
            n == self.next_field(model_name@),
            n >= 1,
            forall|x: u64| self.field_ids(model_name@).contains(x) ==> x < n,
    {
        match self.find_model(model_name) {
            Some(i) => {
                proof {
                    self.lemma_next_field(model_name@, i as int);
                    assert forall|x: u64| self.field_ids(model_name@).contains(x) implies x < self.models@[i as int].next by {
                        assert(self.models@[i as int].ids@.to_set().contains(x));
                    }
                }
                self.models[i].next
            },
            None => {
                proof { self.lemma_no_model(model_name@); }
                1
            },
        }
    }

    /// Hand out a fresh global ID (for a type alias or model) and mark it as used.
    /// The ID is not in use before the call: it is above every ID in use.
    pub fn next_global_id(&mut self) -> (id: u64)
        requires
            old(self).wf(),
            old(self).next_global() < u64::MAX,
        ensures
            final(self).wf(),
            id == old(self).next_global(),
            !old(self).global_ids().contains(id),
            forall|x: u64| old(self).global_ids().contains(x) ==> x < id,
            final(self).global_ids() == old(self).global_ids().insert(id),
            final(self).next_global() == id + 1,
            forall|m: Seq<char>| #[trigger] final(self).field_ids(m) == old(self).field_ids(m),
            forall|m: Seq<char>| #[trigger] final(self).next_field(m) == old(self).next_field(m),
    {
        let ghost before = *self;
        let id = self.next_global;
        self.next_global = self.next_global + 1;
        self.global_ids.push(id);
        proof {
            assert(self.global_ids@ == before.global_ids@.push(id));
            before.global_ids@.lemma_push_to_set_commute(id);
            assert(self.global_ids@.to_set() =~= before.global_ids@.to_set().insert(id));
            assert forall|x: u64| before.global_ids().contains(x) implies x < id by {
                let j = choose|j: int| 0 <= j < before.global_ids@.len() && before.global_ids@[j] == x;
            }
            assert forall|j: int| 0 <= j < self.global_ids@.len() implies #[trigger] self.global_ids@[j] < self.next_global by {
                if j < before.global_ids@.len() {
                    assert(self.global_ids@[j] == before.global_ids@[j]);
                }
            }
            assert forall|m: Seq<char>| #![trigger self.field_ids(m)] #![trigger self.next_field(m)] self.field_ids(m) == before.field_ids(m)
                && self.next_field(m) == before.next_field(m) by {
                assert(self.field_ids(m) =~= before.field_ids(m));
            }
        }
        id
    }

    /// Hand out a fresh field ID for the model and mark it as used.
    /// The ID is not in use in that model before the call: it is above every one in use.
    pub fn next_field_id(&mut self, model_name: &str) -> (id: u64)
        requires
            old(self).wf(),
            old(self).next_field(model_name@) < u64::MAX,
        ensures
            final(self).wf(),
            id == old(self).next_field(model_name@),
            !old(self).field_ids(model_name@).contains(id),
            forall|x: u64| old(self).field_ids(model_name@).contains(x) ==> x < id,
            final(self).field_ids(model_name@) == old(self).field_ids(model_name@).insert(id),
            final(self).next_field(model_name@) == id + 1,
            final(self).global_ids() == old(self).global_ids(),
            final(self).next_global() == old(self).next_global(),
            forall|m: Seq<char>| m != model_name@ ==> #[trigger] final(self).field_ids(m) == old(self).field_ids(m),
            forall|m: Seq<char>| m != model_name@ ==> #[trigger] final(self).next_field(m) == old(self).next_field(m),
    {
        let id = self.current_next_field(model_name);
        self.set_model(model_name, id, id + 1);
        id
    }

    /// Whether the global ID is in use.
    pub fn uses_global_id(&self, id: u64) -> (r: bool)
        ensures
            r == self.global_ids().contains(id),
    {
        let mut i: usize = 0;
        while i < self.global_ids.len()
            invariant
                i <= self.global_ids@.len(),
                forall|j: int| 0 <= j < i ==> self.global_ids@[j] != id,
            decreases self.global_ids@.len() - i,
        {
            if self.global_ids[i] == id {
                assert(self.global_ids@.contains(id));
                return true;
            }
            i = i + 1;
        }
        false
    }

    /// Whether the field ID is in use in the model.
    pub fn uses_field_id(&self, model_name: &str, id: u64) -> (r: bool)
        requires
            self.wf(),
        ensures
            r == self.field_ids(model_name@).contains(id),
    {
        match self.find_model(model_name) {
            Some(k) => {
                proof { self.lemma_next_field(model_name@, k as int); }
                let ids = &self.models[k].ids;
                let mut i: usize = 0;
                while i < ids.len()
                    invariant
                        k < self.models@.len(),
                        ids@ == self.models@[k as int].ids@,
                        self.field_ids(model_name@) == self.models@[k as int].ids@.to_set(),
                        i <= ids@.len(),
                        forall|j: int| 0 <= j < i ==> ids@[j] != id,
                    decreases ids@.len() - i,
                {
                    if ids[i] == id {
                        assert(ids@.contains(id));
                        assert(self.models@[k as int].ids@.to_set().contains(id));
                        return true;
                    }
                    i = i + 1;
                }
                assert(!self.models@[k as int].ids@.to_set().contains(id));
                false
            },
            None => {
                proof { self.lemma_no_model(model_name@); }
                false
            },
        }
    }

    /// The global ID that `next_global_id` would hand out now.
    pub fn peek_next_global_id(&self) -> (r: u64)
        ensures
            r == self.next_global(),
    {
        self.next_global
    }

    /// The field ID that `next_field_id` would hand out now for a model the tracker has
    /// seen; `None` for a model it has not seen.
    pub fn peek_next_field_id(&self, model_name: &str) -> (r: Option<u64>)
        requires
            self.wf(),
        ensures
            r == if self.has_model(model_name@) { Some(self.next_field(model_name@)) } else { None::<u64> },
    {
        match self.find_model(model_name) {
            Some(k) => {
                proof { self.lemma_next_field(model_name@, k as int); }
                Some(self.models[k].next)
            },
            None => None,
        }
    }
}

// ---------------------------------------------------------------------------
// Collecting the IDs in use
// ---------------------------------------------------------------------------

/// An ID found in a document: a global one (type alias or model) or a field one.
pub enum Registration {
    Global(u64),
    Field(Seq<char>, u64),
}

/// The field ID registered by a member of a model body (a field definition with an ID).
pub open spec fn member_registrations(model: Seq<char>, member: SyntaxNode) -> Seq<Registration> {
    if member.kind@ == "field_definition"@ {
        match entity_id_of(member) {
            Some(id) => seq![Registration::Field(model, id)],
            None => seq![],
        }
    } else {
        seq![]
    }
}

/// The IDs registered by one top-level node: a type alias's ID; a model's ID, then its
/// fields' IDs.
pub open spec fn child_registrations(child: SyntaxNode) -> Seq<Registration> {
    if child.kind@ == "type_alias"@ {
        match entity_id_of(child) {
            Some(id) => seq![Registration::Global(id)],
            None => seq![],
        }
    } else if child.kind@ == "model_definition"@ {
        let name = field_text_or_empty(child, "name"@);
        (match entity_id_of(child) {
            Some(id) => seq![Registration::Global(id)],
            None => seq![],
        }) + match field_child(child, "body"@) {
            Some(body) => body.children@.flat_map(|m: SyntaxNode| member_registrations(name, m)),
            None => seq![],
        }
    } else {
        seq![]
    }
}

/// All IDs written in a document, in document order.
pub open spec fn tree_registrations(root: SyntaxNode) -> Seq<Registration> {
    root.children@.flat_map(|c: SyntaxNode| child_registrations(c))
}

/// The global IDs among some registrations.
pub open spec fn global_regs(regs: Seq<Registration>) -> Seq<u64> {
    regs.flat_map(|r: Registration| match r {
        Registration::Global(id) => seq![id],
        _ => seq![],
    })
}

/// The field IDs of one model among some registrations.
pub open spec fn field_regs(regs: Seq<Registration>, model: Seq<char>) -> Seq<u64> {
    regs.flat_map(|r: Registration| match r {
        Registration::Field(m, id) => if m == model { seq![id] } else { seq![] },
        _ => seq![],
    })
}

/// The next free ID after registering `ids` in order, starting from `n`.
pub open spec fn bumped(n: u64, ids: Seq<u64>) -> u64
    decreases ids.len(),
{
    if ids.len() == 0 {
        n
    } else {
        let b = bumped(n, ids.drop_last());
        if ids.last() >= b { (ids.last() + 1) as u64 } else { b }
    }
}

/// Every ID among the registrations is below `u64::MAX`.
pub open spec fn regs_below_max(regs: Seq<Registration>) -> bool {
    forall|i: int| 0 <= i < regs.len() ==> match #[trigger] regs[i] {
        Registration::Global(id) => id < u64::MAX,
        Registration::Field(_, id) => id < u64::MAX,
    }
}

/// `new` is `old` with the registrations applied in order.
pub open spec fn applied(old: EntityIdTracker, new: EntityIdTracker, regs: Seq<Registration>) -> bool {
    &&& new.wf()
    &&& new.global_ids() == old.global_ids().union(global_regs(regs).to_set())
    &&& new.next_global() == bumped(old.next_global(), global_regs(regs))
    &&& forall|m: Seq<char>| #[trigger] new.field_ids(m) == old.field_ids(m).union(field_regs(regs, m).to_set())
    &&& forall|m: Seq<char>| #[trigger] new.next_field(m) == bumped(old.next_field(m), field_regs(regs, m))
}

/// Applying no registrations leaves the tracker as it is.
pub proof fn lemma_applied_empty(t: EntityIdTracker)
    requires
        t.wf(),
    ensures
        applied(t, t, Seq::empty()),
{
    let e = Seq::<Registration>::empty();
    assert(global_regs(e) =~= Seq::<u64>::empty());
    assert(t.global_ids().union(Seq::<u64>::empty().to_set()) =~= t.global_ids());
    assert forall|m: Seq<char>| #[trigger] t.field_ids(m) == t.field_ids(m).union(field_regs(e, m).to_set()) by {
        assert(field_regs(e, m) =~= Seq::<u64>::empty());
        assert(t.field_ids(m).union(Seq::<u64>::empty().to_set()) =~= t.field_ids(m));
    }
    assert forall|m: Seq<char>| #[trigger] t.next_field(m) == bumped(t.next_field(m), field_regs(e, m)) by {
        assert(field_regs(e, m) =~= Seq::<u64>::empty());
    }
}

proof fn lemma_applied_push(a: EntityIdTracker, b: EntityIdTracker, c: EntityIdTracker, regs: Seq<Registration>, r: Registration)
    requires
        applied(a, b, regs),
        c.wf(),
        match r {
            Registration::Global(id) => {
                &&& c.global_ids() == b.global_ids().insert(id)
                &&& c.next_global() == (if id >= b.next_global() { (id + 1) as u64 } else { b.next_global() })
                &&& forall|m: Seq<char>| #[trigger] c.field_ids(m) == b.field_ids(m)
                &&& forall|m: Seq<char>| #[trigger] c.next_field(m) == b.next_field(m)
            },
            Registration::Field(model, id) => {
                &&& c.global_ids() == b.global_ids()
                &&& c.next_global() == b.next_global()
                &&& c.field_ids(model) == b.field_ids(model).insert(id)
                &&& c.next_field(model) == (if id >= b.next_field(model) { (id + 1) as u64 } else { b.next_field(model) })
                &&& forall|m: Seq<char>| m != model ==> #[trigger] c.field_ids(m) == b.field_ids(m)
                &&& forall|m: Seq<char>| m != model ==> #[trigger] c.next_field(m) == b.next_field(m)
            },
        },
    ensures
        applied(a, c, regs.push(r)),
{
    let gf = |x: Registration| match x {
        Registration::Global(id) => seq![id],
        _ => Seq::<u64>::empty(),
    };
    regs.lemma_flat_map_push(gf, r);
    assert(global_regs(regs.push(r)) == global_regs(regs) + gf(r));
    match r {
        Registration::Global(id) => {
            assert(global_regs(regs.push(r)) =~= global_regs(regs).push(id));
            global_regs(regs).lemma_push_to_set_commute(id);
            assert(c.global_ids() =~= a.global_ids().union(global_regs(regs.push(r)).to_set()));
            assert(global_regs(regs.push(r)).drop_last() =~= global_regs(regs));
            assert forall|m: Seq<char>| #[trigger] c.field_ids(m) == a.field_ids(m).union(field_regs(regs.push(r), m).to_set()) by {
                let ff = |x: Registration| match x {
                    Registration::Field(mm, i) => if mm == m { seq![i] } else { Seq::<u64>::empty() },
                    _ => Seq::<u64>::empty(),
                };
                regs.lemma_flat_map_push(ff, r);
                assert(field_regs(regs.push(r), m) =~= field_regs(regs, m));
            }
            assert forall|m: Seq<char>| #[trigger] c.next_field(m) == bumped(a.next_field(m), field_regs(regs.push(r), m)) by {
                let ff = |x: Registration| match x {
                    Registration::Field(mm, i) => if mm == m { seq![i] } else { Seq::<u64>::empty() },
                    _ => Seq::<u64>::empty(),
                };
                regs.lemma_flat_map_push(ff, r);
                assert(field_regs(regs.push(r), m) =~= field_regs(regs, m));
            }
        },
        Registration::Field(model, id) => {
            assert(global_regs(regs.push(r)) =~= global_regs(regs));
            assert forall|m: Seq<char>| #[trigger] c.field_ids(m) == a.field_ids(m).union(field_regs(regs.push(r), m).to_set()) by {
                let ff = |x: Registration| match x {
                    Registration::Field(mm, i) => if mm == m { seq![i] } else { Seq::<u64>::empty() },
                    _ => Seq::<u64>::empty(),
                };
                regs.lemma_flat_map_push(ff, r);
                if m == model {
                    assert(field_regs(regs.push(r), m) =~= field_regs(regs, m).push(id));
                    field_regs(regs, m).lemma_push_to_set_commute(id);
                    assert(c.field_ids(m) =~= a.field_ids(m).union(field_regs(regs.push(r), m).to_set()));
                } else {
                    assert(field_regs(regs.push(r), m) =~= field_regs(regs, m));
                }
            }
            assert forall|m: Seq<char>| #[trigger] c.next_field(m) == bumped(a.next_field(m), field_regs(regs.push(r), m)) by {
                let ff = |x: Registration| match x {
                    Registration::Field(mm, i) => if mm == m { seq![i] } else { Seq::<u64>::empty() },
                    _ => Seq::<u64>::empty(),
                };
                regs.lemma_flat_map_push(ff, r);
                if m == model {
                    assert(field_regs(regs.push(r), m) =~= field_regs(regs, m).push(id));
                    assert(field_regs(regs.push(r), m).drop_last() =~= field_regs(regs, m));
                } else {
                    assert(field_regs(regs.push(r), m) =~= field_regs(regs, m));
                }
            }
        },
    }
}

/// Registering `x` then `y` bumps as registering `x + y` does.
pub proof fn lemma_bumped_append(n: u64, x: Seq<u64>, y: Seq<u64>)
    ensures
        bumped(n, x + y) == bumped(bumped(n, x), y),
    decreases y.len(),
{
    if y.len() == 0 {
        assert(x + y =~= x);
    } else {
        lemma_bumped_append(n, x, y.drop_last());
        assert((x + y).drop_last() =~= x + y.drop_last());
        assert((x + y).last() == y.last());
    }
}

/// Applying registrations in two steps is applying them all.
pub proof fn lemma_applied_trans(a: EntityIdTracker, b: EntityIdTracker, c: EntityIdTracker, r1: Seq<Registration>, r2: Seq<Registration>)
    requires
        applied(a, b, r1),
        applied(b, c, r2),
    ensures
        applied(a, c, r1 + r2),
{
    let gf = |x: Registration| match x {
        Registration::Global(id) => seq![id],
        _ => Seq::<u64>::empty(),
    };
    lemma_flat_map_append(r1, r2, gf);
    assert(global_regs(r1 + r2) == global_regs(r1) + global_regs(r2));
    lemma_bumped_append(a.next_global(), global_regs(r1), global_regs(r2));
    assert(c.global_ids() =~= a.global_ids().union(global_regs(r1 + r2).to_set())) by {
        assert forall|x: u64| global_regs(r1 + r2).to_set().contains(x) <==> (global_regs(r1).to_set().contains(x) || global_regs(r2).to_set().contains(x)) by {
            vstd::seq_lib::lemma_seq_concat_contains_all_elements(global_regs(r1), global_regs(r2), x);
        }
    }
    assert forall|m: Seq<char>| #![trigger c.field_ids(m)] #![trigger c.next_field(m)]
        c.field_ids(m) == a.field_ids(m).union(field_regs(r1 + r2, m).to_set())
        && c.next_field(m) == bumped(a.next_field(m), field_regs(r1 + r2, m)) by {
        let ff = |x: Registration| match x {
            Registration::Field(mm, i) => if mm == m { seq![i] } else { Seq::<u64>::empty() },
            _ => Seq::<u64>::empty(),
        };
        lemma_flat_map_append(r1, r2, ff);
        assert(field_regs(r1 + r2, m) == field_regs(r1, m) + field_regs(r2, m));
        lemma_bumped_append(a.next_field(m), field_regs(r1, m), field_regs(r2, m));
        assert forall|x: u64| field_regs(r1 + r2, m).to_set().contains(x) <==> (field_regs(r1, m).to_set().contains(x) || field_regs(r2, m).to_set().contains(x)) by {
            vstd::seq_lib::lemma_seq_concat_contains_all_elements(field_regs(r1, m), field_regs(r2, m), x);
        }
        assert(c.field_ids(m) =~= a.field_ids(m).union(field_regs(r1 + r2, m).to_set()));
    }
}

/// Registers the IDs of the fields of one model body.
fn collect_field_ids(body: &SyntaxNode, model_name: &str, tracker: &mut EntityIdTracker, Ghost(start): Ghost<EntityIdTracker>, Ghost(done): Ghost<Seq<Registration>>)
    requires
        applied(start, *old(tracker), done),
        regs_below_max(body.children@.flat_map(|m: SyntaxNode| member_registrations(model_name@, m))),
    ensures
        applied(start, *final(tracker), done + body.children@.flat_map(|m: SyntaxNode| member_registrations(model_name@, m))),
{
    let ghost g = |m: SyntaxNode| member_registrations(model_name@, m);
    let ghost all = body.children@.flat_map(g);
    let mut i: usize = 0;
    proof { assert(done + body.children@.take(0).flat_map(g) =~= done); }
    while i < body.children.len()
        invariant
            g == (|m: SyntaxNode| member_registrations(model_name@, m)),
            all == body.children@.flat_map(g),
            regs_below_max(all),
            i <= body.children@.len(),
            applied(start, *tracker, done + body.children@.take(i as int).flat_map(g)),
        decreases body.children@.len() - i,
    {
        let member = &body.children[i];
        let ghost before = *tracker;
        let ghost prefix = done + body.children@.take(i as int).flat_map(g);
        proof {
            body.children@.lemma_flat_map_take_append(g, i as int);
            assert(done + body.children@.take(i + 1).flat_map(g) =~= prefix + g(body.children@[i as int]));
        }
        if member.is_kind("field_definition") {
            match extract_entity_id(member) {
                Some(id) => {
                    proof {
                        let k: int = body.children@.take(i as int).flat_map(g).len() as int;
                        lemma_flat_map_prefix_index(body.children@, g, i as int);
                        assert(g(body.children@[i as int]) =~= seq![Registration::Field(model_name@, id)]);
                        assert(all[k + 0] == Registration::Field(model_name@, id));
                    }
                    tracker.add_field_id(model_name, id);
                    proof {
                        lemma_applied_push(start, before, *tracker, prefix, Registration::Field(model_name@, id));
                        assert(prefix.push(Registration::Field(model_name@, id)) =~= prefix + g(body.children@[i as int]));
                    }
                },
                None => {
                    proof { assert(prefix + g(body.children@[i as int]) =~= prefix); }
                },
            }
        } else {
            proof { assert(prefix + g(body.children@[i as int]) =~= prefix); }
        }
        i = i + 1;
    }
    proof { assert(body.children@.take(i as int) =~= body.children@); }
}

/// The element that `f` maps item `i` to starts right after the part that items before
/// `i` map to.
pub proof fn lemma_flat_map_prefix_index<A, B>(s: Seq<A>, f: spec_fn(A) -> Seq<B>, i: int)
    requires
        0 <= i < s.len(),
    ensures
        s.take(i).flat_map(f).len() + f(s[i]).len() <= s.flat_map(f).len(),
        forall|j: int| 0 <= j < f(s[i]).len() ==> #[trigger] s.flat_map(f)[s.take(i).flat_map(f).len() + j] == f(s[i])[j],
{
    s.lemma_flat_map_take_append(f, i);
    let rest = s.skip(i + 1);
    assert(s =~= s.take(i + 1) + rest);
    lemma_flat_map_append(s.take(i + 1), rest, f);
}

pub proof fn lemma_flat_map_append<A, B>(a: Seq<A>, b: Seq<A>, f: spec_fn(A) -> Seq<B>)
    ensures
        (a + b).flat_map(f) =~= a.flat_map(f) + b.flat_map(f),
    decreases b.len(),
{
    if b.len() == 0 {
        assert(a + b =~= a);
        assert(b.flat_map(f) =~= Seq::<B>::empty()) by {
            assert(b.map_values(f) =~= Seq::<Seq<B>>::empty());
        }
    } else {
        lemma_flat_map_append(a, b.drop_last(), f);
        assert(a + b =~= (a + b.drop_last()).push(b.last()));
        (a + b.drop_last()).lemma_flat_map_push(f, b.last());
        b.drop_last().lemma_flat_map_push(f, b.last());
        assert(b.drop_last().push(b.last()) =~= b);
    }
}


/// The registrations of part `i` of a flat map lie below the limit when all of them do.
pub proof fn lemma_part_below_max<A>(s: Seq<A>, f: spec_fn(A) -> Seq<Registration>, i: int)
    requires
        0 <= i < s.len(),
        regs_below_max(s.flat_map(f)),
    ensures
        regs_below_max(f(s[i])),
{
    lemma_flat_map_prefix_index(s, f, i);
    let k = s.take(i).flat_map(f).len() as int;
    assert forall|j: int| 0 <= j < f(s[i]).len() implies match #[trigger] f(s[i])[j] {
        Registration::Global(id) => id < u64::MAX,
        Registration::Field(_, id) => id < u64::MAX,
    } by {
        assert(s.flat_map(f)[k + j] == f(s[i])[j]);
    }
}

/// Registers the IDs written on one top-level node.
fn collect_child_ids(child: &SyntaxNode, tracker: &mut EntityIdTracker, Ghost(start): Ghost<EntityIdTracker>, Ghost(prefix): Ghost<Seq<Registration>>)
    requires
        applied(start, *old(tracker), prefix),
        regs_below_max(child_registrations(*child)),
    ensures
        applied(start, *final(tracker), prefix + child_registrations(*child)),
{
    let ghost before = *tracker;
    let ghost mine = child_registrations(*child);
    proof { reveal_strlit("model_definition"); reveal_strlit("type_alias"); reveal_strlit("name"); reveal_strlit("body"); }
    if child.is_kind("type_alias") {
        match extract_entity_id(child) {
            Some(id) => {
                proof { assert(mine[0] == Registration::Global(id)); }
                tracker.add_global_id(id);
                proof {
                    lemma_applied_push(start, before, *tracker, prefix, Registration::Global(id));
                    assert(prefix.push(Registration::Global(id)) =~= prefix + mine);
                }
            },
            None => {
                proof { assert(prefix + mine =~= prefix); }
            },
        }
    } else if child.is_kind("model_definition") {
        let model_name = child.field_text_or_empty("name");
        let ghost gl: Seq<Registration> = match entity_id_of(*child) {
            Some(id) => seq![Registration::Global(id)],
            None => seq![],
        };
        let ghost bg = |m: SyntaxNode| member_registrations(model_name@, m);
        let ghost body_regs: Seq<Registration> = match field_child(*child, "body"@) {
            Some(body) => body.children@.flat_map(bg),
            None => seq![],
        };
        proof {
            assert(mine == gl + body_regs);
            assert forall|j: int| 0 <= j < body_regs.len() implies match #[trigger] body_regs[j] {
                Registration::Global(id) => id < u64::MAX,
                Registration::Field(_, id) => id < u64::MAX,
            } by {
                assert(mine[gl.len() + j] == body_regs[j]);
            }
        }
        let ghost mid = prefix + gl;
        match extract_entity_id(child) {
            Some(id) => {
                proof { assert(mine[0] == Registration::Global(id)); }
                tracker.add_global_id(id);
                proof {
                    lemma_applied_push(start, before, *tracker, prefix, Registration::Global(id));
                    assert(prefix.push(Registration::Global(id)) =~= mid);
                }
            },
            None => {
                proof { assert(mid =~= prefix); }
            },
        }
        match child.child_by_field_name("body") {
            Some(body) => {
                collect_field_ids(body, model_name.as_str(), tracker, Ghost(start), Ghost(mid));
                proof { assert(mid + body_regs =~= prefix + mine); }
            },
            None => {
                proof { assert(mid =~= prefix + mine); }
            },
        }
    } else {
        proof { assert(prefix + mine =~= prefix); }
    }
}

/// Registers every entity ID written in a document: type alias and model IDs in the
/// global space, field IDs in their model's space, in document order.
pub fn collect_entity_ids(root: &SyntaxNode, tracker: &mut EntityIdTracker)
    requires
        old(tracker).wf(),
        regs_below_max(tree_registrations(*root)),
    ensures
        applied(*old(tracker), *final(tracker), tree_registrations(*root)),
{
    let ghost start = *tracker;
    let ghost g = |c: SyntaxNode| child_registrations(c);
    proof {
        lemma_applied_empty(start);
        assert(root.children@.take(0).flat_map(g) =~= Seq::<Registration>::empty()) by {
            assert(root.children@.take(0).map_values(g) =~= Seq::<Seq<Registration>>::empty());
        }
    }
    let mut i: usize = 0;
    while i < root.children.len()
        invariant
            g == (|c: SyntaxNode| child_registrations(c)),
            root.children@.flat_map(g) == tree_registrations(*root),
            regs_below_max(root.children@.flat_map(g)),
            i <= root.children@.len(),
            applied(start, *tracker, root.children@.take(i as int).flat_map(g)),
        decreases root.children@.len() - i,
    {
        proof {
            root.children@.lemma_flat_map_take_append(g, i as int);
            lemma_part_below_max(root.children@, g, i as int);
        }
        collect_child_ids(&root.children[i], tracker, Ghost(start), Ghost(root.children@.take(i as int).flat_map(g)));
        i = i + 1;
    }
    proof { assert(root.children@.take(i as int) =~= root.children@); }
}

// ---------------------------------------------------------------------------
// Assigning IDs to entities that lack one
// ---------------------------------------------------------------------------

/// An entity written without an ID: its kind, its name and, for a field, its model.
pub struct Missing {
    pub entity_type: EntityType,
    pub name: Seq<char>,
    pub model: Option<Seq<char>>,
}

/// A field of a model body that has a name and no ID.
pub open spec fn member_missing(model: Seq<char>, member: SyntaxNode) -> Seq<Missing> {
    if member.kind@ == "field_definition"@ && entity_id_of(member) is None {
        match field_text(member, "name"@) {
            Some(n) => seq![Missing { entity_type: EntityType::Field, name: n, model: Some(model) }],
            None => seq![],
        }
    } else {
        seq![]
    }
}

/// A named type alias written without an ID.
pub open spec fn alias_missing(child: SyntaxNode) -> Seq<Missing> {
    if entity_id_of(child) is None {
        match field_text(child, "name"@) {
            Some(n) => seq![Missing { entity_type: EntityType::TypeAlias, name: n, model: None }],
            None => seq![],
        }
    } else {
        seq![]
    }
}

/// A model written without an ID, by its name.
pub open spec fn model_own_missing(child: SyntaxNode) -> Seq<Missing> {
    if entity_id_of(child) is None {
        seq![Missing { entity_type: EntityType::Model, name: field_text_or_empty(child, "name"@), model: None }]
    } else {
        seq![]
    }
}

/// The named fields written without an ID in a model body.
pub open spec fn fields_missing(body: SyntaxNode, model: Seq<char>) -> Seq<Missing> {
    body.children@.flat_map(|m: SyntaxNode| member_missing(model, m))
}

/// The fields written without an ID in a model's body.
pub open spec fn model_fields_missing(child: SyntaxNode) -> Seq<Missing> {
    match field_child(child, "body"@) {
        Some(body) => fields_missing(body, field_text_or_empty(child, "name"@)),
        None => seq![],
    }
}

/// The entities without an ID in one top-level node: a named type alias; a model, then
/// its fields.
pub open spec fn child_missing(child: SyntaxNode) -> Seq<Missing> {
    if child.kind@ == "type_alias"@ {
        alias_missing(child)
    } else if child.kind@ == "model_definition"@ {
        model_own_missing(child) + model_fields_missing(child)
    } else {
        seq![]
    }
}

/// All entities without an ID in a document, in document order.
pub open spec fn tree_missing(root: SyntaxNode) -> Seq<Missing> {
    root.children@.flat_map(|c: SyntaxNode| child_missing(c))
}

/// How many of the entities take a global ID.
pub open spec fn global_count(ws: Seq<Missing>) -> nat
    decreases ws.len(),
{
    if ws.len() == 0 {
        0
    } else {
        global_count(ws.drop_last()) + if ws.last().model is None { 1nat } else { 0nat }
    }
}

/// How many of the entities are fields of the model.
pub open spec fn field_count(ws: Seq<Missing>, model: Seq<char>) -> nat
    decreases ws.len(),
{
    if ws.len() == 0 {
        0
    } else {
        field_count(ws.drop_last(), model) + if ws.last().model == Some(model) { 1nat } else { 0nat }
    }
}

/// The ID that entity `k` gets: the tracker's next ID of its space, plus one for each
/// entity before it in the same space.
pub open spec fn wanted_id(t: EntityIdTracker, ws: Seq<Missing>, k: int) -> int {
    match ws[k].model {
        None => t.next_global() + global_count(ws.take(k)),
        Some(m) => t.next_field(m) + field_count(ws.take(k), m),
    }
}

/// The assignment records entity `w` with ID `id`.
pub open spec fn records(a: IdAssignment, w: Missing, id: int) -> bool {
    &&& a.entity_type == w.entity_type
    &&& a.entity_name@ == w.name
    &&& match a.model_name {
        Some(m) => w.model == Some(m@),
        None => w.model is None,
    }
    &&& a.assigned_id == id
}

/// The IDs in `[lo, hi)`.
pub open spec fn id_range(lo: u64, hi: u64) -> Set<u64> {
    Set::new(|x: u64| lo <= x < hi)
}

/// `t` is `start` after assigning IDs to the entities `ws`, in order, and `out` records
/// those assignments.
#[verifier::opaque]
pub open spec fn assigned(start: EntityIdTracker, t: EntityIdTracker, out: Seq<IdAssignment>, ws: Seq<Missing>) -> bool {
    &&& t.wf()
    &&& out.len() == ws.len()
    &&& forall|k: int| 0 <= k < ws.len() ==> records(#[trigger] out[k], ws[k], wanted_id(start, ws, k))
    &&& t.next_global() == start.next_global() + global_count(ws)
    &&& forall|m: Seq<char>| #[trigger] t.next_field(m) == start.next_field(m) + field_count(ws, m)
    &&& t.global_ids() == start.global_ids().union(id_range(start.next_global(), t.next_global()))
    &&& forall|m: Seq<char>| #[trigger] t.field_ids(m) == start.field_ids(m).union(id_range(start.next_field(m), t.next_field(m)))
}

/// Handing out IDs for `ws` stays within `u64`.
#[verifier::opaque]
pub open spec fn ids_fit(start: EntityIdTracker, ws: Seq<Missing>) -> bool {
    &&& start.next_global() + global_count(ws) < u64::MAX
    &&& forall|m: Seq<char>| #[trigger] start.next_field(m) + field_count(ws, m) < u64::MAX
}

proof fn lemma_counts_append(a: Seq<Missing>, b: Seq<Missing>)
    ensures
        global_count(a + b) == global_count(a) + global_count(b),
        forall|m: Seq<char>| #[trigger] field_count(a + b, m) == field_count(a, m) + field_count(b, m),
    decreases b.len(),
{
    if b.len() == 0 {
        assert(a + b =~= a);
    } else {
        lemma_counts_append(a, b.drop_last());
        assert((a + b).drop_last() =~= a + b.drop_last());
        assert((a + b).last() == b.last());
        assert forall|m: Seq<char>| #[trigger] field_count(a + b, m) == field_count(a, m) + field_count(b, m) by {
            assert(field_count(a + b.drop_last(), m) == field_count(a, m) + field_count(b.drop_last(), m));
        }
    }
}

proof fn lemma_fits_prefix(start: EntityIdTracker, a: Seq<Missing>, b: Seq<Missing>)
    requires
        ids_fit(start, a + b),
    ensures
        ids_fit(start, a),
{
    reveal(ids_fit);
    lemma_counts_append(a, b);
    assert forall|m: Seq<char>| #[trigger] start.next_field(m) + field_count(a, m) < u64::MAX by {
        assert(field_count(a + b, m) == field_count(a, m) + field_count(b, m));
        assert(start.next_field(m) + field_count(a + b, m) < u64::MAX);
    }
}

/// After assigning IDs to `ws`, the tracker is well formed and has room for the next
/// global ID when the rest still fits.
proof fn lemma_room_global(start: EntityIdTracker, t: EntityIdTracker, out: Seq<IdAssignment>, ws: Seq<Missing>, rest: Seq<Missing>)
    requires
        assigned(start, t, out, ws),
        ids_fit(start, ws + rest),
    ensures
        t.wf(),
        t.next_global() < u64::MAX,
{
    reveal(assigned);
    reveal(ids_fit);
    lemma_counts_append(ws, rest);
}

/// After assigning IDs to `ws`, the tracker is well formed and has room for the next
/// field ID of the model when the rest still fits.
proof fn lemma_room_field(start: EntityIdTracker, t: EntityIdTracker, out: Seq<IdAssignment>, ws: Seq<Missing>, rest: Seq<Missing>, m: Seq<char>)
    requires
        assigned(start, t, out, ws),
        ids_fit(start, ws + rest),
    ensures
        t.wf(),
        t.next_field(m) < u64::MAX,
{
    reveal(assigned);
    reveal(ids_fit);
    lemma_counts_append(ws, rest);
    assert(start.next_field(m) + field_count(ws + rest, m) < u64::MAX);
    assert(t.next_field(m) == start.next_field(m) + field_count(ws, m));
}

proof fn lemma_assigned_empty(t: EntityIdTracker)
    requires
        t.wf(),
    ensures
        assigned(t, t, Seq::empty(), Seq::empty()),
{
    reveal(assigned);
    assert(t.global_ids() =~= t.global_ids().union(id_range(t.next_global(), t.next_global())));
    assert forall|m: Seq<char>| #[trigger] t.field_ids(m) == t.field_ids(m).union(id_range(t.next_field(m), t.next_field(m))) by {
        assert(t.field_ids(m) =~= t.field_ids(m).union(id_range(t.next_field(m), t.next_field(m))));
    }
}

proof fn lemma_assigned_push(start: EntityIdTracker, b: EntityIdTracker, c: EntityIdTracker,
    out: Seq<IdAssignment>, ws: Seq<Missing>, a: IdAssignment, w: Missing)
    requires
        assigned(start, b, out, ws),
        c.wf(),
        match w.model {
            None => {
                &&& c.global_ids() == b.global_ids().insert(b.next_global())
                &&& c.next_global() == b.next_global() + 1
                &&& forall|m: Seq<char>| #[trigger] c.field_ids(m) == b.field_ids(m)
                &&& forall|m: Seq<char>| #[trigger] c.next_field(m) == b.next_field(m)
                &&& records(a, w, b.next_global() as int)
            },
            Some(model) => {
                &&& c.global_ids() == b.global_ids()
                &&& c.next_global() == b.next_global()
                &&& c.field_ids(model) == b.field_ids(model).insert(b.next_field(model))
                &&& c.next_field(model) == b.next_field(model) + 1
                &&& forall|m: Seq<char>| m != model ==> #[trigger] c.field_ids(m) == b.field_ids(m)
                &&& forall|m: Seq<char>| m != model ==> #[trigger] c.next_field(m) == b.next_field(m)
                &&& records(a, w, b.next_field(model) as int)
            },
        },
    ensures
        assigned(start, c, out.push(a), ws.push(w)),
{
    reveal(assigned);
    let ws2 = ws.push(w);
    let out2 = out.push(a);
    assert(ws2.drop_last() =~= ws);
    assert(ws2.take(ws.len() as int) =~= ws);
    assert forall|k: int| 0 <= k < ws2.len() implies records(#[trigger] out2[k], ws2[k], wanted_id(start, ws2, k)) by {
        if k < ws.len() {
            assert(ws2.take(k) =~= ws.take(k));
            assert(out2[k] == out[k]);
            assert(records(out[k], ws[k], wanted_id(start, ws, k)));
        }
    }
    match w.model {
        None => {
            assert(c.global_ids() =~= start.global_ids().union(id_range(start.next_global(), c.next_global())));
            assert forall|m: Seq<char>| #[trigger] c.field_ids(m) == start.field_ids(m).union(id_range(start.next_field(m), c.next_field(m))) by {
                assert(b.field_ids(m) == start.field_ids(m).union(id_range(start.next_field(m), b.next_field(m))));
            }
            assert forall|m: Seq<char>| #[trigger] c.next_field(m) == start.next_field(m) + field_count(ws2, m) by {
                assert(b.next_field(m) == start.next_field(m) + field_count(ws, m));
            }
        },
        Some(model) => {
            assert forall|m: Seq<char>| #[trigger] c.field_ids(m) == start.field_ids(m).union(id_range(start.next_field(m), c.next_field(m))) by {
                assert(b.field_ids(m) == start.field_ids(m).union(id_range(start.next_field(m), b.next_field(m))));
                if m == model {
                    assert(c.field_ids(m) =~= start.field_ids(m).union(id_range(start.next_field(m), c.next_field(m))));
                }
            }
            assert forall|m: Seq<char>| #[trigger] c.next_field(m) == start.next_field(m) + field_count(ws2, m) by {
                assert(b.next_field(m) == start.next_field(m) + field_count(ws, m));
            }
        },
    }
}

/// A flat map splits where its sequence does.
pub proof fn lemma_flat_map_split<A, B>(s: Seq<A>, f: spec_fn(A) -> Seq<B>, i: int)
    requires
        0 <= i <= s.len(),
    ensures
        s.flat_map(f) == s.take(i).flat_map(f) + s.skip(i).flat_map(f),
{
    assert(s =~= s.take(i) + s.skip(i));
    lemma_flat_map_append(s.take(i), s.skip(i), f);
}

/// One step of a walk over a flat map: the part up to `i + 1` is the part up to `i` and
/// item `i`'s part, and the whole is that and the rest.
pub proof fn lemma_walk_step<A, B>(done: Seq<B>, s: Seq<A>, f: spec_fn(A) -> Seq<B>, i: int)
    requires
        0 <= i < s.len(),
    ensures
        done + s.take(i + 1).flat_map(f) == (done + s.take(i).flat_map(f)) + f(s[i]),
        done + s.flat_map(f) == ((done + s.take(i).flat_map(f)) + f(s[i])) + s.skip(i + 1).flat_map(f),
{
    s.lemma_flat_map_take_append(f, i);
    lemma_flat_map_split(s, f, i + 1);
    assert(done + s.take(i + 1).flat_map(f) =~= (done + s.take(i).flat_map(f)) + f(s[i]));
    assert(done + s.flat_map(f) =~= ((done + s.take(i).flat_map(f)) + f(s[i])) + s.skip(i + 1).flat_map(f));
}

/// Assigns IDs to the fields without one in a model body.
#[verifier::spinoff_prover]
fn assign_field_ids(body: &SyntaxNode, model_name: &str, tracker: &mut EntityIdTracker, out: &mut Vec<IdAssignment>,
    Ghost(start): Ghost<EntityIdTracker>, Ghost(done): Ghost<Seq<Missing>>)
    requires
        assigned(start, *old(tracker), old(out)@, done),
        ids_fit(start, done + fields_missing(*body, model_name@)),
    ensures
        assigned(start, *final(tracker), final(out)@, done + fields_missing(*body, model_name@)),
{
    let ghost g = |m: SyntaxNode| member_missing(model_name@, m);
    let mut i: usize = 0;
    proof {
        assert(body.children@.take(0).flat_map(g) =~= Seq::<Missing>::empty()) by {
            assert(body.children@.take(0).map_values(g) =~= Seq::<Seq<Missing>>::empty());
        }
        assert(done + body.children@.take(0).flat_map(g) =~= done);
    }
    while i < body.children.len()
        invariant
            g == (|m: SyntaxNode| member_missing(model_name@, m)),
            ids_fit(start, done + body.children@.flat_map(g)),
            i <= body.children@.len(),
            assigned(start, *tracker, out@, done + body.children@.take(i as int).flat_map(g)),
        decreases body.children@.len() - i,
    {
        let member = &body.children[i];
        let ghost prefix = done + body.children@.take(i as int).flat_map(g);
        let ghost before = *tracker;
        let ghost mine = g(*member);
        proof {
            reveal_strlit("field_definition");
            reveal_strlit("name");
            lemma_walk_step(done, body.children@, g, i as int);
            lemma_fits_prefix(start, prefix + mine, body.children@.skip(i + 1).flat_map(g));
        }
        if member.is_kind("field_definition") && extract_entity_id(member).is_none() {
            match member.child_by_field_name("name") {
                Some(name_node) => {
                    let ghost w = Missing { entity_type: EntityType::Field, name: name_node.text@, model: Some(model_name@) };
                    proof {
                        assert(mine =~= seq![w]);
                        assert(prefix + mine =~= prefix.push(w));
                        lemma_room_field(start, *tracker, out@, prefix, mine, model_name@);
                    }
                    let id = tracker.next_field_id(model_name);
                    let a = IdAssignment {
                        entity_type: EntityType::Field,
                        entity_name: name_node.text.clone(),
                        model_name: Some(model_name.to_string()),
                        assigned_id: id,
                    };
                    let ghost out0 = out@;
                    out.push(a);
                    proof {
                        lemma_assigned_push(start, before, *tracker, out0, prefix, a, w);
                    }
                },
                None => {
                    proof { assert(prefix + mine =~= prefix); }
                },
            }
        } else {
            proof { assert(prefix + mine =~= prefix); }
        }
        i = i + 1;
    }
    proof { assert(body.children@.take(i as int) =~= body.children@); }
}

/// Assigns an ID to a named type alias written without one.
#[verifier::spinoff_prover]
fn assign_type_alias_id(child: &SyntaxNode, tracker: &mut EntityIdTracker, out: &mut Vec<IdAssignment>,
    Ghost(start): Ghost<EntityIdTracker>, Ghost(prefix): Ghost<Seq<Missing>>)
    requires
        child.kind@ == "type_alias"@,
        assigned(start, *old(tracker), old(out)@, prefix),
        ids_fit(start, prefix + child_missing(*child)),
    ensures
        assigned(start, *final(tracker), final(out)@, prefix + child_missing(*child)),
{
    let ghost before = *tracker;
    let ghost mine = child_missing(*child);
    proof {
        reveal_strlit("name");
        lemma_room_global(start, *tracker, out@, prefix, mine);
    }
    if extract_entity_id(child).is_none() {
        match child.child_by_field_name("name") {
            Some(name_node) => {
                let ghost w = Missing { entity_type: EntityType::TypeAlias, name: name_node.text@, model: None };
                proof { assert(mine =~= seq![w]); assert(prefix + mine =~= prefix.push(w)); }
                let id = tracker.next_global_id();
                let a = IdAssignment { entity_type: EntityType::TypeAlias, entity_name: name_node.text.clone(), model_name: None, assigned_id: id };
                let ghost out0 = out@;
                out.push(a);
                proof {
                    lemma_assigned_push(start, before, *tracker, out0, prefix, a, w);
                }
            },
            None => {
                proof { assert(prefix + mine =~= prefix); }
            },
        }
    } else {
        proof { assert(prefix + mine =~= prefix); }
    }
}

/// Assigns an ID to a model written without one.
#[verifier::spinoff_prover]
fn assign_model_own_id(child: &SyntaxNode, model_name: &String, tracker: &mut EntityIdTracker, out: &mut Vec<IdAssignment>,
    Ghost(start): Ghost<EntityIdTracker>, Ghost(prefix): Ghost<Seq<Missing>>, Ghost(rest): Ghost<Seq<Missing>>)
    requires
        model_name@ == field_text_or_empty(*child, "name"@),
        assigned(start, *old(tracker), old(out)@, prefix),
        ids_fit(start, prefix + model_own_missing(*child) + rest),
    ensures
        assigned(start, *final(tracker), final(out)@, prefix + model_own_missing(*child)),
{
    let ghost before = *tracker;
    let ghost gl = model_own_missing(*child);
    proof {
        assert(prefix + gl + rest =~= prefix + (gl + rest));
        lemma_room_global(start, *tracker, out@, prefix, gl + rest);
    }
    if extract_entity_id(child).is_none() {
        let ghost w = Missing { entity_type: EntityType::Model, name: model_name@, model: None };
        proof { assert(prefix + gl =~= prefix.push(w)); }
        let id = tracker.next_global_id();
        let a = IdAssignment { entity_type: EntityType::Model, entity_name: model_name.clone(), model_name: None, assigned_id: id };
        let ghost out0 = out@;
        out.push(a);
        proof {
            lemma_assigned_push(start, before, *tracker, out0, prefix, a, w);
        }
    } else {
        proof { assert(prefix + gl =~= prefix); }
    }
}

proof fn lemma_model_missing(child: SyntaxNode)
    requires
        child.kind@ == "model_definition"@,
    ensures
        child_missing(child) == model_own_missing(child) + model_fields_missing(child),
{
    reveal_strlit("model_definition");
    reveal_strlit("type_alias");
    assert(child.kind@[0] == 'm');
    assert(child.kind@ != "type_alias"@);
}

/// Assigns IDs to a model written without one and to its fields written without one.
#[verifier::spinoff_prover]
fn assign_model_ids(child: &SyntaxNode, tracker: &mut EntityIdTracker, out: &mut Vec<IdAssignment>,
    Ghost(start): Ghost<EntityIdTracker>, Ghost(prefix): Ghost<Seq<Missing>>)
    requires
        child.kind@ == "model_definition"@,
        assigned(start, *old(tracker), old(out)@, prefix),
        ids_fit(start, prefix + child_missing(*child)),
    ensures
        assigned(start, *final(tracker), final(out)@, prefix + child_missing(*child)),
{
    proof {
        reveal_strlit("name");
        reveal_strlit("body");
        lemma_model_missing(*child);
    }
    let model_name = child.field_text_or_empty("name");
    let ghost gl = model_own_missing(*child);
    let ghost body_missing = model_fields_missing(*child);
    let ghost mid = prefix + gl;
    proof {
        assert(prefix + child_missing(*child) =~= mid + body_missing);
    }
    assign_model_own_id(child, &model_name, tracker, out, Ghost(start), Ghost(prefix), Ghost(body_missing));
    match child.child_by_field_name("body") {
        Some(body) => {
            proof { assert(body_missing == fields_missing(*body, model_name@)); }
            assign_field_ids(body, model_name.as_str(), tracker, out, Ghost(start), Ghost(mid));
        },
        None => {
            proof {
                assert(body_missing == Seq::<Missing>::empty());
                assert(mid =~= prefix + child_missing(*child));
            }
        },
    }
}

/// Assigns IDs to the entities without one in a top-level node.
fn assign_child_ids(child: &SyntaxNode, tracker: &mut EntityIdTracker, out: &mut Vec<IdAssignment>,
    Ghost(start): Ghost<EntityIdTracker>, Ghost(prefix): Ghost<Seq<Missing>>)
    requires
        assigned(start, *old(tracker), old(out)@, prefix),
        ids_fit(start, prefix + child_missing(*child)),
    ensures
        assigned(start, *final(tracker), final(out)@, prefix + child_missing(*child)),
{
    proof {
        reveal_strlit("model_definition");
        reveal_strlit("type_alias");
    }
    if child.is_kind("type_alias") {
        assign_type_alias_id(child, tracker, out, Ghost(start), Ghost(prefix));
    } else if child.is_kind("model_definition") {
        assign_model_ids(child, tracker, out, Ghost(start), Ghost(prefix));
    } else {
        proof { assert(prefix + child_missing(*child) =~= prefix); }
    }
}

/// Gives every entity written without an ID a fresh one, in document order: named type
/// aliases and models take the next global IDs, named fields the next IDs of their
/// model. Each ID is above every ID the tracker held before, and the IDs given in one
/// space rise one by one.
pub fn assign_missing_ids(root: &SyntaxNode, tracker: &mut EntityIdTracker) -> (out: Vec<IdAssignment>)
    requires
        old(tracker).wf(),
        ids_fit(*old(tracker), tree_missing(*root)),
    ensures
        assigned(*old(tracker), *final(tracker), out@, tree_missing(*root)),
{
    let ghost start = *tracker;
    let ghost g = |c: SyntaxNode| child_missing(c);
    let mut out: Vec<IdAssignment> = Vec::new();
    proof {
        lemma_assigned_empty(start);
        assert(root.children@.take(0).flat_map(g) =~= Seq::<Missing>::empty()) by {
            assert(root.children@.take(0).map_values(g) =~= Seq::<Seq<Missing>>::empty());
        }
    }
    let mut i: usize = 0;
    while i < root.children.len()
        invariant
            g == (|c: SyntaxNode| child_missing(c)),
            root.children@.flat_map(g) == tree_missing(*root),
            ids_fit(start, root.children@.flat_map(g)),
            i <= root.children@.len(),
            assigned(start, *tracker, out@, root.children@.take(i as int).flat_map(g)),
        decreases root.children@.len() - i,
    {
        let ghost prefix = root.children@.take(i as int).flat_map(g);
        proof {
            root.children@.lemma_flat_map_take_append(g, i as int);
            lemma_flat_map_split(root.children@, g, i + 1);
            lemma_fits_prefix(start, prefix + g(root.children@[i as int]), root.children@.skip(i + 1).flat_map(g));
        }
        assign_child_ids(&root.children[i], tracker, &mut out, Ghost(start), Ghost(prefix));
        i = i + 1;
    }
    proof { assert(root.children@.take(i as int) =~= root.children@); }
    out
}

/// Every ID a well-formed tracker holds is below the next one of its space.
pub proof fn lemma_ids_below_next(t: EntityIdTracker)
    requires
        t.wf(),
    ensures
        forall|x: u64| t.global_ids().contains(x) ==> x < t.next_global(),
        forall|m: Seq<char>, x: u64| #[trigger] t.field_ids(m).contains(x) ==> x < t.next_field(m),
{
    assert forall|x: u64| t.global_ids().contains(x) implies x < t.next_global() by {
        let j = choose|j: int| 0 <= j < t.global_ids@.len() && t.global_ids@[j] == x;
    }
    assert forall|m: Seq<char>, x: u64| #[trigger] t.field_ids(m).contains(x) implies x < t.next_field(m) by {
        let k = choose|k: int| 0 <= k < t.models@.len() && #[trigger] t.models@[k].name@ == m && t.models@[k].ids@.contains(x);
        t.lemma_next_field(m, k);
        let j = choose|j: int| 0 <= j < t.models@[k].ids@.len() && t.models@[k].ids@[j] == x;
    }
}

/// Assigned IDs are fresh: no ID that formatting hands out was in use before, and two
/// entities given IDs in the same space get different ones.
pub proof fn law_assigned_ids_fresh(start: EntityIdTracker, t: EntityIdTracker, out: Seq<IdAssignment>, ws: Seq<Missing>)
    requires
        start.wf(),
        assigned(start, t, out, ws),
    ensures
        forall|k: int| 0 <= k < ws.len() && ws[k].model is None ==> !start.global_ids().contains(#[trigger] out[k].assigned_id),
        forall|k: int| 0 <= k < ws.len() && ws[k].model is Some
            ==> !start.field_ids(ws[k].model->0).contains(#[trigger] out[k].assigned_id),
        forall|k: int, l: int| 0 <= k < l < ws.len() && ws[k].model == ws[l].model
            ==> #[trigger] out[k].assigned_id < #[trigger] out[l].assigned_id,
{
    reveal(assigned);
    lemma_ids_below_next(start);
    assert forall|k: int| 0 <= k < ws.len() && ws[k].model is None implies !start.global_ids().contains(#[trigger] out[k].assigned_id) by {
        assert(records(out[k], ws[k], wanted_id(start, ws, k)));
    }
    assert forall|k: int| 0 <= k < ws.len() && ws[k].model is Some
        implies !start.field_ids(ws[k].model->0).contains(#[trigger] out[k].assigned_id) by {
        assert(records(out[k], ws[k], wanted_id(start, ws, k)));
    }
    assert forall|k: int, l: int| 0 <= k < l < ws.len() && ws[k].model == ws[l].model
        implies #[trigger] out[k].assigned_id < #[trigger] out[l].assigned_id by {
        assert(records(out[k], ws[k], wanted_id(start, ws, k)));
        assert(records(out[l], ws[l], wanted_id(start, ws, l)));
        assert(ws.take(l) =~= ws.take(k + 1) + ws.take(l).skip(k + 1));
        lemma_counts_append(ws.take(k + 1), ws.take(l).skip(k + 1));
        assert(ws.take(k + 1).drop_last() =~= ws.take(k));
        assert(ws.take(k + 1).last() == ws[k]);
    }
}

} // verus!
