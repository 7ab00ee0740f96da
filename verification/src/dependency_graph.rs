use vstd::prelude::*;

use crate::diagnostics::Diagnostic;
use crate::paths::{contains_text, path_key, resolve_relative, sort_paths, spec_path_key, spec_resolve_relative, spec_path_le, spec_sorted_paths, views};

verus! {

/// The edges of a graph as text: each pair `(child, parent)` says that `child` extends `parent`.
pub type Edges = Seq<(Seq<char>, Seq<char>)>;

/// One step through the graph: from a file to a file it extends when `up`,
/// from a file to a file that extends it otherwise.
pub open spec fn step(g: Edges, up: bool, a: Seq<char>, b: Seq<char>) -> bool {
    exists|i: int| 0 <= i < g.len() && (if up { g[i] == (a, b) } else { g[i] == (b, a) })
}

/// A walk of at least one step through the graph.
pub open spec fn is_walk(g: Edges, up: bool, p: Seq<Seq<char>>) -> bool {
    &&& p.len() >= 2
    &&& forall|k: int| 0 <= k < p.len() - 1 ==> #[trigger] step(g, up, p[k], p[k + 1])
}

/// `b` can be reached from `a` in one or more steps.
pub open spec fn reaches(g: Edges, up: bool, a: Seq<char>, b: Seq<char>) -> bool {
    exists|p: Seq<Seq<char>>| #[trigger] is_walk(g, up, p) && p[0] == a && p.last() == b
}

/// The files that a step can lead to: the parents (`up`) or the children of each edge.
pub open spec fn targets(g: Edges, up: bool) -> Seq<Seq<char>> {
    g.map_values(|e: (Seq<char>, Seq<char>)| if up { e.1 } else { e.0 })
}

/// A list of paths sorted as `PathBuf`s that holds each file reachable from `file`, once.
pub open spec fn is_sorted_closure(g: Edges, up: bool, file: Seq<char>, r: Seq<Seq<char>>) -> bool {
    &&& r.no_duplicates()
    &&& forall|x: Seq<char>| r.contains(x) <==> reaches(g, up, file, x)
    &&& forall|i: int, j: int| 0 <= i < j < r.len() ==> spec_path_le(#[trigger] r[i], #[trigger] r[j])
    &&& exists|unsorted: Seq<Seq<char>>| r == spec_sorted_paths(unsorted)
}

/// Every file of the edges is in component form (its own `spec_path_key`), as the
/// edges that `add_dependency` and `build` record are.
pub open spec fn keyed(g: Edges) -> bool {
    forall|i: int| 0 <= i < g.len() ==> spec_path_key((#[trigger] g[i]).0) == g[i].0 && spec_path_key(g[i].1) == g[i].1
}

/// A file reached in one or more steps is the end of some edge.
proof fn lemma_reached_is_keyed(g: Edges, up: bool, a: Seq<char>, x: Seq<char>)
    requires
        keyed(g),
        reaches(g, up, a, x),
    ensures
        spec_path_key(x) == x,
{
    let p = choose|p: Seq<Seq<char>>| #[trigger] is_walk(g, up, p) && p[0] == a && p.last() == x;
    let k = p.len() - 2;
    assert(step(g, up, p[k], p[k + 1]));
    let i = choose|i: int| 0 <= i < g.len() && (if up { g[i] == (p[k], p[k + 1]) } else { g[i] == (p[k + 1], p[k]) });
    assert(keyed(g) ==> spec_path_key(g[i].0) == g[i].0 && spec_path_key(g[i].1) == g[i].1);
}

/// A bidirectional dependency graph for CDM files.
///
/// It records which files a file extends (its dependencies, or parents) and, the
/// other way round, which files extend a file (its dependents, or children).
/// Paths are compared as a `PathBuf`-keyed map compares them: each is held in its
/// component form (see `spec_path_key`).
#[derive(Debug)]
pub struct DependencyGraph {
    edges: Vec<(String, String)>,
}

/// A path written in an `extends` directive, with the canonical path it resolved to
/// (`None` when no such file exists).
pub struct ResolvedExtends {
    pub written: String,
    pub canonical: Option<String>,
}

impl View for DependencyGraph {
    type V = Edges;

    closed spec fn view(&self) -> Edges {
        self.edges@.map_values(|e: (String, String)| (e.0@, e.1@))
    }
}

proof fn lemma_walk_extend(g: Edges, up: bool, p: Seq<Seq<char>>, y: Seq<char>)
    requires
        is_walk(g, up, p),
        step(g, up, p.last(), y),
    ensures
        is_walk(g, up, p.push(y)),
        p.push(y)[0] == p[0],
        p.push(y).last() == y,
{
    let q = p.push(y);
    assert forall|k: int| 0 <= k < q.len() - 1 implies #[trigger] step(g, up, q[k], q[k + 1]) by {
        if k < p.len() - 1 {
            assert(q[k] == p[k] && q[k + 1] == p[k + 1]);
        } else {
            assert(q[k] == p.last());
        }
    }
}

proof fn lemma_one_step(g: Edges, up: bool, a: Seq<char>, b: Seq<char>)
    requires
        step(g, up, a, b),
    ensures
        reaches(g, up, a, b),
{
    let p = seq![a, b];
    assert(step(g, up, p[0], p[1]));
    assert(is_walk(g, up, p));
}

proof fn lemma_reaches_extend(g: Edges, up: bool, a: Seq<char>, x: Seq<char>, y: Seq<char>)
    requires
        reaches(g, up, a, x),
        step(g, up, x, y),
    ensures
        reaches(g, up, a, y),
{
    let p = choose|p: Seq<Seq<char>>| #[trigger] is_walk(g, up, p) && p[0] == a && p.last() == x;
    lemma_walk_extend(g, up, p, y);
}

/// Every file reachable from `a` is in any set that holds the first steps from `a`
/// and is closed under steps.
proof fn lemma_closed_holds_reachable(g: Edges, up: bool, a: Seq<char>, r: Seq<Seq<char>>, b: Seq<char>)
    requires
        forall|y: Seq<char>| step(g, up, a, y) ==> r.contains(y),
        forall|x: Seq<char>, y: Seq<char>| r.contains(x) && step(g, up, x, y) ==> r.contains(y),
        reaches(g, up, a, b),
    ensures
        r.contains(b),
{
    let p = choose|p: Seq<Seq<char>>| #[trigger] is_walk(g, up, p) && p[0] == a && p.last() == b;
    lemma_walk_prefix_in(g, up, p, r, (p.len() - 1) as nat);
}

proof fn lemma_walk_prefix_in(g: Edges, up: bool, p: Seq<Seq<char>>, r: Seq<Seq<char>>, k: nat)
    requires
        is_walk(g, up, p),
        1 <= k < p.len(),
        forall|y: Seq<char>| step(g, up, p[0], y) ==> r.contains(y),
        forall|x: Seq<char>, y: Seq<char>| r.contains(x) && step(g, up, x, y) ==> r.contains(y),
    ensures
        r.contains(p[k as int]),
    decreases k,
{
    if k == 1 {
        assert(step(g, up, p[0], p[0int + 1]));
    } else {
        lemma_walk_prefix_in(g, up, p, r, (k - 1) as nat);
        assert(step(g, up, p[k - 1], p[(k - 1) + 1]));
    }
}

/// A list without repeats whose items are all among `t` is no longer than `t`.
pub(crate) proof fn lemma_bounded_by_targets(r: Seq<Seq<char>>, t: Seq<Seq<char>>)
    requires
        r.no_duplicates(),
        forall|j: int| 0 <= j < r.len() ==> t.contains(#[trigger] r[j]),
    ensures
        r.len() <= t.len(),
{
    r.unique_seq_to_set();
    t.lemma_cardinality_of_set();
    assert(r.to_set().subset_of(t.to_set()));
    vstd::set_lib::lemma_len_subset(r.to_set(), t.to_set());
}

/// What a list holds stays in any list that extends it.
proof fn lemma_prefix_contains(a: Seq<String>, b: Seq<String>, y: Seq<char>)
    requires
        a.len() <= b.len(),
        forall|j: int| 0 <= j < a.len() ==> #[trigger] b[j] == a[j],
        views(a).contains(y),
    ensures
        views(b).contains(y),
{
    let j = choose|j: int| 0 <= j < views(a).len() && views(a)[j] == y;
    assert(b[j] == a[j]);
    assert(views(b)[j] == y);
}

/// Law: `x` is among the files that (transitively) extend `file` exactly when `file`
/// is among the files that `x` (transitively) extends; so `get_all_dependents` and
/// `get_all_dependencies` are inverse relations on every graph.
pub proof fn law_dependents_mirror_dependencies(g: Edges, file: Seq<char>, x: Seq<char>)
    ensures
        reaches(g, false, file, x) <==> reaches(g, true, x, file),
{
    if reaches(g, false, file, x) {
        let p = choose|p: Seq<Seq<char>>| #[trigger] is_walk(g, false, p) && p[0] == file && p.last() == x;
        lemma_reverse_walk(g, false, true, p);
    }
    if reaches(g, true, x, file) {
        let p = choose|p: Seq<Seq<char>>| #[trigger] is_walk(g, true, p) && p[0] == x && p.last() == file;
        lemma_reverse_walk(g, true, false, p);
    }
}

proof fn lemma_reverse_walk(g: Edges, up: bool, down: bool, p: Seq<Seq<char>>)
    requires
        is_walk(g, up, p),
        down == !up,
    ensures
        is_walk(g, down, p.reverse()),
        p.reverse()[0] == p.last(),
        p.reverse().last() == p[0],
{
    let q = p.reverse();
    let n = p.len();
    assert forall|k: int| 0 <= k < q.len() - 1 implies #[trigger] step(g, down, q[k], q[k + 1]) by {
        let m = n - 2 - k;
        assert(step(g, up, p[m], p[m + 1]));
        assert(q[k] == p[n - 1 - k]);
        assert(q[k + 1] == p[n - 1 - (k + 1)]);
        let i = choose|i: int| 0 <= i < g.len() && (if up { g[i] == (p[m], p[m + 1]) } else { g[i] == (p[m + 1], p[m]) });
    }
}

/// Law: extending is transitive; if `a` depends on `b` and `b` depends on `c`, then
/// `a` depends on `c` (in either direction of the graph).
pub proof fn law_reaches_transitive(g: Edges, up: bool, a: Seq<char>, b: Seq<char>, c: Seq<char>)
    requires
        reaches(g, up, a, b),
        reaches(g, up, b, c),
    ensures
        reaches(g, up, a, c),
{
    let p = choose|p: Seq<Seq<char>>| #[trigger] is_walk(g, up, p) && p[0] == a && p.last() == b;
    let q = choose|q: Seq<Seq<char>>| #[trigger] is_walk(g, up, q) && q[0] == b && q.last() == c;
    let w = p + q.drop_first();
    assert forall|k: int| 0 <= k < w.len() - 1 implies #[trigger] step(g, up, w[k], w[k + 1]) by {
        if k < p.len() - 1 {
            assert(step(g, up, p[k], p[k + 1]));
        } else if k == p.len() - 1 {
            assert(w[k] == q[0]);
            assert(w[k + 1] == q[1]);
            assert(step(g, up, q[0], q[0int + 1]));
        } else {
            let m = k - p.len() + 1;
            assert(w[k] == q[m]);
            assert(w[k + 1] == q[m + 1]);
            assert(step(g, up, q[m], q[m + 1]));
        }
    }
    assert(w.last() == q.last());
    assert(is_walk(g, up, w));
}

/// Law: every direct dependent (or dependency) is also a transitive one.
pub proof fn law_direct_within_all(g: Edges, up: bool, file: Seq<char>, x: Seq<char>)
    requires
        step(g, up, file, x),
    ensures
        reaches(g, up, file, x),
{
    lemma_one_step(g, up, file, x);
}

/// Whether a written `extends` target resolved to the canonical path `p`.
pub open spec fn resolves_to(r: ResolvedExtends, p: Seq<char>) -> bool {
    match r.canonical {
        Some(t) => t@ == p,
        None => false,
    }
}

/// Whether some written `extends` target resolved to a canonical path of `files` whose
/// component form is `p`.
pub open spec fn resolves_to_key(files: Seq<String>, r: ResolvedExtends, p: Seq<char>) -> bool {
    match r.canonical {
        Some(t) => spec_path_key(t@) == p && views(files).contains(t@),
        None => false,
    }
}

/// The edges that `build` records: from `files[i]` to each canonical target written in it
/// that is itself one of `files`, both in component form.
pub open spec fn built_edge(files: Seq<String>, extends: Seq<Vec<ResolvedExtends>>, c: Seq<char>, p: Seq<char>) -> bool {
    exists|i: int, j: int|
        0 <= i < files.len() && i < extends.len() && 0 <= j < extends[i]@.len()
        && spec_path_key(files[i]@) == c
        && resolves_to_key(files, #[trigger] extends[i]@[j], p)
}

impl DependencyGraph {
    /// Create an empty dependency graph.
    pub fn new() -> (g: Self)
        ensures
            g@ == Seq::<(Seq<char>, Seq<char>)>::empty(),
            keyed(g@),
    {
        DependencyGraph { edges: Vec::new() }
    }

    /// Build a dependency graph from the files of a project and, for the file at each
    /// index, the `extends` targets written in it, resolved to canonical paths.
    ///
    /// Only targets that are themselves files of the project become edges. A target that
    /// did not resolve is skipped; it only ever gives a warning, so the graph is always
    /// returned.
    pub fn build(files: &[String], extends: &[Vec<ResolvedExtends>]) -> (r: Result<Self, Vec<Diagnostic>>)
        requires
            files@.len() == extends@.len(),
        ensures
            r is Ok,
            forall|c: Seq<char>, p: Seq<char>|
                step(r->Ok_0@, true, c, p) <==> built_edge(files@, extends@, c, p),
            keyed(r->Ok_0@),
    {
        let mut graph = DependencyGraph::new();
        let mut i: usize = 0;
        while i < files.len()
            invariant
                keyed(graph@),
                i <= files@.len(),
                files@.len() == extends@.len(),
                forall|c: Seq<char>, p: Seq<char>|
                    step(graph@, true, c, p) <==> (exists|ii: int, j: int|
                        0 <= ii < i && 0 <= j < extends@[ii]@.len()
                        && spec_path_key(files@[ii]@) == c
                        && resolves_to_key(files@, #[trigger] extends@[ii]@[j], p)),
            decreases files@.len() - i,
        {
            let targets = &extends[i];
            let mut j: usize = 0;
            while j < targets.len()
                invariant
                    keyed(graph@),
                    i < files@.len(),
                    files@.len() == extends@.len(),
                    j <= targets@.len(),
                    targets == &extends@[i as int],
                    forall|c: Seq<char>, p: Seq<char>|
                        step(graph@, true, c, p) <==> ((exists|ii: int, jj: int|
                            0 <= ii < i && 0 <= jj < extends@[ii]@.len()
                            && spec_path_key(files@[ii]@) == c
                            && resolves_to_key(files@, #[trigger] extends@[ii]@[jj], p))
                        || (exists|jj: int| 0 <= jj < j && spec_path_key(files@[i as int]@) == c
                            && resolves_to_key(files@, #[trigger] targets@[jj], p))),
                decreases targets@.len() - j,
            {
                match &targets[j].canonical {
                    Some(canonical) => {
                        if contains_text(files, canonical.as_str()) {
                            graph.add_dependency(files[i].clone(), canonical.clone());
                        }
                    },
                    None => {},
                }
                j = j + 1;
            }
            i = i + 1;
        }
        Ok(graph)
    }

    /// Record that `child` extends `parent`, as paths compare in a `PathBuf`-keyed map:
    /// both are kept in their component form (`Path::components` collected), so two
    /// spellings of one path are one node. Recording an edge twice has no effect.
    pub fn add_dependency(&mut self, child: String, parent: String)
        ensures
            forall|c: Seq<char>, p: Seq<char>|
                step(final(self)@, true, c, p) <==> (step(old(self)@, true, c, p)
                    || (c == spec_path_key(child@) && p == spec_path_key(parent@))),
            keyed(old(self)@) ==> keyed(final(self)@),
    {
        let c = path_key(child.as_str());
        let p = path_key(parent.as_str());
        self.add_edge(c, p);
    }

    /// Record that `child` extends `parent`, comparing the two as text. Recording an
    /// edge twice has no effect.
    pub(crate) fn add_edge(&mut self, child: String, parent: String)
        ensures
            forall|c: Seq<char>, p: Seq<char>|
                step(final(self)@, true, c, p) <==> (step(old(self)@, true, c, p) || (c == child@ && p == parent@)),
            keyed(old(self)@) && spec_path_key(child@) == child@ && spec_path_key(parent@) == parent@ ==> keyed(final(self)@),
            final(self)@ == old(self)@ || final(self)@ == old(self)@.push((child@, parent@)),
    {
        let mut i: usize = 0;
        while i < self.edges.len()
            invariant
                i <= self.edges@.len(),
                forall|j: int| 0 <= j < i ==> !(self.edges@[j].0@ == child@ && self.edges@[j].1@ == parent@),
            decreases self.edges@.len() - i,
        {
            if crate::paths::str_eq(self.edges[i].0.as_str(), child.as_str())
                && crate::paths::str_eq(self.edges[i].1.as_str(), parent.as_str()) {
                assert(self@[i as int] == (child@, parent@));
                return;
            }
            i = i + 1;
        }
        let ghost old_g = self@;
        self.edges.push((child, parent));
        proof {
            let g = self@;
            assert(g.len() == old_g.len() + 1);
            assert forall|c: Seq<char>, p: Seq<char>|
                step(g, true, c, p) <==> (step(old_g, true, c, p) || (c == child@ && p == parent@)) by {
                if step(old_g, true, c, p) {
                    let j = choose|j: int| 0 <= j < old_g.len() && old_g[j] == (c, p);
                    assert(g[j] == old_g[j]);
                }
                if c == child@ && p == parent@ {
                    assert(g[old_g.len() as int] == (c, p));
                }
                if step(g, true, c, p) {
                    let j = choose|j: int| 0 <= j < g.len() && g[j] == (c, p);
                    if j < old_g.len() {
                        assert(old_g[j] == g[j]);
                    }
                }
            }
            assert(g =~= old_g.push((child@, parent@)));
            if keyed(old_g) && spec_path_key(child@) == child@ && spec_path_key(parent@) == parent@ {
                assert forall|i: int| 0 <= i < g.len() implies spec_path_key((#[trigger] g[i]).0) == g[i].0 && spec_path_key(g[i].1) == g[i].1 by {
                    if i < old_g.len() {
                        assert(g[i] == old_g[i]);
                    }
                }
            }
        }
    }

    /// Appends to `result` each file one step from `x` that it does not hold yet.
    fn add_successors(&self, x: &String, up: bool, result: &mut Vec<String>)
        requires
            views(old(result)@).no_duplicates(),
        ensures
            views(final(result)@).no_duplicates(),
            final(result)@.len() >= old(result)@.len(),
            forall|j: int| 0 <= j < old(result)@.len() ==> #[trigger] final(result)@[j] == old(result)@[j],
            forall|j: int| old(result)@.len() <= j < final(result)@.len() ==> step(self@, up, x@, #[trigger] final(result)@[j]@),
            forall|y: Seq<char>| step(self@, up, x@, y) ==> views(final(result)@).contains(y),
            forall|j: int| 0 <= j < final(result)@.len() && !(0 <= j < old(result)@.len())
                ==> targets(self@, up).contains(#[trigger] final(result)@[j]@),
    {
        let ghost g = self@;
        let mut k: usize = 0;
        while k < self.edges.len()
            invariant
                g == self@,
                k <= self.edges@.len(),
                views(result@).no_duplicates(),
                result@.len() >= old(result)@.len(),
                forall|j: int| 0 <= j < old(result)@.len() ==> #[trigger] result@[j] == old(result)@[j],
                forall|j: int| old(result)@.len() <= j < result@.len() ==> step(g, up, x@, #[trigger] result@[j]@),
                forall|j: int| old(result)@.len() <= j < result@.len() ==> targets(g, up).contains(#[trigger] result@[j]@),
                forall|i: int, y: Seq<char>| 0 <= i < k && (if up { g[i] == (x@, y) } else { g[i] == (y, x@) })
                    ==> views(result@).contains(y),
            decreases self.edges@.len() - k,
        {
            let from = if up { &self.edges[k].0 } else { &self.edges[k].1 };
            let to = if up { &self.edges[k].1 } else { &self.edges[k].0 };
            proof {
                assert(g[k as int] == (self.edges@[k as int].0@, self.edges@[k as int].1@));
            }
            if crate::paths::str_eq(from.as_str(), x.as_str()) && !contains_text(result.as_slice(), to.as_str()) {
                let ghost before = result@;
                result.push(to.clone());
                proof {
                    assert(views(result@) =~= views(before).push(to@));
                    assert(targets(g, up)[k as int] == to@);
                    assert(step(g, up, x@, to@));
                    assert forall|i: int, j: int| 0 <= i < j < views(result@).len()
                        implies views(result@)[i] != views(result@)[j] by {
                        if j == before.len() {
                            assert(views(before)[i] == views(result@)[i]);
                        } else {
                            assert(views(before)[i] == views(result@)[i]);
                            assert(views(before)[j] == views(result@)[j]);
                        }
                    }
                    assert forall|i: int, y: Seq<char>| 0 <= i < k + 1 && (if up { g[i] == (x@, y) } else { g[i] == (y, x@) })
                        implies views(result@).contains(y) by {
                        if i < k {
                            lemma_prefix_contains(before, result@, y);
                        } else {
                            assert(views(result@)[before.len() as int] == y);
                        }
                    }
                }
            } else {
                proof {
                    assert forall|i: int, y: Seq<char>| 0 <= i < k + 1 && (if up { g[i] == (x@, y) } else { g[i] == (y, x@) })
                        implies views(result@).contains(y) by {
                        if i == k {
                            assert(from@ == x@);
                            assert(y == to@);
                        }
                    }
                }
            }
            k = k + 1;
        }
        proof {
            assert forall|y: Seq<char>| step(g, up, x@, y) implies views(result@).contains(y) by {
                let i = choose|i: int| 0 <= i < g.len() && (if up { g[i] == (x@, y) } else { g[i] == (y, x@) });
            }
        }
    }

    /// All files reachable from `file` in the given direction, each once, in the
    /// order they were found.
    pub(crate) fn reachable(&self, file: &String, up: bool) -> (r: Vec<String>)
        ensures
            views(r@).no_duplicates(),
            forall|x: Seq<char>| views(r@).contains(x) <==> reaches(self@, up, file@, x),
    {
        let ghost g = self@;
        let mut result: Vec<String> = Vec::new();
        assert(views(result@) =~= Seq::<Seq<char>>::empty());
        self.add_successors(file, up, &mut result);
        proof {
            assert forall|j: int| 0 <= j < result@.len() implies reaches(g, up, file@, #[trigger] result@[j]@) by {
                lemma_one_step(g, up, file@, result@[j]@);
            }
        }
        let mut i: usize = 0;
        while i < result.len()
            invariant
                g == self@,
                i <= result@.len(),
                views(result@).no_duplicates(),
                forall|j: int| 0 <= j < result@.len() ==> reaches(g, up, file@, #[trigger] result@[j]@),
                forall|j: int| 0 <= j < result@.len() ==> targets(g, up).contains(#[trigger] result@[j]@),
                forall|y: Seq<char>| step(g, up, file@, y) ==> views(result@).contains(y),
                forall|j: int, y: Seq<char>| 0 <= j < i && step(g, up, result@[j]@, y) ==> views(result@).contains(y),
            decreases targets(g, up).len() - i,
        {
            let x = result[i].clone();
            let ghost before = result@;
            self.add_successors(&x, up, &mut result);
            proof {
                assert forall|j: int| 0 <= j < result@.len() implies reaches(g, up, file@, #[trigger] result@[j]@) by {
                    if j >= before.len() {
                        lemma_reaches_extend(g, up, file@, x@, result@[j]@);
                    } else {
                        assert(result@[j] == before[j]);
                    }
                }
                assert forall|j: int| 0 <= j < result@.len() implies targets(g, up).contains(#[trigger] result@[j]@) by {
                    if j < before.len() {
                        assert(result@[j] == before[j]);
                    }
                }
                assert forall|y: Seq<char>| step(g, up, file@, y) implies views(result@).contains(y) by {
                    lemma_prefix_contains(before, result@, y);
                }
                assert forall|j: int, y: Seq<char>| 0 <= j < i + 1 && step(g, up, result@[j]@, y)
                    implies views(result@).contains(y) by {
                    if j < i {
                        assert(result@[j] == before[j]);
                        lemma_prefix_contains(before, result@, y);
                    } else {
                        assert(result@[j] == before[j]);
                    }
                }
                assert forall|j: int| 0 <= j < views(result@).len() implies targets(g, up).contains(#[trigger] views(result@)[j]) by {
                    assert(views(result@)[j] == result@[j]@);
                }
                lemma_bounded_by_targets(views(result@), targets(g, up));
            }
            i = i + 1;
        }
        proof {
            let r = views(result@);
            assert forall|a: Seq<char>, y: Seq<char>| r.contains(a) && step(g, up, a, y) implies r.contains(y) by {
                let j = choose|j: int| 0 <= j < r.len() && r[j] == a;
                assert(r[j] == result@[j]@);
                assert(step(g, up, result@[j]@, y));
            }
            assert forall|x: Seq<char>| r.contains(x) implies reaches(g, up, file@, x) by {
                let j = choose|j: int| 0 <= j < r.len() && r[j] == x;
                assert(r[j] == result@[j]@);
                assert(reaches(g, up, file@, result@[j]@));
            }
            assert forall|x: Seq<char>| reaches(g, up, file@, x) implies r.contains(x) by {
                lemma_closed_holds_reachable(g, up, file@, r, x);
            }
        }
        result
    }

    /// All files reachable from `file` in the given direction, sorted as paths.
    fn closure(&self, file: &String, up: bool) -> (r: Vec<String>)
        ensures
            is_sorted_closure(self@, up, file@, views(r@)),
            keyed(self@) ==> forall|i: int, j: int| 0 <= i < j < r@.len() ==> !spec_path_le(#[trigger] views(r@)[j], #[trigger] views(r@)[i]),
    {
        let result = self.reachable(file, up);
        let ghost g = self@;
        let ghost unsorted = views(result@);
        let sorted = sort_paths(result);
        proof {
            let r = views(sorted@);
            unsorted.lemma_multiset_has_no_duplicates();
            assert forall|x: Seq<char>| r.to_multiset().contains(x) implies r.to_multiset().count(x) == 1 by {
                unsorted.to_multiset_ensures();
                r.to_multiset_ensures();
            }
            r.lemma_multiset_has_no_duplicates_conv();
            assert forall|x: Seq<char>| r.contains(x) <==> reaches(g, up, file@, x) by {
                unsorted.to_multiset_ensures();
                r.to_multiset_ensures();
                assert(r.to_multiset().count(x) == unsorted.to_multiset().count(x));
                assert(unsorted.contains(x) <==> reaches(g, up, file@, x));
            }
        }
        proof {
            let r = views(sorted@);
            if keyed(g) {
                assert forall|i: int, j: int| 0 <= i < j < sorted@.len() implies !spec_path_le(#[trigger] views(sorted@)[j], #[trigger] views(sorted@)[i]) by {
                    assert(r.contains(r[i]) && r.contains(r[j]));
                    lemma_reached_is_keyed(g, up, file@, r[i]);
                    lemma_reached_is_keyed(g, up, file@, r[j]);
                    assert(r[i] != r[j]);
                }
            }
        }
        sorted
    }

    /// All files that directly or transitively extend `file`, sorted as paths.
    pub fn get_all_dependents(&self, file: &String) -> (r: Vec<String>)
        ensures
            is_sorted_closure(self@, false, spec_path_key(file@), views(r@)),
            keyed(self@) ==> forall|i: int, j: int| 0 <= i < j < r@.len() ==> !spec_path_le(#[trigger] views(r@)[j], #[trigger] views(r@)[i]),
    {
        let k = path_key(file.as_str());
        self.closure(&k, false)
    }

    /// All files that `file` directly or transitively extends, sorted as paths.
    pub fn get_all_dependencies(&self, file: &String) -> (r: Vec<String>)
        ensures
            is_sorted_closure(self@, true, spec_path_key(file@), views(r@)),
            keyed(self@) ==> forall|i: int, j: int| 0 <= i < j < r@.len() ==> !spec_path_le(#[trigger] views(r@)[j], #[trigger] views(r@)[i]),
    {
        let k = path_key(file.as_str());
        self.closure(&k, true)
    }

    /// Whether `child` directly or transitively extends `parent`.
    pub fn depends_on(&self, child: &String, parent: &String) -> (b: bool)
        ensures
            b == reaches(self@, true, spec_path_key(child@), spec_path_key(parent@)),
    {
        let deps = self.get_all_dependencies(child);
        let k = path_key(parent.as_str());
        contains_text(deps.as_slice(), k.as_str())
    }

    /// The files one step from `file` in the given direction, each once, in the order
    /// their edges were recorded.
    fn direct(&self, file: &String, up: bool) -> (r: Vec<String>)
        ensures
            views(r@).no_duplicates(),
            forall|x: Seq<char>| views(r@).contains(x) <==> step(self@, up, file@, x),
    {
        let mut r: Vec<String> = Vec::new();
        assert(views(r@) =~= Seq::<Seq<char>>::empty());
        self.add_successors(file, up, &mut r);
        proof {
            assert forall|x: Seq<char>| views(r@).contains(x) implies step(self@, up, file@, x) by {
                let j = choose|j: int| 0 <= j < views(r@).len() && views(r@)[j] == x;
                assert(step(self@, up, file@, r@[j]@));
            }
        }
        r
    }

    /// The files that directly extend `file` (its children).
    pub fn direct_dependents(&self, file: &String) -> (r: Vec<String>)
        ensures
            views(r@).no_duplicates(),
            forall|x: Seq<char>| views(r@).contains(x) <==> step(self@, false, spec_path_key(file@), x),
    {
        let k = path_key(file.as_str());
        self.direct(&k, false)
    }

    /// The files that `file` directly extends (its parents).
    pub fn direct_dependencies(&self, file: &String) -> (r: Vec<String>)
        ensures
            views(r@).no_duplicates(),
            forall|x: Seq<char>| views(r@).contains(x) <==> step(self@, true, spec_path_key(file@), x),
    {
        let k = path_key(file.as_str());
        self.direct(&k, true)
    }
}

} // verus!
