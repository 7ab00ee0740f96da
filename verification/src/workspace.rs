use vstd::prelude::*;

use crate::dependency_graph::{is_walk, reaches, step, DependencyGraph, Edges};
use crate::lsp_extras::{extract_extends_directives, subtree_extends};
use crate::migrate_flow::spec_is_absolute;
use crate::paths::{contains_text, path_join, path_parent, spec_path_join, spec_path_parent, str_eq, views};
use crate::syntax::SyntaxNode;
use crate::uri_table::{self, has_key, keys_distinct, table_map, value_at, Entry};

verus! {

broadcast use vstd::string::group_string_axioms;

/// What `Url::to_file_path` gives for the URL written as `uri`, as text.
pub uninterp spec fn spec_uri_file_path(uri: Seq<char>) -> Option<Seq<char>>;

/// What `Url::from_file_path` gives for a path, as the URL's text.
pub uninterp spec fn spec_file_path_uri(path: Seq<char>) -> Option<Seq<char>>;

/// `Url::parse` then `Url::to_file_path`: the local path that a `file:` URL names.
/// Trusted: the result is the named value of the URL's text; nothing more is claimed.
#[verifier::external_body]
fn uri_to_file_path(uri: &str) -> (r: Option<String>)
    ensures
        match r {
            Some(p) => spec_uri_file_path(uri@) == Some(p@),
            None => spec_uri_file_path(uri@) is None,
        },
{
    let url = tower_lsp::lsp_types::Url::parse(uri).ok()?;
    let path = url.to_file_path().ok()?;
    Some(path.to_string_lossy().into_owned())
}

/// `Url::from_file_path`: the `file:` URL of a path, as text.
/// Trusted: the result is the named value of the path, and, as the url crate's source
/// shows, there is none for a path that is not absolute.
#[verifier::external_body]
fn file_path_to_uri(path: &str) -> (r: Option<String>)
    ensures
        match r {
            Some(u) => spec_file_path_uri(path@) == Some(u@),
            None => spec_file_path_uri(path@) is None,
        },
        !spec_is_absolute(path@) ==> r is None,
{
    let url = tower_lsp::lsp_types::Url::from_file_path(path).ok()?;
    Some(url.as_str().to_string())
}

/// The URL of `path` written in the document at `base`: the path joined to the
/// document's directory.
pub open spec fn spec_resolve_path_to_uri(base: Seq<char>, path: Seq<char>) -> Option<Seq<char>> {
    match spec_uri_file_path(base) {
        None => None,
        Some(file) => match spec_path_parent(file) {
            None => None,
            Some(dir) => spec_file_path_uri(spec_path_join(dir, path)),
        },
    }
}

/// Resolves a path written in the document at `base_uri` to the URL of the file it
/// names; `None` when the document is not a local file or the result is no URL.
pub fn resolve_path_to_uri(base_uri: &str, path: &str) -> (r: Option<String>)
    ensures
        match r {
            Some(u) => spec_resolve_path_to_uri(base_uri@, path@) == Some(u@),
            None => spec_resolve_path_to_uri(base_uri@, path@) is None,
        },
{
    let file = match uri_to_file_path(base_uri) {
        Some(f) => f,
        None => return None,
    };
    let dir = match path_parent(file.as_str()) {
        Some(d) => d,
        None => return None,
    };
    let joined = path_join(dir.as_str(), path);
    file_path_to_uri(joined.as_str())
}

/// The URLs that the written paths resolve to, in order, skipping those that do not.
pub open spec fn resolved_list(base: Seq<char>, paths: Seq<Seq<char>>) -> Seq<Seq<char>>
    decreases paths.len(),
{
    if paths.len() == 0 {
        Seq::empty()
    } else {
        let rest = resolved_list(base, paths.drop_last());
        match spec_resolve_path_to_uri(base, paths.last()) {
            Some(u) => rest.push(u),
            None => rest,
        }
    }
}

/// A relation between documents: for each URL with an entry, the set of URLs it
/// is linked to.
pub type Links = Map<Seq<char>, Set<Seq<char>>>;

/// `b` is in the entry of `a`.
pub open spec fn linked(m: Links, a: Seq<char>, b: Seq<char>) -> bool {
    m.dom().contains(a) && m[a].contains(b)
}

/// A path of one or more links.
pub open spec fn is_chain(m: Links, p: Seq<Seq<char>>) -> bool {
    &&& p.len() >= 2
    &&& forall|k: int| 0 <= k < p.len() - 1 ==> #[trigger] linked(m, p[k], p[k + 1])
}

/// `b` can be reached from `a` by following one or more links.
pub open spec fn leads_to(m: Links, a: Seq<char>, b: Seq<char>) -> bool {
    exists|p: Seq<Seq<char>>| #[trigger] is_chain(m, p) && p[0] == a && p.last() == b
}

/// Every dependent recorded for a file has that file among its dependencies.
pub open spec fn mirrored(dependents: Links, dependencies: Links) -> bool {
    forall|a: Seq<char>, b: Seq<char>| #[trigger] linked(dependents, a, b) ==> linked(dependencies, b, a)
}

/// The entry of `a`, or the empty set when it has none.
pub open spec fn links_or_empty(m: Links, a: Seq<char>) -> Set<Seq<char>> {
    if m.dom().contains(a) { m[a] } else { Set::empty() }
}

/// The dependents after `uri` is recorded as extending exactly the files in `s`:
/// `uri` is added to the entry of each file in `s` (which gets one if needed) and
/// taken out of every other entry.
pub open spec fn with_dependent(m: Links, uri: Seq<char>, s: Set<Seq<char>>) -> Links {
    Map::new(
        |a: Seq<char>| m.dom().contains(a) || s.contains(a),
        |a: Seq<char>| if s.contains(a) { links_or_empty(m, a).insert(uri) } else { m[a].remove(uri) },
    )
}

/// The dependents after `uri` is removed: its own entry goes, and it leaves every other.
pub open spec fn without_dependent(m: Links, uri: Seq<char>) -> Links {
    Map::new(|a: Seq<char>| m.dom().contains(a) && a != uri, |a: Seq<char>| m[a].remove(uri))
}

/// The view of a stored list of URLs: the set of their texts.
pub open spec fn url_set(v: Vec<String>) -> Set<Seq<char>> {
    views(v@).to_set()
}

/// The text of a stored string.
pub open spec fn text_of(s: String) -> Seq<char> {
    s@
}

/// A table of URL lists as a relation.
pub open spec fn links_view(t: Seq<Entry<Vec<String>>>) -> Links {
    table_map(t, |v: Vec<String>| url_set(v))
}

/// Reaching through a graph whose steps are exactly the links of `m` is following links.
proof fn lemma_reach_is_leads(g: Edges, m: Links)
    requires
        forall|a: Seq<char>, b: Seq<char>| step(g, false, a, b) <==> linked(m, a, b),
    ensures
        forall|a: Seq<char>, b: Seq<char>| reaches(g, false, a, b) <==> leads_to(m, a, b),
{
    assert forall|p: Seq<Seq<char>>| is_walk(g, false, p) <==> is_chain(m, p) by {
        if is_walk(g, false, p) {
            assert forall|k: int| 0 <= k < p.len() - 1 implies #[trigger] linked(m, p[k], p[k + 1]) by {
                assert(step(g, false, p[k], p[k + 1]));
            }
        }
        if is_chain(m, p) {
            assert forall|k: int| 0 <= k < p.len() - 1 implies #[trigger] step(g, false, p[k], p[k + 1]) by {
                assert(linked(m, p[k], p[k + 1]));
            }
        }
    }
    assert forall|a: Seq<char>, b: Seq<char>| reaches(g, false, a, b) <==> leads_to(m, a, b) by {
        if reaches(g, false, a, b) {
            let p = choose|p: Seq<Seq<char>>| #[trigger] is_walk(g, false, p) && p[0] == a && p.last() == b;
            assert(is_chain(m, p));
        }
        if leads_to(m, a, b) {
            let p = choose|p: Seq<Seq<char>>| #[trigger] is_chain(m, p) && p[0] == a && p.last() == b;
            assert(is_walk(g, false, p));
        }
    }
}

/// With distinct keys, the links of `a` are those of the entry stored under `a`.
proof fn lemma_linked_entry(t: Seq<Entry<Vec<String>>>, i: int, x: Seq<char>)
    requires
        keys_distinct(t),
        0 <= i < t.len(),
    ensures
        linked(links_view(t), t[i].uri@, x) <==> views(t[i].value@).contains(x),
{
    uri_table::lemma_index_of(t, i);
}

/// A list of URLs without the URL `x`.
fn without_url(v: &Vec<String>, x: &str) -> (r: Vec<String>)
    ensures
        url_set(r) == url_set(*v).remove(x@),
        views(v@).no_duplicates() ==> views(r@).no_duplicates(),
{
    let mut out: Vec<String> = Vec::new();
    let mut i: usize = 0;
    proof { assert(views(out@).to_set() =~= views(v@).take(0).to_set().remove(x@)); }
    while i < v.len()
        invariant
            i <= v@.len(),
            views(out@).to_set() == views(v@).take(i as int).to_set().remove(x@),
            views(v@).no_duplicates() ==> views(out@).no_duplicates(),
        decreases v@.len() - i,
    {
        let ghost before = out@;
        proof {
            assert(views(v@).take(i as int + 1) =~= views(v@).take(i as int).push(v@[i as int]@));
            views(v@).take(i as int).lemma_push_to_set_commute(v@[i as int]@);
        }
        if !str_eq(v[i].as_str(), x) {
            out.push(v[i].clone());
            proof {
                assert(views(out@) =~= views(before).push(v@[i as int]@));
                views(before).lemma_push_to_set_commute(v@[i as int]@);
                assert(views(out@).to_set() =~= views(v@).take(i as int + 1).to_set().remove(x@));
                if views(v@).no_duplicates() {
                    if views(before).contains(v@[i as int]@) {
                        assert(views(before).to_set().contains(v@[i as int]@));
                        let m = choose|m: int| 0 <= m < i && views(v@).take(i as int)[m] == v@[i as int]@;
                        assert(views(v@)[m] == views(v@)[i as int]);
                    }
                    assert forall|a: int, b: int| 0 <= a < b < views(out@).len() implies views(out@)[a] != views(out@)[b] by {
                        if b < views(before).len() {
                            assert(views(out@)[a] == views(before)[a] && views(out@)[b] == views(before)[b]);
                        } else {
                            assert(views(out@)[a] == views(before)[a]);
                        }
                    }
                }
            }
        } else {
            proof { assert(views(out@).to_set() =~= views(v@).take(i as int + 1).to_set().remove(x@)); }
        }
        i = i + 1;
    }
    proof { assert(views(v@).take(v@.len() as int) =~= views(v@)); }
    out
}

/// `uri` taken out of the entry of each file in `s`.
pub open spec fn drop_from(m: Links, uri: Seq<char>, s: Set<Seq<char>>) -> Links {
    Map::new(|a: Seq<char>| m.dom().contains(a), |a: Seq<char>| if s.contains(a) { m[a].remove(uri) } else { m[a] })
}

/// `uri` added to the entry of each file in `s`, which gets one if needed.
pub open spec fn add_to(m: Links, uri: Seq<char>, s: Set<Seq<char>>) -> Links {
    Map::new(
        |a: Seq<char>| m.dom().contains(a) || s.contains(a),
        |a: Seq<char>| if s.contains(a) { links_or_empty(m, a).insert(uri) } else { m[a] },
    )
}

/// Takes `x` out of the entry of `key`, when there is one.
fn remove_link(t: &mut Vec<Entry<Vec<String>>>, key: &str, x: &str)
    requires
        keys_distinct(old(t)@),
    ensures
        keys_distinct(final(t)@),
        links_view(final(t)@) == (if links_view(old(t)@).dom().contains(key@) {
            links_view(old(t)@).insert(key@, links_view(old(t)@)[key@].remove(x@))
        } else {
            links_view(old(t)@)
        }),
{
    let ghost before = t@;
    let kept = match uri_table::get(t, key) {
        Some(v) => Some(without_url(v, x)),
        None => None,
    };
    match kept {
        Some(k) => {
            let ghost kv = k;
            uri_table::put(t, key, k);
            proof { uri_table::lemma_map_after_put(before, t@, key@, kv, |v: Vec<String>| url_set(v)); }
        },
        None => {},
    }
}

/// Adds `x` to the entry of `key`, creating the entry if needed.
fn add_link(t: &mut Vec<Entry<Vec<String>>>, key: &str, x: &str)
    requires
        keys_distinct(old(t)@),
    ensures
        keys_distinct(final(t)@),
        links_view(final(t)@) == links_view(old(t)@).insert(key@, links_or_empty(links_view(old(t)@), key@).insert(x@)),
{
    let ghost before = t@;
    let mut l = match uri_table::get(t, key) {
        Some(v) => crate::schema::copy_strings(v),
        None => Vec::new(),
    };
    proof {
        assert(url_set(l) == links_or_empty(links_view(before), key@)) by {
            if !has_key(before, key@) {
                assert(url_set(l) =~= Set::<Seq<char>>::empty());
            }
        }
    }
    if !contains_text(l.as_slice(), x) {
        let ghost l0 = l@;
        l.push(x.to_string());
        proof {
            assert(views(l@) =~= views(l0).push(x@));
            views(l0).lemma_push_to_set_commute(x@);
        }
    } else {
        proof { assert(url_set(l) =~= url_set(l).insert(x@)); }
    }
    let ghost lv = l;
    uri_table::put(t, key, l);
    proof { uri_table::lemma_map_after_put(before, t@, key@, lv, |v: Vec<String>| url_set(v)); }
}

/// Takes `uri` out of the entry of each file in `files`.
fn drop_dependent(t: &mut Vec<Entry<Vec<String>>>, files: &Vec<String>, uri: &str)
    requires
        keys_distinct(old(t)@),
    ensures
        keys_distinct(final(t)@),
        links_view(final(t)@) == drop_from(links_view(old(t)@), uri@, url_set(*files)),
{
    let ghost start = links_view(t@);
    let mut j: usize = 0;
    proof { assert(links_view(t@) =~= drop_from(start, uri@, views(files@).take(0).to_set())); }
    while j < files.len()
        invariant
            j <= files@.len(),
            keys_distinct(t@),
            links_view(t@) == drop_from(start, uri@, views(files@).take(j as int).to_set()),
        decreases files@.len() - j,
    {
        let ghost cur = links_view(t@);
        let d = &files[j];
        remove_link(t, d.as_str(), uri);
        proof {
            let s0 = views(files@).take(j as int).to_set();
            assert(views(files@).take(j as int + 1) =~= views(files@).take(j as int).push(d@));
            views(files@).take(j as int).lemma_push_to_set_commute(d@);
            let s1 = views(files@).take(j as int + 1).to_set();
            assert(s1 == s0.insert(d@));
            if cur.dom().contains(d@) {
                assert(cur[d@].remove(uri@) =~= start[d@].remove(uri@));
            }
            assert(links_view(t@) =~= drop_from(start, uri@, s1));
        }
        j = j + 1;
    }
    proof { assert(views(files@).take(files@.len() as int) =~= views(files@)); }
}

/// Adds `uri` to the entry of each file in `files`.
fn add_dependent(t: &mut Vec<Entry<Vec<String>>>, files: &Vec<String>, uri: &str)
    requires
        keys_distinct(old(t)@),
    ensures
        keys_distinct(final(t)@),
        links_view(final(t)@) == add_to(links_view(old(t)@), uri@, url_set(*files)),
{
    let ghost start = links_view(t@);
    let mut j: usize = 0;
    proof { assert(links_view(t@) =~= add_to(start, uri@, views(files@).take(0).to_set())); }
    while j < files.len()
        invariant
            j <= files@.len(),
            keys_distinct(t@),
            links_view(t@) == add_to(start, uri@, views(files@).take(j as int).to_set()),
        decreases files@.len() - j,
    {
        let ghost cur = links_view(t@);
        let d = &files[j];
        add_link(t, d.as_str(), uri);
        proof {
            let s0 = views(files@).take(j as int).to_set();
            assert(views(files@).take(j as int + 1) =~= views(files@).take(j as int).push(d@));
            views(files@).take(j as int).lemma_push_to_set_commute(d@);
            let s1 = views(files@).take(j as int + 1).to_set();
            assert(s1 == s0.insert(d@));
            assert(links_or_empty(cur, d@).insert(uri@) =~= links_or_empty(start, d@).insert(uri@));
            assert(links_view(t@) =~= add_to(start, uri@, s1));
        }
        j = j + 1;
    }
    proof { assert(views(files@).take(files@.len() as int) =~= views(files@)); }
}

/// The files a dependency chain passes: the starting document, then each item.
pub open spec fn chain_nodes(uri: Seq<char>, items: Seq<Seq<char>>) -> Seq<Seq<char>> {
    seq![uri] + items
}

/// With `dependents` mirrored in `dependencies`, recording that `uri` extends exactly
/// the files in `s` (dropping it from its old dependencies, then adding it to the new)
/// gives `with_dependent`.
proof fn lemma_record_dependents(d0: Links, p0: Links, uri: Seq<char>, s: Set<Seq<char>>)
    requires
        mirrored(d0, p0),
    ensures
        add_to(drop_from(d0, uri, links_or_empty(p0, uri)), uri, s) == with_dependent(d0, uri, s),
        mirrored(with_dependent(d0, uri, s), p0.insert(uri, s)),
{
    let olds = links_or_empty(p0, uri);
    let lhs = add_to(drop_from(d0, uri, olds), uri, s);
    let rhs = with_dependent(d0, uri, s);
    assert forall|a: Seq<char>| #[trigger] rhs.dom().contains(a) implies lhs[a] == rhs[a] by {
        if s.contains(a) {
            if d0.dom().contains(a) {
                assert(lhs[a] =~= rhs[a]);
            } else {
                assert(lhs[a] =~= rhs[a]);
            }
        } else {
            if !olds.contains(a) && d0[a].contains(uri) {
                assert(linked(d0, a, uri));
            }
            assert(lhs[a] =~= rhs[a]);
        }
    }
    assert(lhs =~= rhs);
    let p1 = p0.insert(uri, s);
    assert forall|a: Seq<char>, b: Seq<char>| #[trigger] linked(rhs, a, b) implies linked(p1, b, a) by {
        if b != uri {
            assert(linked(d0, a, b));
        }
    }
}

/// With `dependents` mirrored in `dependencies`, dropping `uri` from its dependencies and
/// then its own entry gives `without_dependent`.
proof fn lemma_remove_dependents(d0: Links, p0: Links, uri: Seq<char>)
    requires
        mirrored(d0, p0),
    ensures
        drop_from(d0, uri, links_or_empty(p0, uri)).remove(uri) == without_dependent(d0, uri),
        mirrored(without_dependent(d0, uri), p0.remove(uri)),
{
    let olds = links_or_empty(p0, uri);
    let lhs = drop_from(d0, uri, olds).remove(uri);
    let rhs = without_dependent(d0, uri);
    assert forall|a: Seq<char>| #[trigger] rhs.dom().contains(a) implies lhs[a] == rhs[a] by {
        if !olds.contains(a) && d0[a].contains(uri) {
            assert(linked(d0, a, uri));
        }
        assert(lhs[a] =~= rhs[a]);
    }
    assert(lhs.dom() =~= rhs.dom());
    assert(lhs =~= rhs);
    assert forall|a: Seq<char>, b: Seq<char>| #[trigger] linked(rhs, a, b) implies linked(p0.remove(uri), b, a) by {
        assert(linked(d0, a, b));
    }
}

/// The entry of file `p` in a table lists `c`.
pub open spec fn entry_lists(t: Seq<Entry<Vec<String>>>, j: int, p: Seq<char>, c: Seq<char>) -> bool {
    t[j].uri@ == p && views(t[j].value@).contains(c)
}

/// The documents of an editing session and how they extend one another.
///
/// For each document it keeps the last text it was given, the files that its
/// `extends` directives name (its dependencies) and, the other way round, the files
/// that extend it (its dependents).
pub struct Workspace {
    dependents: Vec<Entry<Vec<String>>>,
    dependencies: Vec<Entry<Vec<String>>>,
    texts: Vec<Entry<String>>,
    root_uri: Option<String>,
}

impl Workspace {
    /// For each file with an entry, the files that extend it.
    pub closed spec fn dependents_map(&self) -> Links {
        links_view(self.dependents@)
    }

    /// For each document with an entry, the files it extends.
    pub closed spec fn dependencies_map(&self) -> Links {
        links_view(self.dependencies@)
    }

    /// The last text given for each document.
    pub closed spec fn texts_map(&self) -> Map<Seq<char>, Seq<char>> {
        table_map(self.texts@, |s: String| text_of(s))
    }

    /// The workspace root, when one was set.
    pub closed spec fn root(&self) -> Option<Seq<char>> {
        match self.root_uri {
            Some(r) => Some(r@),
            None => None,
        }
    }

    /// The first file that `k` extends, in the order its directives were written.
    pub closed spec fn first_dependency(&self, k: Seq<char>) -> Option<Seq<char>> {
        if has_key(self.dependencies@, k) && value_at(self.dependencies@, k)@.len() > 0 {
            Some(value_at(self.dependencies@, k)@[0]@)
        } else {
            None
        }
    }

    /// The tables hold each URL once, and each dependent is mirrored in the
    /// dependencies of the file that extends.
    pub closed spec fn wf(&self) -> bool {
        &&& keys_distinct(self.dependents@)
        &&& keys_distinct(self.dependencies@)
        &&& keys_distinct(self.texts@)
        &&& mirrored(self.dependents_map(), self.dependencies_map())
    }

    /// The state after `uri` was given `text` and found to extend the files `deps`
    /// (in that order), starting from `before`.
    pub open spec fn records(&self, before: Workspace, uri: Seq<char>, text: Seq<char>, deps: Seq<Seq<char>>) -> bool {
        &&& self.wf()
        &&& mirrored(self.dependents_map(), self.dependencies_map())
        &&& self.dependencies_map() == before.dependencies_map().insert(uri, deps.to_set())
        &&& self.dependents_map() == with_dependent(before.dependents_map(), uri, deps.to_set())
        &&& self.texts_map() == before.texts_map().insert(uri, text)
        &&& self.root() == before.root()
        &&& self.first_dependency(uri) == (if deps.len() > 0 { Some(deps[0]) } else { None })
        &&& forall|k: Seq<char>| k != uri ==> #[trigger] self.first_dependency(k) == before.first_dependency(k)
    }

    /// Law: in every valid workspace, a file recorded as a dependent of `a` has `a`
    /// among its dependencies.
    pub proof fn law_dependents_mirrored(&self)
        requires
            self.wf(),
        ensures
            mirrored(self.dependents_map(), self.dependencies_map()),
    {
    }

    /// The first dependency of a file is one of its dependencies.
    pub proof fn lemma_first_dependency_is_dependency(&self, k: Seq<char>)
        requires
            self.wf(),
        ensures
            self.first_dependency(k) matches Some(d) ==> linked(self.dependencies_map(), k, d),
    {
        if let Some(d) = self.first_dependency(k) {
            assert(views(value_at(self.dependencies@, k)@)[0] == d);
            assert(url_set(value_at(self.dependencies@, k)).contains(d));
        }
    }

    /// An empty workspace.
    pub fn new() -> (w: Self)
        ensures
            w.wf(),
            w.dependents_map() == Map::<Seq<char>, Set<Seq<char>>>::empty(),
            w.dependencies_map() == Map::<Seq<char>, Set<Seq<char>>>::empty(),
            w.texts_map() == Map::<Seq<char>, Seq<char>>::empty(),
            w.root() is None,
            forall|k: Seq<char>| #[trigger] w.first_dependency(k) is None,
    {
        let w = Workspace { dependents: Vec::new(), dependencies: Vec::new(), texts: Vec::new(), root_uri: None };
        proof {
            assert(w.dependents_map() =~= Map::<Seq<char>, Set<Seq<char>>>::empty());
            assert(w.dependencies_map() =~= Map::<Seq<char>, Set<Seq<char>>>::empty());
            assert(w.texts_map() =~= Map::<Seq<char>, Seq<char>>::empty());
        }
        w
    }

    /// Sets the directory that relative paths are resolved against.
    pub fn set_root(&mut self, root_uri: String)
        requires
            old(self).wf(),
        ensures
            final(self).wf(),
            final(self).root() == Some(root_uri@),
            final(self).dependents_map() == old(self).dependents_map(),
            final(self).dependencies_map() == old(self).dependencies_map(),
            final(self).texts_map() == old(self).texts_map(),
            forall|k: Seq<char>| #[trigger] final(self).first_dependency(k) == old(self).first_dependency(k),
    {
        self.root_uri = Some(root_uri);
    }

    /// Records the text of a document and the files it extends, the URLs in
    /// `resolved`, in the order its directives name them (repeats count once).
    pub fn record_document(&mut self, uri: &str, text: &str, resolved: &Vec<String>)
        requires
            old(self).wf(),
        ensures
            final(self).records(*old(self), uri@, text@, views(resolved@)),
    {
        let ghost d0 = self.dependents_map();
        let ghost p0 = self.dependencies_map();
        let ghost t0 = self.texts_map();
        let ghost before = *self;
        let mut links: Vec<String> = Vec::new();
        let mut i: usize = 0;
        proof { assert(url_set(links) =~= views(resolved@).take(0).to_set()); }
        while i < resolved.len()
            invariant
                i <= resolved@.len(),
                url_set(links) == views(resolved@).take(i as int).to_set(),
                i == 0 ==> links@.len() == 0,
                i > 0 ==> links@.len() > 0 && links@[0]@ == resolved@[0]@,
            decreases resolved@.len() - i,
        {
            let ghost l0 = links@;
            proof {
                assert(views(resolved@).take(i as int + 1) =~= views(resolved@).take(i as int).push(resolved@[i as int]@));
                views(resolved@).take(i as int).lemma_push_to_set_commute(resolved@[i as int]@);
            }
            if !contains_text(links.as_slice(), resolved[i].as_str()) {
                links.push(resolved[i].clone());
                proof {
                    assert(views(links@) =~= views(l0).push(resolved@[i as int]@));
                    views(l0).lemma_push_to_set_commute(resolved@[i as int]@);
                }
            } else {
                proof {
                    assert(url_set(links) =~= views(resolved@).take(i as int + 1).to_set());
                }
            }
            i = i + 1;
        }
        proof {
            assert(views(resolved@).take(resolved@.len() as int) =~= views(resolved@));
            if links@.len() > 0 {
                assert(views(links@)[0] == links@[0]@);
            }
        }
        let old_links = match uri_table::get(&self.dependencies, uri) {
            Some(v) => crate::schema::copy_strings(v),
            None => Vec::new(),
        };
        proof {
            assert(url_set(old_links) == links_or_empty(p0, uri@)) by {
                if !has_key(before.dependencies@, uri@) {
                    assert(url_set(old_links) =~= Set::<Seq<char>>::empty());
                }
            }
        }
        drop_dependent(&mut self.dependents, &old_links, uri);
        add_dependent(&mut self.dependents, &links, uri);
        let ghost lv = links;
        let ghost dep_before = self.dependencies@;
        uri_table::put(&mut self.dependencies, uri, links);
        let ghost text_before = self.texts@;
        let stored = text.to_string();
        let ghost sv = stored;
        uri_table::put(&mut self.texts, uri, stored);
        proof {
            uri_table::lemma_map_after_put(dep_before, self.dependencies@, uri@, lv, |v: Vec<String>| url_set(v));
            uri_table::lemma_map_after_put(text_before, self.texts@, uri@, sv, |s: String| text_of(s));
            lemma_record_dependents(d0, p0, uri@, url_set(lv));
            assert(self.first_dependency(uri@) == (if views(resolved@).len() > 0 { Some(views(resolved@)[0]) } else { None }));
            assert forall|k: Seq<char>| k != uri@ implies #[trigger] self.first_dependency(k) == before.first_dependency(k) by {
                if has_key(dep_before, k) {
                    assert(value_at(self.dependencies@, k) == value_at(dep_before, k));
                }
            }
        }
    }

    /// Records the text of a document and rebuilds what it extends from the
    /// `extends` directives of its parsed tree, each path resolved against the
    /// document's URL (paths that resolve to no URL are skipped).
    pub fn update_document(&mut self, uri: &str, text: &str, root: &SyntaxNode)
        requires
            old(self).wf(),
        ensures
            final(self).records(*old(self), uri@, text@, resolved_list(uri@, subtree_extends(*root))),
    {
        let paths = extract_extends_directives(root);
        proof { assert(views(paths@) =~= subtree_extends(*root)); }
        let mut resolved: Vec<String> = Vec::new();
        let mut i: usize = 0;
        proof { assert(views(resolved@) =~= resolved_list(uri@, views(paths@).take(0))); }
        while i < paths.len()
            invariant
                i <= paths@.len(),
                views(resolved@) == resolved_list(uri@, views(paths@).take(i as int)),
            decreases paths@.len() - i,
        {
            let ghost r0 = resolved@;
            proof {
                assert(views(paths@).take(i as int + 1).drop_last() =~= views(paths@).take(i as int));
                assert(views(paths@).take(i as int + 1).last() == paths@[i as int]@);
            }
            match resolve_path_to_uri(uri, paths[i].as_str()) {
                Some(u) => {
                    resolved.push(u);
                    proof { assert(views(resolved@) =~= views(r0).push(resolved@.last()@)); }
                },
                None => {},
            }
            i = i + 1;
        }
        proof { assert(views(paths@).take(paths@.len() as int) =~= views(paths@)); }
        self.record_document(uri, text, &resolved);
    }

    /// Forgets a document: its text, what it extends, and its own entry of dependents.
    pub fn remove_document(&mut self, uri: &str)
        requires
            old(self).wf(),
        ensures
            final(self).wf(),
            mirrored(final(self).dependents_map(), final(self).dependencies_map()),
            final(self).dependencies_map() == old(self).dependencies_map().remove(uri@),
            final(self).dependents_map() == without_dependent(old(self).dependents_map(), uri@),
            final(self).texts_map() == old(self).texts_map().remove(uri@),
            final(self).root() == old(self).root(),
            final(self).first_dependency(uri@) is None,
            forall|k: Seq<char>| k != uri@ ==> #[trigger] final(self).first_dependency(k) == old(self).first_dependency(k),
    {
        let ghost d0 = self.dependents_map();
        let ghost p0 = self.dependencies_map();
        let ghost before = *self;
        let ghost text_before = self.texts@;
        uri_table::remove(&mut self.texts, uri);
        let ghost dep_before = self.dependencies@;
        let olds = uri_table::remove(&mut self.dependencies, uri);
        match olds {
            Some(v) => {
                drop_dependent(&mut self.dependents, &v, uri);
            },
            None => {
                proof { assert(d0 =~= drop_from(d0, uri@, links_or_empty(p0, uri@))); }
            },
        }
        let ghost dependents_before = self.dependents@;
        uri_table::remove(&mut self.dependents, uri);
        proof {
            uri_table::lemma_map_after_remove(text_before, self.texts@, uri@, |s: String| text_of(s));
            uri_table::lemma_map_after_remove(dep_before, self.dependencies@, uri@, |v: Vec<String>| url_set(v));
            uri_table::lemma_map_after_remove(dependents_before, self.dependents@, uri@, |v: Vec<String>| url_set(v));
            lemma_remove_dependents(d0, p0, uri@);
            assert forall|k: Seq<char>| k != uri@ implies #[trigger] self.first_dependency(k) == before.first_dependency(k) by {
                if has_key(dep_before, k) {
                    assert(value_at(self.dependencies@, k) == value_at(dep_before, k));
                }
            }
        }
    }

    /// A graph with an edge from each dependent to the file it extends.
    fn dependents_graph(&self) -> (g: DependencyGraph)
        requires
            self.wf(),
        ensures
            forall|a: Seq<char>, x: Seq<char>| step(g@, false, a, x) <==> linked(self.dependents_map(), a, x),
    {
        let ghost t = self.dependents@;
        let mut g = DependencyGraph::new();
        let mut i: usize = 0;
        while i < self.dependents.len()
            invariant
                t == self.dependents@,
                i <= t.len(),
                forall|c: Seq<char>, p: Seq<char>| step(g@, true, c, p) <==>
                    (exists|j: int| 0 <= j < i && #[trigger] entry_lists(t, j, p, c)),
            decreases t.len() - i,
        {
            let e = &self.dependents[i];
            let mut k: usize = 0;
            while k < e.value.len()
                invariant
                    t == self.dependents@,
                    i < t.len(),
                    *e == t[i as int],
                    k <= e.value@.len(),
                    forall|c: Seq<char>, p: Seq<char>| step(g@, true, c, p) <==>
                        ((exists|j: int| 0 <= j < i && #[trigger] entry_lists(t, j, p, c))
                        || (p == e.uri@ && views(e.value@).take(k as int).contains(c))),
                decreases e.value@.len() - k,
            {
                let ghost g0 = g@;
                let child = e.value[k].clone();
                let parent = e.uri.clone();
                proof {
                    assert(child@ == e.value@[k as int]@);
                    assert(parent@ == e.uri@);
                }
                g.add_edge(child, parent);
                proof {
                    assert(views(e.value@).take(k as int + 1) =~= views(e.value@).take(k as int).push(e.value@[k as int]@));
                    assert(views(e.value@).take(k as int + 1)[k as int] == e.value@[k as int]@);
                    assert forall|c: Seq<char>, p: Seq<char>| step(g@, true, c, p) <==>
                        ((exists|j: int| 0 <= j < i && #[trigger] entry_lists(t, j, p, c))
                        || (p == e.uri@ && views(e.value@).take(k as int + 1).contains(c))) by {
                        if p == e.uri@ && views(e.value@).take(k as int + 1).contains(c) && c != e.value@[k as int]@ {
                            let m = choose|m: int| 0 <= m < k + 1 && #[trigger] views(e.value@).take(k as int + 1)[m] == c;
                            assert(views(e.value@).take(k as int)[m] == c);
                        }
                        if p == e.uri@ && views(e.value@).take(k as int).contains(c) {
                            let m = choose|m: int| 0 <= m < k && #[trigger] views(e.value@).take(k as int)[m] == c;
                            assert(views(e.value@).take(k as int + 1)[m] == c);
                        }
                    }
                }
                k = k + 1;
            }
            proof {
                assert(views(e.value@).take(e.value@.len() as int) =~= views(e.value@));
                assert forall|c: Seq<char>, p: Seq<char>| step(g@, true, c, p) <==>
                    (exists|j: int| 0 <= j < i + 1 && #[trigger] entry_lists(t, j, p, c)) by {
                    if p == e.uri@ && views(e.value@).contains(c) {
                        assert(entry_lists(t, i as int, p, c));
                    }
                    if exists|j: int| 0 <= j < i + 1 && #[trigger] entry_lists(t, j, p, c) {
                        let j = choose|j: int| 0 <= j < i + 1 && #[trigger] entry_lists(t, j, p, c);
                        if j == i as int {
                            assert(views(e.value@).contains(c));
                        }
                    }
                }
            }
            i = i + 1;
        }
        proof {
            let d = self.dependents_map();
            assert forall|a: Seq<char>, x: Seq<char>| step(g@, false, a, x) <==> linked(d, a, x) by {
                if step(g@, false, a, x) {
                    let n = choose|n: int| 0 <= n < g@.len() && g@[n] == (x, a);
                    assert(step(g@, true, x, a));
                    let j = choose|j: int| 0 <= j < t.len() && #[trigger] entry_lists(t, j, a, x);
                    lemma_linked_entry(t, j, x);
                }
                if linked(d, a, x) {
                    let j = uri_table::index_of(t, a);
                    assert(0 <= j < t.len() && t[j].uri@ == a);
                    lemma_linked_entry(t, j, x);
                    assert(entry_lists(t, j, a, x));
                    assert(step(g@, true, x, a));
                    let n = choose|n: int| 0 <= n < g@.len() && g@[n] == (x, a);
                }
            }
        }
        g
    }

    /// All files that extend `uri`, directly or through other files, each once
    /// (`uri` itself is never among them).
    pub fn get_all_dependents(&self, uri: &str) -> (r: Vec<String>)
        requires
            self.wf(),
        ensures
            views(r@).no_duplicates(),
            forall|x: Seq<char>| #[trigger] views(r@).contains(x) <==> (x != uri@ && leads_to(self.dependents_map(), uri@, x)),
    {
        let g = self.dependents_graph();
        let start = uri.to_string();
        let found = g.reachable(&start, false);
        proof { lemma_reach_is_leads(g@, self.dependents_map()); }
        let r = without_url(&found, uri);
        proof {
            assert forall|x: Seq<char>| #[trigger] views(r@).contains(x) <==> (x != uri@ && leads_to(self.dependents_map(), uri@, x)) by {
                assert(url_set(r).contains(x) == views(r@).contains(x));
                assert(url_set(found).contains(x) == views(found@).contains(x));
            }
        }
        r
    }

    /// The first file that `k` extends, if any.
    fn first_dependency_of(&self, k: &str) -> (r: Option<String>)
        requires
            self.wf(),
        ensures
            match r {
                Some(d) => self.first_dependency(k@) == Some(d@),
                None => self.first_dependency(k@) is None,
            },
    {
        match uri_table::get(&self.dependencies, k) {
            Some(v) => {
                if v.len() > 0 {
                    Some(v[0].clone())
                } else {
                    None
                }
            },
            None => None,
        }
    }

    /// The files reached from `uri` by following, from each file, the first file it
    /// extends. The walk stops at a file that extends nothing, or when it comes back
    /// to a file it has passed (which is then the last item).
    pub fn get_dependency_chain(&self, uri: &str) -> (r: Vec<String>)
        requires
            self.wf(),
        ensures
            forall|k: int| 0 <= k < r@.len() ==>
                self.first_dependency(#[trigger] chain_nodes(uri@, views(r@))[k]) == Some(chain_nodes(uri@, views(r@))[k + 1]),
            chain_nodes(uri@, views(r@)).take(r@.len() as int).no_duplicates(),
            chain_nodes(uri@, views(r@)).take(r@.len() as int).contains(chain_nodes(uri@, views(r@)).last())
                || self.first_dependency(chain_nodes(uri@, views(r@)).last()) is None,
    {
        let ghost keys = self.dependencies@.map_values(|e: Entry<Vec<String>>| e.uri@);
        let mut result: Vec<String> = Vec::new();
        let mut seen: Vec<String> = Vec::new();
        let mut current: String = uri.to_string();
        proof { assert(views(seen@) =~= chain_nodes(uri@, views(result@)).take(0)); }
        loop
            invariant
                self.wf(),
                keys == self.dependencies@.map_values(|e: Entry<Vec<String>>| e.uri@),
                views(seen@) == chain_nodes(uri@, views(result@)).take(result@.len() as int),
                current@ == chain_nodes(uri@, views(result@)).last(),
                forall|k: int| 0 <= k < result@.len() ==>
                    self.first_dependency(#[trigger] chain_nodes(uri@, views(result@))[k]) == Some(chain_nodes(uri@, views(result@))[k + 1]),
                views(seen@).no_duplicates(),
                forall|j: int| 0 <= j < seen@.len() ==> keys.contains(#[trigger] seen@[j]@),
                seen@.len() <= keys.len(),
            ensures
                forall|k: int| 0 <= k < result@.len() ==>
                    self.first_dependency(#[trigger] chain_nodes(uri@, views(result@))[k]) == Some(chain_nodes(uri@, views(result@))[k + 1]),
                chain_nodes(uri@, views(result@)).take(result@.len() as int).no_duplicates(),
                chain_nodes(uri@, views(result@)).take(result@.len() as int).contains(chain_nodes(uri@, views(result@)).last())
                    || self.first_dependency(chain_nodes(uri@, views(result@)).last()) is None,
            decreases keys.len() - seen@.len(),
        {
            if contains_text(seen.as_slice(), current.as_str()) {
                break;
            }
            match self.first_dependency_of(current.as_str()) {
                Some(d) => {
                    let ghost nodes0 = chain_nodes(uri@, views(result@));
                    let ghost seen0 = views(seen@);
                    proof {
                        self.lemma_first_dependency_is_dependency(current@);
                        let j = uri_table::index_of(self.dependencies@, current@);
                        assert(keys[j] == current@);
                    }
                    seen.push(current.clone());
                    result.push(d.clone());
                    current = d;
                    proof {
                        let nodes = chain_nodes(uri@, views(result@));
                        assert(views(result@) =~= views(result@).drop_last().push(d@));
                        assert(nodes =~= nodes0.push(d@));
                        assert(views(seen@) =~= seen0.push(nodes0.last()));
                        assert(views(seen@) =~= nodes.take(result@.len() as int));
                        assert forall|j: int| 0 <= j < seen@.len() implies keys.contains(#[trigger] seen@[j]@) by {
                            if j < seen0.len() {
                                assert(seen@[j]@ == seen0[j]);
                            }
                        }
                        assert forall|a: int, b: int| 0 <= a < b < views(seen@).len() implies views(seen@)[a] != views(seen@)[b] by {
                            if b == seen0.len() {
                                assert(views(seen@)[a] == seen0[a]);
                                assert(seen0.contains(seen0[a]));
                            }
                        }
                        crate::dependency_graph::lemma_bounded_by_targets(views(seen@), keys);
                        assert forall|k: int| 0 <= k < result@.len() implies
                            self.first_dependency(#[trigger] nodes[k]) == Some(nodes[k + 1]) by {
                            if k < result@.len() - 1 {
                                assert(nodes[k] == nodes0[k] && nodes[k + 1] == nodes0[k + 1]);
                            }
                        }
                    }
                },
                None => {
                    break;
                },
            }
        }
        result
    }

    /// The text last given for a document, if it has one.
    pub fn get_cached_text(&self, uri: &str) -> (r: Option<String>)
        requires
            self.wf(),
        ensures
            match r {
                Some(t) => self.texts_map().dom().contains(uri@) && self.texts_map()[uri@] == t@,
                None => !self.texts_map().dom().contains(uri@),
            },
    {
        match uri_table::get(&self.texts, uri) {
            Some(t) => Some(t.clone()),
            None => None,
        }
    }
}

} // verus!
