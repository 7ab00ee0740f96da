use vstd::prelude::*;

use crate::diagnostics::{Diagnostic, Severity};
use crate::paths::{contains_text, path_key, resolve_relative, spec_path_key, spec_resolve_relative, str_eq, views};
use crate::schema::copy_strings;
use crate::span::Span;
use crate::text::{push_str, string_from_chars};

verus! {

/// A CDM file found by the resolver. Its text is read later, when it is needed.
#[derive(Debug)]
pub struct LoadedFile {
    /// Absolute path to the file.
    pub path: String,
}

impl LoadedFile {
    /// A loaded file for the path, not read yet.
    pub fn new(path: String) -> (f: LoadedFile)
        ensures
            f.path@ == path@,
    {
        LoadedFile { path }
    }

    /// A loaded file for the path, for tests.
    pub fn new_for_test(path: String) -> (f: LoadedFile)
        ensures
            f.path@ == path@,
    {
        LoadedFile::new(path)
    }
}

/// The complete file tree: a main file and its ancestors.
#[derive(Debug)]
pub struct LoadedFileTree {
    /// The main file that was requested.
    pub main: LoadedFile,
    /// All ancestor files, each once, depth first: each ancestor's own ancestors
    /// before it.
    pub ancestors: Vec<LoadedFile>,
}

/// Resolves CDM files and their `extends` dependencies. Only I/O failures (a missing
/// file) and true cycles (a file that extends itself, directly or through others,
/// whatever the spelling of the paths) are errors; an ancestor shared by two branches
/// is loaded once.
#[derive(Debug)]
pub struct FileResolver {
    /// The files loaded so far (while loading a tree, their canonical paths).
    pub loaded_files: Vec<String>,
}

/// Two paths name the same file for the resolver when they are equal as `PathBuf`s.
pub open spec fn same_path(a: Seq<char>, b: Seq<char>) -> bool {
    spec_path_key(a) == spec_path_key(b)
}

/// The path is already in the chain of loaded files.
pub open spec fn in_chain(loaded: Seq<Seq<char>>, p: Seq<char>) -> bool {
    exists|j: int| 0 <= j < loaded.len() && #[trigger] same_path(loaded[j], p)
}

/// The keys of a list of paths.
pub open spec fn path_keys(s: Seq<Seq<char>>) -> Seq<Seq<char>> {
    s.map_values(|q: Seq<char>| spec_path_key(q))
}

/// Whether the path is already among the loaded files.
fn chain_contains(loaded: &Vec<String>, p: &str) -> (r: bool)
    ensures
        r == in_chain(views(loaded@), p@),
{
    let key = path_key(p);
    let mut j: usize = 0;
    while j < loaded.len()
        invariant
            key@ == spec_path_key(p@),
            j <= loaded@.len(),
            forall|k: int| 0 <= k < j ==> !same_path(#[trigger] views(loaded@)[k], p@),
        decreases loaded@.len() - j,
    {
        let kj = path_key(loaded[j].as_str());
        if str_eq(kj.as_str(), key.as_str()) {
            proof { assert(same_path(views(loaded@)[j as int], p@)); }
            return true;
        }
        proof { assert(views(loaded@)[j as int] == loaded@[j as int]@); }
        j = j + 1;
    }
    false
}

/// The message for a file met twice in an extends chain.
pub open spec fn circular_message(path: Seq<char>) -> Seq<char> {
    "Circular @extends detected: "@ + path + " is already in the extends chain"@
}

/// The message for a file that does not exist.
pub open spec fn missing_message(path: Seq<char>) -> Seq<char> {
    "Failed to read file "@ + path + ": No such file or directory"@
}

/// A CDM file that exists: the path it is reached by, the canonical form of that path
/// (what `Path::canonicalize` gives for it, the same for every spelling of the file),
/// and the `extends` paths written in it (in order).
#[derive(Debug)]
pub struct ProjectFile {
    pub path: String,
    pub canonical: String,
    pub extends_paths: Vec<String>,
}

/// The canonical path and the `extends` paths of the first file listed at `p`; none
/// when no file is there.
pub open spec fn listed(files: Seq<ProjectFile>, p: Seq<char>) -> Option<(Seq<char>, Seq<Seq<char>>)>
    decreases files.len(),
{
    if files.len() == 0 {
        None
    } else {
        match listed(files.drop_last(), p) {
            Some(x) => Some(x),
            None => if same_path(files.last().path@, p) {
                Some((files.last().canonical@, views(files.last().extends_paths@)))
            } else {
                None
            },
        }
    }
}

/// The canonical path of the file listed at `p` (empty when none is).
pub open spec fn listed_canonical(files: Seq<ProjectFile>, p: Seq<char>) -> Seq<char> {
    match listed(files, p) {
        Some((c, _)) => c,
        None => Seq::empty(),
    }
}

/// The canonical paths of the files.
pub open spec fn canonicals(files: Seq<ProjectFile>) -> Seq<Seq<char>> {
    files.map_values(|f: ProjectFile| f.canonical@)
}

/// Where loading stands: the canonical paths of the files loaded so far and the paths
/// of the files found (each tree's ancestors, depth first, then its own file), or the
/// message of the first failure.
pub enum Loading {
    Loaded(Seq<Seq<char>>, Seq<Seq<char>>),
    Failed(Seq<char>),
}

/// Loading the tree of `path`. `chain` holds the canonical paths of the files on the
/// way from the main file down to `path`: meeting one of them again is a cycle.
/// `seen` holds the canonical paths of the files loaded so far: a file met again off
/// the chain (a shared ancestor) is not loaded twice. `fuel` bounds the depth; with
/// one more than the number of files it never runs out.
pub open spec fn tree_load(chain: Seq<Seq<char>>, seen: Seq<Seq<char>>, path: Seq<char>, files: Seq<ProjectFile>, fuel: nat) -> Loading
    decreases fuel, 0nat,
{
    if fuel == 0 {
        Loading::Failed(Seq::empty())
    } else {
        match listed(files, path) {
            None => Loading::Failed(missing_message(path)),
            Some((canon, ext)) => if chain.contains(canon) {
                Loading::Failed(circular_message(path))
            } else if seen.contains(canon) {
                Loading::Loaded(seen, Seq::empty())
            } else {
                match list_load(chain.push(canon), seen.push(canon), path, ext, files, (fuel - 1) as nat) {
                    Loading::Failed(m) => Loading::Failed(m),
                    Loading::Loaded(l, found) => Loading::Loaded(l, found.push(path)),
                }
            },
        }
    }
}

/// Loading, in order, the trees of the `extends` paths `ext` written in `from`.
pub open spec fn list_load(chain: Seq<Seq<char>>, seen: Seq<Seq<char>>, from: Seq<char>, ext: Seq<Seq<char>>, files: Seq<ProjectFile>, fuel: nat) -> Loading
    decreases fuel, ext.len(),
{
    if ext.len() == 0 {
        Loading::Loaded(seen, Seq::empty())
    } else {
        match list_load(chain, seen, from, ext.drop_last(), files, fuel) {
            Loading::Failed(m) => Loading::Failed(m),
            Loading::Loaded(l1, a1) => match tree_load(chain, l1, spec_resolve_relative(from, ext.last()), files, fuel) {
                Loading::Failed(m) => Loading::Failed(m),
                Loading::Loaded(l2, a2) => Loading::Loaded(l2, a1 + a2),
            },
        }
    }
}

/// Loading the tree of `path` with a fresh resolver.
pub open spec fn load_result(path: Seq<char>, files: Seq<ProjectFile>) -> Loading {
    tree_load(Seq::empty(), Seq::empty(), path, files, files.len() + 1)
}

/// The paths of a list of loaded files.
pub open spec fn file_paths(s: Seq<LoadedFile>) -> Seq<Seq<char>> {
    s.map_values(|f: LoadedFile| f.path@)
}

/// The message for a path that could not be made absolute.
pub open spec fn unresolved_message(path: Seq<char>, err: Seq<char>) -> Seq<char> {
    "Failed to resolve path "@ + path + ": "@ + err
}

/// The canonical path of a listed file is the canonical path of one of the files.
proof fn lemma_listed_in(files: Seq<ProjectFile>, p: Seq<char>)
    requires
        listed(files, p) is Some,
    ensures
        canonicals(files).contains(listed_canonical(files, p)),
    decreases files.len(),
{
    let keys = canonicals(files);
    if listed(files.drop_last(), p) is Some {
        lemma_listed_in(files.drop_last(), p);
        let q = canonicals(files.drop_last());
        let j = choose|j: int| 0 <= j < q.len() && q[j] == listed_canonical(files, p);
        assert(keys[j] == q[j]);
    } else {
        assert(keys[files.len() - 1] == listed_canonical(files, p));
    }
}

/// Once loading a prefix of the `extends` paths fails, loading more of them fails the same way.
proof fn lemma_failure_stays(chain: Seq<Seq<char>>, seen: Seq<Seq<char>>, from: Seq<char>, ext: Seq<Seq<char>>, files: Seq<ProjectFile>, fuel: nat, k: int, m: Seq<char>)
    requires
        0 <= k <= ext.len(),
        list_load(chain, seen, from, ext.take(k), files, fuel) == Loading::Failed(m),
    ensures
        list_load(chain, seen, from, ext, files, fuel) == Loading::Failed(m),
    decreases ext.len() - k,
{
    if k < ext.len() {
        assert(ext.take(k + 1).drop_last() =~= ext.take(k));
        lemma_failure_stays(chain, seen, from, ext, files, fuel, k + 1, m);
    } else {
        assert(ext.take(k) =~= ext);
    }
}

/// The error for a file met again on its own extends chain.
fn circular_error(path: &str) -> (d: Vec<Diagnostic>)
    ensures
        d@.len() == 1 && d@[0].severity == Severity::Error && d@[0].span == Span::spec_file_start()
            && d@[0].message@ == circular_message(path@),
{
    let mut m: Vec<char> = Vec::new();
    push_str(&mut m, "Circular @extends detected: ");
    push_str(&mut m, path);
    push_str(&mut m, " is already in the extends chain");
    let msg = string_from_chars(m.as_slice());
    let mut d: Vec<Diagnostic> = Vec::new();
    d.push(Diagnostic::at_file_start(Severity::Error, msg));
    proof { assert(msg@ =~= circular_message(path@)); }
    d
}

/// The error for a file that does not exist.
fn missing_error(path: &str) -> (d: Vec<Diagnostic>)
    ensures
        d@.len() == 1 && d@[0].severity == Severity::Error && d@[0].span == Span::spec_file_start()
            && d@[0].message@ == missing_message(path@),
{
    let mut m: Vec<char> = Vec::new();
    push_str(&mut m, "Failed to read file ");
    push_str(&mut m, path);
    push_str(&mut m, ": No such file or directory");
    let msg = string_from_chars(m.as_slice());
    let mut d: Vec<Diagnostic> = Vec::new();
    d.push(Diagnostic::at_file_start(Severity::Error, msg));
    proof { assert(msg@ =~= missing_message(path@)); }
    d
}

impl FileResolver {
    /// A resolver that has loaded nothing.
    pub fn new() -> (r: FileResolver)
        ensures
            r.loaded_files@.len() == 0,
    {
        FileResolver { loaded_files: Vec::new() }
    }

    /// Resolves a path written in an `extends` directive against the directory of the
    /// file that holds it, joining without normalizing (`./types.cdm`, `../base.cdm`).
    pub fn resolve_path(&self, current_file: &str, extends_path: &str) -> (r: String)
        ensures
            r@ == spec_resolve_relative(current_file@, extends_path@),
    {
        resolve_relative(current_file, extends_path)
    }

    /// Loads one file without its dependencies: refuses a file already in the chain,
    /// then a file that does not exist, and otherwise records the file as loaded.
    /// Whether the file exists is what the caller found on disk.
    pub fn load_single_file(&mut self, file_path: &str, exists: bool) -> (r: Result<LoadedFile, Vec<Diagnostic>>)
        ensures
            in_chain(views(old(self).loaded_files@), file_path@) ==> match r {
                Err(d) => d@.len() == 1 && d@[0].severity == Severity::Error && d@[0].span == Span::spec_file_start()
                    && d@[0].message@ == circular_message(file_path@),
                Ok(_) => false,
            },
            !in_chain(views(old(self).loaded_files@), file_path@) && !exists ==> match r {
                Err(d) => d@.len() == 1 && d@[0].severity == Severity::Error && d@[0].span == Span::spec_file_start()
                    && d@[0].message@ == missing_message(file_path@),
                Ok(_) => false,
            },
            !in_chain(views(old(self).loaded_files@), file_path@) && exists ==> match r {
                Ok(f) => f.path@ == file_path@,
                Err(_) => false,
            },
            r is Err ==> final(self).loaded_files@ == old(self).loaded_files@,
            r is Ok ==> views(final(self).loaded_files@) == views(old(self).loaded_files@).push(file_path@),
    {
        if chain_contains(&self.loaded_files, file_path) {
            return Err(circular_error(file_path));
        }
        if !exists {
            return Err(missing_error(file_path));
        }
        let ghost before = self.loaded_files@;
        self.loaded_files.push(file_path.to_string());
        proof { assert(views(self.loaded_files@) =~= views(before).push(file_path@)); }
        Ok(LoadedFile::new(file_path.to_string()))
    }

    /// Loads the tree of a file: the file, then each file its `extends` paths name,
    /// recursively, depth first. `files` are the files that exist, each with its
    /// canonical path and the `extends` paths written in it; `chain` holds the canonical
    /// paths of the files on the way down to this one, and `loaded_files` those of the
    /// files loaded so far. A file whose canonical path is on the chain fails as
    /// circular, a missing file as unreadable, and the first failure ends the loading;
    /// a file already loaded off the chain is not loaded again (`None`).
    fn load_file_tree(&mut self, chain: &Vec<String>, file_path: &str, files: &Vec<ProjectFile>, Ghost(fuel): Ghost<nat>)
        -> (r: Result<Option<LoadedFileTree>, Vec<Diagnostic>>)
        requires
            fuel + chain@.len() > files@.len(),
            views(chain@).no_duplicates(),
            forall|j: int| 0 <= j < chain@.len() ==> canonicals(files@).contains(#[trigger] views(chain@)[j]),
        ensures
            match r {
                Ok(Some(t)) => tree_load(views(chain@), views(old(self).loaded_files@), file_path@, files@, fuel)
                        == Loading::Loaded(views(final(self).loaded_files@), file_paths(t.ancestors@).push(file_path@))
                    && t.main.path@ == file_path@,
                Ok(None) => tree_load(views(chain@), views(old(self).loaded_files@), file_path@, files@, fuel)
                        == Loading::Loaded(views(old(self).loaded_files@), Seq::empty())
                    && views(final(self).loaded_files@) == views(old(self).loaded_files@),
                Err(d) => d@.len() == 1 && d@[0].severity == Severity::Error && d@[0].span == Span::spec_file_start()
                    && tree_load(views(chain@), views(old(self).loaded_files@), file_path@, files@, fuel) == Loading::Failed(d@[0].message@),
            },
        decreases fuel,
    {
        let ghost ch = views(chain@);
        let ghost seen0 = views(self.loaded_files@);
        proof {
            if fuel == 0 {
                crate::dependency_graph::lemma_bounded_by_targets(ch, canonicals(files@));
                assert(false);
            }
        }
        let mut found: Option<usize> = None;
        let mut k: usize = 0;
        while k < files.len()
            invariant
                k <= files@.len(),
                found is None ==> listed(files@.take(k as int), file_path@) is None,
                found matches Some(i) ==> i < files@.len() && listed(files@.take(k as int), file_path@)
                    == Some((files@[i as int].canonical@, views(files@[i as int].extends_paths@))),
            decreases files@.len() - k,
        {
            proof {
                assert(files@.take(k as int + 1).drop_last() =~= files@.take(k as int));
                assert(files@.take(k as int + 1).last() == files@[k as int]);
            }
            if found.is_none() {
                let a = path_key(files[k].path.as_str());
                let b = path_key(file_path);
                if str_eq(a.as_str(), b.as_str()) {
                    found = Some(k);
                }
            }
            k = k + 1;
        }
        proof { assert(files@.take(files@.len() as int) =~= files@); }
        let i = match found {
            Some(i) => i,
            None => { return Err(missing_error(file_path)); },
        };
        let canon = &files[i].canonical;
        let ext = &files[i].extends_paths;
        let ghost ev = views(ext@);
        proof { lemma_listed_in(files@, file_path@); }
        if contains_text(chain.as_slice(), canon.as_str()) {
            return Err(circular_error(file_path));
        }
        if contains_text(self.loaded_files.as_slice(), canon.as_str()) {
            return Ok(None);
        }
        self.loaded_files.push(canon.clone());
        let ghost seen1 = views(self.loaded_files@);
        proof { assert(seen1 =~= seen0.push(canon@)); }
        let mut sub_chain = copy_strings(chain);
        sub_chain.push(canon.clone());
        let ghost ch1 = views(sub_chain@);
        let ghost f1 = (fuel - 1) as nat;
        proof {
            assert(ch1 =~= ch.push(canon@));
            assert(ch1.no_duplicates()) by {
                assert forall|x: int, y: int| 0 <= x < y < ch1.len() implies ch1[x] != ch1[y] by {
                    if y == ch.len() {
                        assert(ch1[x] == ch[x]);
                    } else {
                        assert(ch1[x] == ch[x] && ch1[y] == ch[y]);
                    }
                }
            }
            assert forall|j: int| 0 <= j < sub_chain@.len() implies canonicals(files@).contains(#[trigger] views(sub_chain@)[j]) by {
                if j < ch.len() {
                    assert(views(sub_chain@)[j] == ch[j]);
                    assert(ch[j] == views(chain@)[j]);
                }
            }
            assert(list_load(ch1, seen1, file_path@, ev.take(0), files@, f1) == Loading::Loaded(seen1, Seq::<Seq<char>>::empty()));
        }
        let mut ancestors: Vec<LoadedFile> = Vec::new();
        let mut n: usize = 0;
        proof { assert(file_paths(ancestors@) =~= Seq::<Seq<char>>::empty()); }
        while n < ext.len()
            invariant
                ev == views(ext@),
                ch1 == views(sub_chain@),
                listed(files@, file_path@) == Some((canon@, ev)),
                !ch.contains(canon@),
                !seen0.contains(canon@),
                ch1 == ch.push(canon@),
                seen1 == seen0.push(canon@),
                ch == views(chain@),
                seen0 == views(old(self).loaded_files@),
                n <= ext@.len(),
                f1 == fuel - 1,
                fuel > 0,
                f1 + sub_chain@.len() > files@.len(),
                ch1.no_duplicates(),
                forall|j: int| 0 <= j < sub_chain@.len() ==> canonicals(files@).contains(#[trigger] views(sub_chain@)[j]),
                list_load(ch1, seen1, file_path@, ev.take(n as int), files@, f1) == Loading::Loaded(views(self.loaded_files@), file_paths(ancestors@)),
            decreases ext@.len() - n,
        {
            let resolved = self.resolve_path(file_path, ext[n].as_str());
            let ghost before = views(self.loaded_files@);
            let ghost a_before = file_paths(ancestors@);
            proof {
                assert(ev.take(n as int + 1).drop_last() =~= ev.take(n as int));
                assert(ev.take(n as int + 1).last() == ext@[n as int]@);
            }
            match self.load_file_tree(&sub_chain, resolved.as_str(), files, Ghost(f1)) {
                Err(d) => {
                    proof {
                        assert(resolved@ == spec_resolve_relative(file_path@, ev.take(n as int + 1).last()));
                        assert(list_load(ch1, seen1, file_path@, ev.take(n as int + 1), files@, f1) == Loading::Failed(d@[0].message@));
                        lemma_failure_stays(ch1, seen1, file_path@, ev, files@, f1, n as int + 1, d@[0].message@);
                        assert(tree_load(ch, seen0, file_path@, files@, fuel) == Loading::Failed(d@[0].message@));
                    }
                    return Err(d);
                },
                Ok(None) => {
                    proof {
                        assert(resolved@ == spec_resolve_relative(file_path@, ev.take(n as int + 1).last()));
                        assert(a_before + Seq::<Seq<char>>::empty() =~= a_before);
                    }
                },
                Ok(Some(t)) => {
                    let mut sub = t.ancestors;
                    let ghost sub_paths = file_paths(sub@);
                    ancestors.append(&mut sub);
                    ancestors.push(t.main);
                    proof {
                        assert(resolved@ == spec_resolve_relative(file_path@, ev.take(n as int + 1).last()));
                        assert(file_paths(ancestors@) =~= a_before + sub_paths.push(resolved@));
                    }
                },
            }
            n = n + 1;
        }
        proof {
            assert(ev.take(ext@.len() as int) =~= ev);
            assert(tree_load(ch, seen0, file_path@, files@, fuel)
                == Loading::Loaded(views(self.loaded_files@), file_paths(ancestors@).push(file_path@)));
        }
        Ok(Some(LoadedFileTree { main: LoadedFile::new(file_path.to_string()), ancestors }))
    }

    /// The absolute path of a file, given what `Path::canonicalize` gave for it (the
    /// error as its text).
    pub fn to_absolute_path(path: &str, canonical: Result<String, String>) -> (r: Result<String, Vec<Diagnostic>>)
        ensures
            match canonical {
                Ok(p) => r == Ok::<String, Vec<Diagnostic>>(p),
                Err(e) => match r {
                    Err(d) => d@.len() == 1 && d@[0].severity == Severity::Error && d@[0].span == Span::spec_file_start()
                        && d@[0].message@ == unresolved_message(path@, e@),
                    Ok(_) => false,
                },
            },
    {
        match canonical {
            Ok(p) => Ok(p),
            Err(e) => {
                let mut m: Vec<char> = Vec::new();
                push_str(&mut m, "Failed to resolve path ");
                push_str(&mut m, path);
                push_str(&mut m, ": ");
                push_str(&mut m, e.as_str());
                let msg = string_from_chars(m.as_slice());
                proof { assert(msg@ =~= unresolved_message(path@, e@)); }
                let mut d: Vec<Diagnostic> = Vec::new();
                d.push(Diagnostic::at_file_start(Severity::Error, msg));
                Err(d)
            },
        }
    }

    /// Loads a CDM file and all its `extends` dependencies, depth first (each
    /// ancestor's own ancestors before it). `canonical` is what `Path::canonicalize`
    /// gave for `file_path`; `files` are the files that exist, with the `extends`
    /// paths written in each.
    pub fn load(file_path: &str, canonical: Result<String, String>, files: &Vec<ProjectFile>) -> (r: Result<LoadedFileTree, Vec<Diagnostic>>)
        ensures
            match canonical {
                Err(e) => match r {
                    Err(d) => d@.len() == 1 && d@[0].severity == Severity::Error && d@[0].message@ == unresolved_message(file_path@, e@),
                    Ok(_) => false,
                },
                Ok(abs) => match load_result(abs@, files@) {
                    Loading::Loaded(_, found) => match r {
                        Ok(t) => t.main.path@ == abs@ && file_paths(t.ancestors@) == found.drop_last(),
                        Err(_) => false,
                    },
                    Loading::Failed(m) => match r {
                        Err(d) => d@.len() == 1 && d@[0].severity == Severity::Error && d@[0].message@ == m,
                        Ok(_) => false,
                    },
                },
            },
    {
        let absolute = match FileResolver::to_absolute_path(file_path, canonical) {
            Ok(p) => p,
            Err(d) => return Err(d),
        };
        let mut resolver = FileResolver::new();
        let chain: Vec<String> = Vec::new();
        proof {
            assert(views(resolver.loaded_files@) =~= Seq::<Seq<char>>::empty());
            assert(views(chain@) =~= Seq::<Seq<char>>::empty());
        }
        match resolver.load_file_tree(&chain, absolute.as_str(), files, Ghost((files@.len() + 1) as nat)) {
            Ok(Some(t)) => {
                proof { assert(file_paths(t.ancestors@).push(absolute@).drop_last() =~= file_paths(t.ancestors@)); }
                Ok(t)
            },
            Ok(None) => {
                proof { assert(false); }
                Err(Vec::new())
            },
            Err(d) => Err(d),
        }
    }
}

impl Default for FileResolver {
    /// The same as `FileResolver::new`.
    fn default() -> (r: FileResolver)
        ensures
            r.loaded_files@.len() == 0,
    {
        FileResolver::new()
    }
}

} // verus!
