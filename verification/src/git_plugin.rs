use vstd::prelude::*;

use crate::json::{json_get, JsonValue, JsonView};
use crate::paths::{path_join, spec_path_join};
use crate::text::{chars_of, replace_all, replaced, string_from_chars, trim_end_matches, trimmed_end};

verus! {

broadcast use vstd::string::group_string_axioms;

/// The directory name for a git URL: the URL without its trailing `.git`, without its
/// scheme (`https://`, `http://`, `git://`) or `git@` prefix, and with `:`, `/` and `.`
/// turned into `_` (each step a replacement over the whole text, in that order).
pub open spec fn sanitized_git_url(url: Seq<char>) -> Seq<char> {
    let s0 = trimmed_end(url, seq!['.', 'g', 'i', 't']);
    let s1 = replaced(s0, seq!['h', 't', 't', 'p', 's', ':', '/', '/'], seq![]);
    let s2 = replaced(s1, seq!['h', 't', 't', 'p', ':', '/', '/'], seq![]);
    let s3 = replaced(s2, seq!['g', 'i', 't', ':', '/', '/'], seq![]);
    let s4 = replaced(s3, seq!['g', 'i', 't', '@'], seq![]);
    let s5 = replaced(s4, seq![':'], seq!['_']);
    let s6 = replaced(s5, seq!['/'], seq!['_']);
    replaced(s6, seq!['.'], seq!['_'])
}

/// Sanitize a git URL to create a safe directory name:
/// "https://github.com/user/repo.git" becomes "github_com_user_repo".
pub fn sanitize_git_url(url: &str) -> (r: String)
    ensures
        r@ == sanitized_git_url(url@),
{
    proof {
        reveal_strlit(".git");
        reveal_strlit("https://");
        reveal_strlit("http://");
        reveal_strlit("git://");
        reveal_strlit("git@");
        reveal_strlit(":");
        reveal_strlit("/");
        reveal_strlit(".");
        reveal_strlit("_");
        reveal_strlit("");
    }
    let u = chars_of(url);
    let git = chars_of(".git");
    let https = chars_of("https://");
    let http = chars_of("http://");
    let gitp = chars_of("git://");
    let gitat = chars_of("git@");
    let colon = chars_of(":");
    let slash = chars_of("/");
    let dot = chars_of(".");
    let underscore = chars_of("_");
    let empty: Vec<char> = Vec::new();
    proof {
        assert(git@ =~= seq!['.', 'g', 'i', 't']);
        assert(https@ =~= seq!['h', 't', 't', 'p', 's', ':', '/', '/']);
        assert(http@ =~= seq!['h', 't', 't', 'p', ':', '/', '/']);
        assert(gitp@ =~= seq!['g', 'i', 't', ':', '/', '/']);
        assert(gitat@ =~= seq!['g', 'i', 't', '@']);
        assert(colon@ =~= seq![':']);
        assert(slash@ =~= seq!['/']);
        assert(dot@ =~= seq!['.']);
        assert(underscore@ =~= seq!['_']);
        assert(empty@ =~= Seq::<char>::empty());
    }
    let s0 = trim_end_matches(u.as_slice(), git.as_slice());
    let s1 = replace_all(s0.as_slice(), https.as_slice(), empty.as_slice());
    let s2 = replace_all(s1.as_slice(), http.as_slice(), empty.as_slice());
    let s3 = replace_all(s2.as_slice(), gitp.as_slice(), empty.as_slice());
    let s4 = replace_all(s3.as_slice(), gitat.as_slice(), empty.as_slice());
    let s5 = replace_all(s4.as_slice(), colon.as_slice(), underscore.as_slice());
    let s6 = replace_all(s5.as_slice(), slash.as_slice(), underscore.as_slice());
    let s7 = replace_all(s6.as_slice(), dot.as_slice(), underscore.as_slice());
    string_from_chars(s7.as_slice())
}

/// Where the repository of a git plugin lives: `<cache>/git/<sanitized url>`.
pub open spec fn spec_git_repo_path(cache_path: Seq<char>, url: Seq<char>) -> Seq<char> {
    spec_path_join(spec_path_join(cache_path, seq!['g', 'i', 't']), sanitized_git_url(url))
}

/// The git cache directory under the plugin cache: `<cache>/git`.
pub fn git_cache_dir(cache_path: &str) -> (r: String)
    ensures
        r@ == spec_path_join(cache_path@, seq!['g', 'i', 't']),
{
    proof { reveal_strlit("git"); assert("git"@ =~= seq!['g', 'i', 't']); }
    path_join(cache_path, "git")
}

/// Where the repository of a git plugin lives under the plugin cache.
pub fn git_repo_path(cache_path: &str, url: &str) -> (r: String)
    ensures
        r@ == spec_git_repo_path(cache_path@, url@),
{
    let dir = git_cache_dir(cache_path);
    let name = sanitize_git_url(url);
    path_join(dir.as_str(), name.as_str())
}

/// What to do to bring a git plugin's repository up to date.
#[derive(Debug)]
pub enum GitAction {
    /// Clone `url` at `git_ref` into `dest` (shallow, that ref's branch only).
    Clone { url: String, dest: String, git_ref: String },
    /// Fetch, check out and pull `git_ref` in the existing repository at `repo_path`.
    Update { repo_path: String, git_ref: String },
}

/// The plan for cloning or updating a git plugin: the repository path under the cache,
/// and the action, which updates the repository when it already exists and clones it
/// otherwise. Once the action has run, the plugin's WASM file is the one that
/// `git_plugin_wasm_path` gives from the repository's manifest.
pub fn clone_git_plugin(url: &str, git_ref: &str, cache_path: &str, repo_exists: bool) -> (r: (String, GitAction))
    ensures
        r.0@ == spec_git_repo_path(cache_path@, url@),
        repo_exists ==> (r.1 matches GitAction::Update { repo_path, git_ref: g } && repo_path@ == r.0@ && g@ == git_ref@),
        !repo_exists ==> (r.1 matches GitAction::Clone { url: u, dest, git_ref: g } && u@ == url@ && dest@ == r.0@ && g@ == git_ref@),
{
    let repo_path = git_repo_path(cache_path, url);
    let action = if repo_exists {
        GitAction::Update { repo_path: repo_path.clone(), git_ref: git_ref.to_string() }
    } else {
        GitAction::Clone { url: url.to_string(), dest: repo_path.clone(), git_ref: git_ref.to_string() }
    };
    (repo_path, action)
}

/// The WASM file named by a plugin manifest: the string at `wasm.file`, if any.
pub open spec fn manifest_wasm_file(manifest: JsonView) -> Option<Seq<char>> {
    match json_get(manifest, seq!['w', 'a', 's', 'm']) {
        Some(w) => match json_get(w, seq!['f', 'i', 'l', 'e']) {
            Some(JsonView::Str(f)) => Some(f),
            _ => None,
        },
        None => None,
    }
}

/// Reads `wasm.file` from a parsed `cdm-plugin.json` manifest.
pub fn wasm_file_from_manifest(manifest: &JsonValue) -> (r: Option<String>)
    ensures
        match r {
            Some(f) => manifest_wasm_file(manifest@) == Some(f@),
            None => manifest_wasm_file(manifest@) is None,
        },
{
    proof {
        reveal_strlit("wasm");
        reveal_strlit("file");
        assert("wasm"@ =~= seq!['w', 'a', 's', 'm']);
        assert("file"@ =~= seq!['f', 'i', 'l', 'e']);
    }
    match manifest.get("wasm") {
        Some(w) => match w.get("file") {
            Some(f) => match f.as_str() {
                Some(s) => Some(s.to_string()),
                None => None,
            },
            None => None,
        },
        None => None,
    }
}

/// The directory of a plugin inside its repository: the subdirectory when one is given,
/// else the repository root.
pub open spec fn plugin_base(repo: Seq<char>, subdir: Option<Seq<char>>) -> Seq<char> {
    match subdir {
        Some(sub) => spec_path_join(repo, sub),
        None => repo,
    }
}

/// The plugin directory inside a repository (see `plugin_base`).
pub fn plugin_base_dir(repo_path: &str, subdir: Option<&str>) -> (r: String)
    ensures
        r@ == plugin_base(repo_path@, match subdir { Some(s) => Some(s@), None => None }),
{
    match subdir {
        Some(sub) => path_join(repo_path, sub),
        None => repo_path.to_string(),
    }
}

/// Where the manifest of a plugin lies: `cdm-plugin.json` in the plugin directory.
pub fn manifest_path(repo_path: &str, subdir: Option<&str>) -> (r: String)
    ensures
        r@ == spec_path_join(plugin_base(repo_path@, match subdir { Some(s) => Some(s@), None => None }), "cdm-plugin.json"@),
{
    let base = plugin_base_dir(repo_path, subdir);
    path_join(base.as_str(), "cdm-plugin.json")
}

/// The WASM file of a plugin: the file its manifest names at `wasm.file`, in the plugin
/// directory of the repository; none when the manifest names none.
pub open spec fn plugin_wasm_path(repo: Seq<char>, subdir: Option<Seq<char>>, manifest: JsonView) -> Option<Seq<char>> {
    match manifest_wasm_file(manifest) {
        Some(f) => Some(spec_path_join(plugin_base(repo, subdir), f)),
        None => None,
    }
}

/// The path of a plugin's WASM file from its parsed manifest (see `plugin_wasm_path`).
pub fn wasm_path_from_manifest(repo_path: &str, subdir: Option<&str>, manifest: &JsonValue) -> (r: Option<String>)
    ensures
        match r {
            Some(p) => plugin_wasm_path(repo_path@, match subdir { Some(s) => Some(s@), None => None }, manifest@) == Some(p@),
            None => plugin_wasm_path(repo_path@, match subdir { Some(s) => Some(s@), None => None }, manifest@) is None,
        },
{
    match wasm_file_from_manifest(manifest) {
        Some(f) => {
            let base = plugin_base_dir(repo_path, subdir);
            Some(path_join(base.as_str(), f.as_str()))
        },
        None => None,
    }
}

/// The WASM file that cloning a git plugin yields: the file named at `wasm.file` by the
/// manifest at the root of the plugin's repository under the cache.
pub open spec fn git_plugin_wasm(cache_path: Seq<char>, url: Seq<char>, manifest: JsonView) -> Option<Seq<char>> {
    plugin_wasm_path(spec_git_repo_path(cache_path, url), None, manifest)
}

/// The path to the plugin's WASM file once its repository is cloned or updated (see
/// `clone_git_plugin` for the plan and `git_plugin_wasm`), from the repository's
/// parsed manifest; none when the manifest names no WASM file.
pub fn git_plugin_wasm_path(cache_path: &str, url: &str, manifest: &JsonValue) -> (r: Option<String>)
    ensures
        match r {
            Some(p) => git_plugin_wasm(cache_path@, url@, manifest@) == Some(p@),
            None => git_plugin_wasm(cache_path@, url@, manifest@) is None,
        },
{
    let repo = git_repo_path(cache_path, url);
    wasm_path_from_manifest(repo.as_str(), None, manifest)
}

} // verus!
