use vstd::prelude::*;

verus! {

broadcast use vstd::string::group_string_axioms;

/// The text of each path in a list.
pub open spec fn views(v: Seq<String>) -> Seq<Seq<char>> {
    v.map_values(|s: String| s@)
}

// The path names below follow the path rules of the target the library is built for
// (Unix and Windows paths differ); on one target they are fixed functions of the text.

/// What `std::path::Path::parent` gives for a path, as text.
pub uninterp spec fn spec_path_parent(p: Seq<char>) -> Option<Seq<char>>;

/// What `std::path::Path::join` gives for a base path and a relative path, as text.
pub uninterp spec fn spec_path_join(base: Seq<char>, rel: Seq<char>) -> Seq<char>;

/// The text of a path rebuilt from its components (`Path::components`), as `PathBuf`
/// compares paths: repeated separators, interior `.` and a trailing separator dropped.
pub uninterp spec fn spec_path_key(p: Seq<char>) -> Seq<char>;

/// What `slice::sort` on `PathBuf`s gives for a list of paths, as text.
pub uninterp spec fn spec_sorted_paths(v: Seq<Seq<char>>) -> Seq<Seq<char>>;

/// Whether `a <= b` when the two paths are compared as `PathBuf`s (component by
/// component).
pub uninterp spec fn spec_path_le(a: Seq<char>, b: Seq<char>) -> bool;

/// `Path::parent`: the path without its final component, if it has one.
/// Trusted: the result is the named value of `p`; nothing more is claimed.
#[verifier::external_body]
pub(crate) fn path_parent(p: &str) -> (r: Option<String>)
    ensures
        match r {
            Some(s) => spec_path_parent(p@) == Some(s@),
            None => spec_path_parent(p@) is None,
        },
{
    std::path::Path::new(p).parent().map(|q| q.to_string_lossy().into_owned())
}

/// `Path::components` collected into a `PathBuf`: the path as `PathBuf`'s `==` sees it,
/// so that two paths are equal as `PathBuf`s exactly when their keys are equal.
/// Trusted: the result is the named value of `p`, and it is already in component form
/// (taking its components again gives it back), as `Path::components` documents the
/// normalization it applies.
#[verifier::external_body]
pub(crate) fn path_key(p: &str) -> (r: String)
    ensures
        r@ == spec_path_key(p@),
        spec_path_key(r@) == r@,
{
    std::path::Path::new(p).components().collect::<std::path::PathBuf>().to_string_lossy().into_owned()
}

/// `Path::join`: `rel` appended to `base` (or `rel` itself when it is absolute).
/// Trusted: the result is the named value of the two arguments; nothing more is claimed.
#[verifier::external_body]
pub(crate) fn path_join(base: &str, rel: &str) -> (r: String)
    ensures
        r@ == spec_path_join(base@, rel@),
{
    std::path::Path::new(base).join(rel).to_string_lossy().into_owned()
}

/// `slice::sort` on the paths as `PathBuf`s (component-wise order).
/// Trusted: the result is the named value of the input, it holds the same paths (a
/// permutation), and it is in ascending `PathBuf` order, as std documents for a sort;
/// since `PathBuf`'s order is total and agrees with its `==`, two paths that differ
/// as `PathBuf`s come out strictly ascending.
#[verifier::external_body]
pub(crate) fn sort_paths(v: Vec<String>) -> (r: Vec<String>)
    ensures
        views(r@) == spec_sorted_paths(views(v@)),
        views(r@).to_multiset() == views(v@).to_multiset(),
        forall|i: int, j: int| 0 <= i < j < r@.len() ==> spec_path_le(#[trigger] views(r@)[i], #[trigger] views(r@)[j]),
        forall|i: int, j: int| 0 <= i < j < r@.len() && spec_path_key(#[trigger] views(r@)[i]) != spec_path_key(#[trigger] views(r@)[j])
            ==> !spec_path_le(views(r@)[j], views(r@)[i]),
{
    let mut p: Vec<std::path::PathBuf> = v.into_iter().map(std::path::PathBuf::from).collect();
    p.sort();
    p.into_iter().map(|x| x.to_string_lossy().into_owned()).collect()
}

/// The file's directory joined with the written path (`.` when the file has no parent).
pub open spec fn spec_resolve_relative(current_file: Seq<char>, written: Seq<char>) -> Seq<char> {
    let dir = match spec_path_parent(current_file) {
        Some(d) => d,
        None => seq!['.'],
    };
    spec_path_join(dir, written)
}

/// Resolves a path written in a file (such as an `extends` target) against the
/// directory of that file. The result is joined, not normalized.
pub fn resolve_relative(current_file: &str, written: &str) -> (r: String)
    ensures
        r@ == spec_resolve_relative(current_file@, written@),
{
    let dir = match path_parent(current_file) {
        Some(d) => d,
        None => {
            proof { reveal_strlit("."); }
            let d = ".".to_string();
            assert("."@ =~= seq!['.']);
            assert(d@ =~= seq!['.']);
            d
        },
    };
    path_join(dir.as_str(), written)
}

/// Whether two strings hold the same text.
pub fn str_eq(a: &str, b: &str) -> (r: bool)
    ensures
        r == (a@ == b@),
{
    let ac = crate::text::chars_of(a);
    let bc = crate::text::chars_of(b);
    if ac.len() != bc.len() {
        return false;
    }
    let mut i: usize = 0;
    while i < ac.len()
        invariant
            ac@ == a@,
            bc@ == b@,
            ac@.len() == bc@.len(),
            i <= ac@.len(),
            forall|j: int| 0 <= j < i ==> ac@[j] == bc@[j],
        decreases ac@.len() - i,
    {
        if ac[i] != bc[i] {
            return false;
        }
        i = i + 1;
    }
    assert(ac@ =~= bc@);
    true
}

/// Whether some string in the list holds the text `s`.
pub fn contains_text(v: &[String], s: &str) -> (r: bool)
    ensures
        r == views(v@).contains(s@),
{
    let mut i: usize = 0;
    while i < v.len()
        invariant
            i <= v@.len(),
            forall|j: int| 0 <= j < i ==> v@[j]@ != s@,
        decreases v@.len() - i,
    {
        if str_eq(v[i].as_str(), s) {
            assert(views(v@)[i as int] == s@);
            return true;
        }
        i = i + 1;
    }
    false
}

} // verus!
