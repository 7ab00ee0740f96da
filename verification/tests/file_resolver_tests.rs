use cdm::diagnostics::{Diagnostic, Severity};
use cdm::file_resolver::{FileResolver, LoadedFile, LoadedFileTree, ProjectFile};
use std::path::PathBuf;

#[test]
fn test_file_resolver_default() {
    let resolver1 = FileResolver::default();
    let resolver2 = FileResolver::new();
    assert_eq!(resolver1.loaded_files.len(), 0);
    assert_eq!(resolver2.loaded_files.len(), 0);
}

#[test]
fn test_resolve_path_same_directory() {
    let resolver = FileResolver::new();
    let resolved = resolver.resolve_path("/path/to/schema.cdm", "./types.cdm");
    assert_eq!(PathBuf::from(resolved), PathBuf::from("/path/to/types.cdm"));
}

#[test]
fn test_resolve_path_parent_directory() {
    let resolver = FileResolver::new();
    let resolved = resolver.resolve_path("/path/to/schema.cdm", "../shared/base.cdm");
    assert_eq!(PathBuf::from(resolved), PathBuf::from("/path/to/../shared/base.cdm"));
}

#[test]
fn test_resolve_path_multiple_levels_up() {
    let resolver = FileResolver::new();
    let resolved = resolver.resolve_path("/path/to/deep/schema.cdm", "../../common/types.cdm");
    assert_eq!(PathBuf::from(resolved), PathBuf::from("/path/to/deep/../../common/types.cdm"));
}

#[test]
fn test_resolve_path_subdirectory() {
    let resolver = FileResolver::new();
    let resolved = resolver.resolve_path("/path/to/schema.cdm", "./models/user.cdm");
    assert_eq!(PathBuf::from(resolved), PathBuf::from("/path/to/models/user.cdm"));
}

#[test]
fn test_loaded_file_path_preserved() {
    let original_path = "/some/path/test.cdm".to_string();
    let loaded_file = LoadedFile::new_for_test(original_path.clone());
    assert_eq!(loaded_file.path, original_path);
}

#[test]
fn resolve_path_without_parent_uses_current_directory() {
    let resolver = FileResolver::new();
    let resolved = resolver.resolve_path("", "base.cdm");
    assert_eq!(PathBuf::from(resolved), PathBuf::from("./base.cdm"));
}

#[test]
fn load_single_file_detects_cycles_and_missing_files() {
    let mut resolver = FileResolver::new();
    let first = resolver.load_single_file("/a.cdm", true).unwrap();
    assert_eq!(first.path, "/a.cdm");
    assert_eq!(resolver.loaded_files, vec!["/a.cdm".to_string()]);

    let again = resolver.load_single_file("/a.cdm", true).unwrap_err();
    assert_eq!(again.len(), 1);
    assert_eq!(again[0].message, "Circular @extends detected: /a.cdm is already in the extends chain");

    let missing = resolver.load_single_file("/b.cdm", false).unwrap_err();
    assert_eq!(missing[0].message, "Failed to read file /b.cdm: No such file or directory");
    assert_eq!(resolver.loaded_files.len(), 1);
}

// The fixture projects of the resolver tests, as `load` receives them: the files that
// exist under `/fixtures/file_resolver`, each with the `extends` paths written in it.
const ROOT: &str = "/fixtures/file_resolver";

fn project() -> Vec<ProjectFile> {
    let file = |path: &str, extends: &[&str]| ProjectFile {
        path: format!("{}/{}", ROOT, path),
        canonical: format!("{}/{}", ROOT, path),
        extends_paths: extends.iter().map(|e| e.to_string()).collect(),
    };
    vec![
        file("single_file/simple.cdm", &[]),
        file("single_extends/base.cdm", &[]),
        file("single_extends/child.cdm", &["./base.cdm"]),
        file("multiple_extends/types.cdm", &[]),
        file("multiple_extends/mixins.cdm", &[]),
        file("multiple_extends/child.cdm", &["./types.cdm", "./mixins.cdm"]),
        file("nested_chain/base.cdm", &[]),
        file("nested_chain/client.cdm", &["./base.cdm"]),
        file("nested_chain/mobile.cdm", &["./client.cdm"]),
        file("circular/a.cdm", &["./b.cdm"]),
        file("circular/b.cdm", &["./a.cdm"]),
        file("invalid/missing_extends.cdm", &["./does_not_exist.cdm"]),
    ]
}

fn fixture(path: &str) -> String {
    format!("{}/{}", ROOT, path)
}

fn load(path: &str) -> Result<LoadedFileTree, Vec<Diagnostic>> {
    let p = fixture(path);
    FileResolver::load(&p, Ok(p.clone()), &project())
}

fn ancestor_paths(tree: &LoadedFileTree) -> Vec<String> {
    tree.ancestors.iter().map(|a| a.path.clone()).collect()
}

#[test]
fn file_resolver_test_load_single_file() {
    let tree = load("single_file/simple.cdm").unwrap();
    assert_eq!(tree.main.path, fixture("single_file/simple.cdm"));
    assert_eq!(tree.ancestors.len(), 0);
}

#[test]
fn file_resolver_test_load_with_single_extends() {
    let tree = load("single_extends/child.cdm").unwrap();
    assert_eq!(tree.main.path, fixture("single_extends/child.cdm"));
    assert_eq!(tree.ancestors.len(), 1);
    assert_eq!(PathBuf::from(&tree.ancestors[0].path), PathBuf::from(fixture("single_extends/base.cdm")));
}

#[test]
fn file_resolver_test_load_with_multiple_extends() {
    let tree = load("multiple_extends/child.cdm").unwrap();
    assert_eq!(tree.ancestors.len(), 2);
}

#[test]
fn file_resolver_test_load_nested_chain() {
    let tree = load("nested_chain/mobile.cdm").unwrap();
    assert_eq!(tree.main.path, fixture("nested_chain/mobile.cdm"));
    assert_eq!(tree.ancestors.len(), 2);
}

#[test]
fn file_resolver_test_load_circular_detected() {
    let errors = load("circular/a.cdm").unwrap_err();
    assert!(errors[0].message.contains("Circular @extends detected"));
}

#[test]
fn file_resolver_test_load_file_not_found() {
    let errors = load("invalid/missing_extends.cdm").unwrap_err();
    assert!(errors[0].message.contains("Failed to read file"));
}

#[test]
fn file_resolver_tests_test_load_single_file() {
    let tree = load("single_file/simple.cdm").unwrap();
    assert_eq!(tree.ancestors.len(), 0);
}

#[test]
fn file_resolver_tests_test_load_with_single_extends() {
    let tree = load("single_extends/child.cdm").unwrap();
    assert_eq!(tree.ancestors.len(), 1);
}

#[test]
fn file_resolver_tests_test_load_with_multiple_extends() {
    let tree = load("multiple_extends/child.cdm").unwrap();
    assert_eq!(tree.ancestors.len(), 2);
}

#[test]
fn file_resolver_tests_test_load_nested_chain() {
    let tree = load("nested_chain/mobile.cdm").unwrap();
    assert_eq!(tree.ancestors.len(), 2);
}

#[test]
fn file_resolver_tests_test_load_circular_detected() {
    let errors = load("circular/a.cdm").unwrap_err();
    assert!(errors[0].message.contains("Circular @extends detected"));
}

#[test]
fn file_resolver_tests_test_load_file_not_found() {
    let errors = load("invalid/missing_extends.cdm").unwrap_err();
    assert!(errors[0].message.contains("Failed to read file"));
}

#[test]
fn test_loaded_file_debug() {
    let loaded_file = LoadedFile::new_for_test("test.cdm".to_string());
    let debug_output = format!("{:?}", loaded_file);
    assert!(debug_output.contains("LoadedFile"));
    assert!(debug_output.contains("test.cdm"));
}

#[test]
fn test_loaded_file_tree_debug() {
    let main = LoadedFile::new_for_test("main.cdm".to_string());
    let ancestor = LoadedFile::new_for_test("base.cdm".to_string());
    let tree = LoadedFileTree { main, ancestors: vec![ancestor] };
    let debug_output = format!("{:?}", tree);
    assert!(debug_output.contains("LoadedFileTree"));
    assert!(debug_output.contains("main.cdm"));
    assert!(debug_output.contains("base.cdm"));
}

#[test]
fn test_to_absolute_path_nonexistent() {
    let result = FileResolver::to_absolute_path("/nonexistent/path/file.cdm", Err("No such file or directory (os error 2)".to_string()));
    let errors = result.unwrap_err();
    assert!(errors[0].message.contains("Failed to resolve path"));
    assert_eq!(errors[0].message, "Failed to resolve path /nonexistent/path/file.cdm: No such file or directory (os error 2)");
}

#[test]
fn test_circular_dependency_error_details() {
    let errors = load("circular/a.cdm").unwrap_err();
    assert_eq!(errors.len(), 1);
    assert_eq!(errors[0].severity, Severity::Error);
    assert!(errors[0].message.contains("Circular"));
    assert!(errors[0].message.contains("extends"));
}

#[test]
fn test_missing_file_error_details() {
    let errors = load("invalid/missing_extends.cdm").unwrap_err();
    assert_eq!(errors.len(), 1);
    assert_eq!(errors[0].severity, Severity::Error);
    assert!(errors[0].message.contains("Failed to read file"));
    assert!(errors[0].message.contains("No such file or directory"));
}

#[test]
fn test_ancestor_order_depth_first() {
    // In a chain mobile -> client -> base, the ancestors are [base, client].
    let tree = load("nested_chain/mobile.cdm").unwrap();
    assert_eq!(tree.ancestors.len(), 2);
    let paths: Vec<PathBuf> = ancestor_paths(&tree).into_iter().map(PathBuf::from).collect();
    assert_eq!(paths[0], PathBuf::from(fixture("nested_chain/base.cdm")));
    assert_eq!(paths[1], PathBuf::from(fixture("nested_chain/client.cdm")));
}

#[test]
fn test_multiple_extends_all_loaded() {
    let tree = load("multiple_extends/child.cdm").unwrap();
    assert_eq!(tree.ancestors.len(), 2);
    let paths: Vec<PathBuf> = ancestor_paths(&tree).into_iter().map(PathBuf::from).collect();
    assert_eq!(paths[0], PathBuf::from(fixture("multiple_extends/types.cdm")));
    assert_eq!(paths[1], PathBuf::from(fixture("multiple_extends/mixins.cdm")));
}

#[test]
fn test_file_resolver_tracks_loaded_files() {
    let mut resolver = FileResolver::new();
    let file_path = fixture("single_file/simple.cdm");
    assert_eq!(resolver.loaded_files.len(), 0);
    let _ = resolver.load_single_file(&file_path, true);
    assert!(resolver.loaded_files.contains(&file_path));
}

fn pf(path: &str, canonical: &str, extends: &[&str]) -> ProjectFile {
    ProjectFile {
        path: path.to_string(),
        canonical: canonical.to_string(),
        extends_paths: extends.iter().map(|e| e.to_string()).collect(),
    }
}

#[test]
fn a_shared_ancestor_is_loaded_once_and_is_not_circular() {
    // top extends left and right; both extend base (a diamond, not a cycle)
    let files = vec![
        pf("/d/top.cdm", "/d/top.cdm", &["./left.cdm", "./right.cdm"]),
        pf("/d/left.cdm", "/d/left.cdm", &["./base.cdm"]),
        pf("/d/right.cdm", "/d/right.cdm", &["./base.cdm"]),
        pf("/d/base.cdm", "/d/base.cdm", &[]),
    ];
    let tree = FileResolver::load("/d/top.cdm", Ok("/d/top.cdm".to_string()), &files).unwrap();
    let paths = ancestor_paths(&tree);
    assert_eq!(paths.len(), 3);
    assert!(paths[0].ends_with("base.cdm"));
    assert!(paths[1].ends_with("left.cdm"));
    assert!(paths[2].ends_with("right.cdm"));
}

#[test]
fn a_cycle_through_dotted_paths_is_caught_at_the_first_file() {
    let files = vec![
        pf("/c/a.cdm", "/c/a.cdm", &["./b.cdm"]),
        pf("/c/b.cdm", "/c/b.cdm", &["./a.cdm"]),
    ];
    let errors = FileResolver::load("/c/a.cdm", Ok("/c/a.cdm".to_string()), &files).unwrap_err();
    assert!(errors[0].message.starts_with("Circular @extends detected: /c/"));
    assert!(errors[0].message.ends_with("a.cdm is already in the extends chain"));
}

#[test]
fn a_cycle_through_a_differently_spelled_path_is_caught() {
    // a extends b, and b extends a again through "../d/a.cdm"
    let files = vec![
        pf("/w/d/a.cdm", "/w/d/a.cdm", &["./b.cdm"]),
        pf("/w/d/b.cdm", "/w/d/b.cdm", &["../d/a.cdm"]),
        pf("/w/d/../d/a.cdm", "/w/d/a.cdm", &["./b.cdm"]),
    ];
    let errors = FileResolver::load("/w/d/a.cdm", Ok("/w/d/a.cdm".to_string()), &files).unwrap_err();
    assert!(errors[0].message.contains("Circular"));
    assert!(errors[0].message.contains("../d/a.cdm"));
}
