use cdm::git_plugin::sanitize_git_url;

#[test]
fn test_sanitize_git_url_https() {
    assert_eq!(sanitize_git_url("https://github.com/user/repo.git"), "github_com_user_repo");
}

#[test]
fn test_sanitize_git_url_http() {
    assert_eq!(sanitize_git_url("http://example.com/path/to/repo.git"), "example_com_path_to_repo");
}

#[test]
fn test_sanitize_git_url_ssh() {
    assert_eq!(sanitize_git_url("git@github.com:user/repo.git"), "github_com_user_repo");
}

#[test]
fn test_sanitize_git_url_no_git_extension() {
    assert_eq!(sanitize_git_url("https://github.com/user/repo"), "github_com_user_repo");
}

#[test]
fn test_sanitize_git_url_git_protocol() {
    assert_eq!(sanitize_git_url("git://github.com/user/repo.git"), "github_com_user_repo");
}

#[test]
fn test_sanitize_git_url_complex() {
    assert_eq!(
        sanitize_git_url("https://gitlab.example.com:8080/group/subgroup/repo.git"),
        "gitlab_example_com_8080_group_subgroup_repo"
    );
}

fn manifest_with_wasm(file: &str) -> cdm::json::JsonValue {
    cdm::json::JsonValue::Object(vec![(
        "wasm".to_string(),
        cdm::json::JsonValue::Object(vec![("file".to_string(), cdm::json::JsonValue::Str(file.to_string()))]),
    )])
}

#[test]
fn cloning_a_git_plugin_yields_the_wasm_file_named_by_its_manifest() {
    let manifest = manifest_with_wasm("target/plugin.wasm");
    let path = cdm::git_plugin::git_plugin_wasm_path("/cache", "https://github.com/user/repo.git", &manifest);
    assert_eq!(path, Some("/cache/git/github_com_user_repo/target/plugin.wasm".to_string()));
}

#[test]
fn the_wasm_file_of_a_subdirectory_plugin_lies_in_that_subdirectory() {
    let manifest = manifest_with_wasm("plugin.wasm");
    assert_eq!(
        cdm::git_plugin::wasm_path_from_manifest("/repo", Some("plugins/sql"), &manifest),
        Some("/repo/plugins/sql/plugin.wasm".to_string())
    );
    assert_eq!(cdm::git_plugin::manifest_path("/repo", None), "/repo/cdm-plugin.json");
    let empty = cdm::json::JsonValue::Object(vec![]);
    assert_eq!(cdm::git_plugin::wasm_path_from_manifest("/repo", None, &empty), None);
}
