use cdm::build_flow::{build_output_dir, output_file_path, place_in_build_dir, plugin_build_step, BuildStep};
use cdm::json::JsonValue;

fn settings(entries: Vec<(&str, JsonValue)>) -> JsonValue {
    JsonValue::Object(entries.into_iter().map(|(k, v)| (k.to_string(), v)).collect())
}

#[test]
fn build_output_is_read_from_plugin_settings() {
    let cfg = settings(vec![("build_output", JsonValue::Str("generated".to_string()))]);
    assert_eq!(build_output_dir(&Some(cfg)), Some("generated".to_string()));
}

#[test]
fn build_output_missing_or_not_a_string_is_none() {
    assert_eq!(build_output_dir(&None), None);
    assert_eq!(build_output_dir(&Some(settings(vec![]))), None);
    let cfg = settings(vec![("build_output", JsonValue::Bool(true))]);
    assert_eq!(build_output_dir(&Some(cfg)), None);
}

#[test]
fn relative_output_paths_go_under_the_build_directory() {
    assert_eq!(place_in_build_dir(Some("out"), "types.ts"), "out/types.ts");
    assert_eq!(place_in_build_dir(Some("out"), "nested/a.sql"), "out/nested/a.sql");
}

#[test]
fn absolute_output_paths_and_missing_build_directory_keep_the_path() {
    assert_eq!(place_in_build_dir(Some("out"), "/tmp/types.ts"), "/tmp/types.ts");
    assert_eq!(place_in_build_dir(None, "types.ts"), "types.ts");
}

#[test]
fn written_paths_resolve_against_the_source_directory() {
    assert_eq!(output_file_path("/project/schema", "out/types.ts"), "/project/schema/out/types.ts");
    assert_eq!(output_file_path("/project/schema", "/abs/types.ts"), "/abs/types.ts");
}

#[test]
fn build_step_follows_the_plugin_answer() {
    assert_eq!(plugin_build_step(Some(true)), BuildStep::Run);
    assert_eq!(plugin_build_step(Some(false)), BuildStep::SkipNoBuild);
    assert_eq!(plugin_build_step(None), BuildStep::SkipCheckFailed);
}
