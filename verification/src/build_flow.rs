use vstd::prelude::*;

use crate::json::{json_get, JsonValue, JsonView};
use crate::migrate_flow::{path_is_absolute, place_under, spec_is_absolute, under_source};
use crate::paths::{path_join, spec_path_join};

verus! {

/// The `build_output` directory named in a plugin's settings (no settings count as `{}`).
pub open spec fn named_build_output(config: Option<JsonView>) -> Option<Seq<char>> {
    match config {
        Some(c) => match json_get(c, "build_output"@) {
            Some(JsonView::Str(s)) => Some(s),
            _ => None,
        },
        None => None,
    }
}

/// The `build_output` directory of a plugin's settings, if they name one as a string.
pub fn build_output_dir(global_config: &Option<JsonValue>) -> (r: Option<String>)
    ensures
        match r {
            Some(s) => named_build_output(match global_config { Some(c) => Some(c@), None => None }) == Some(s@),
            None => named_build_output(match global_config { Some(c) => Some(c@), None => None }) is None,
        },
{
    match global_config {
        Some(c) => match c.get("build_output") {
            Some(v) => match v.as_str() {
                Some(s) => Some(s.to_string()),
                None => None,
            },
            None => None,
        },
        None => None,
    }
}

/// Where a file that a plugin generated goes before it is written: a relative path is
/// placed under the plugin's build directory when there is one; an absolute path, or
/// any path without a build directory, stays as it is.
pub open spec fn in_build_dir(build_dir: Option<Seq<char>>, path: Seq<char>) -> Seq<char> {
    match build_dir {
        Some(d) => if spec_is_absolute(path) { path } else { spec_path_join(d, path) },
        None => path,
    }
}

/// Places a generated file's path under the plugin's build directory (see `in_build_dir`).
pub fn place_in_build_dir(build_dir: Option<&str>, path: &str) -> (r: String)
    ensures
        r@ == in_build_dir(match build_dir { Some(d) => Some(d@), None => None }, path@),
{
    match build_dir {
        Some(d) => if path_is_absolute(path) { path.to_string() } else { path_join(d, path) },
        None => path.to_string(),
    }
}

/// The path a generated file is written to: as it is when absolute, else under the
/// directory of the source file.
pub fn output_file_path(source_dir: &str, path: &str) -> (r: String)
    ensures
        r@ == under_source(path@, source_dir@),
{
    place_under(path, source_dir)
}

/// What the build command does with one plugin.
#[derive(Debug, Clone, Copy, PartialEq, Eq, Structural)]
pub enum BuildStep {
    /// The plugin does not support building.
    SkipNoBuild,
    /// Asking the plugin whether it supports building failed.
    SkipCheckFailed,
    /// Run the plugin's build.
    Run,
}

/// Decides what to do with one plugin from its answer to "do you support building?"
/// (`None` when asking failed).
pub fn plugin_build_step(supports_build: Option<bool>) -> (r: BuildStep)
    ensures
        r == match supports_build {
            Some(false) => BuildStep::SkipNoBuild,
            None => BuildStep::SkipCheckFailed,
            Some(true) => BuildStep::Run,
        },
{
    match supports_build {
        Some(false) => BuildStep::SkipNoBuild,
        None => BuildStep::SkipCheckFailed,
        Some(true) => BuildStep::Run,
    }
}

} // verus!
