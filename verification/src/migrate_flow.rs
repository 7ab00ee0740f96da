use vstd::prelude::*;

use crate::json::{json_get, JsonValue, JsonView};
use crate::paths::{path_join, spec_path_join, spec_path_parent, path_parent};
use crate::text::{push_str, string_from_chars};

verus! {

/// What `std::path::Path::is_absolute` gives for a path, as text.
pub uninterp spec fn spec_is_absolute(p: Seq<char>) -> bool;

/// What `std::path::Path::file_stem` gives for a path, as text (`None` also when the
/// stem is not valid Unicode).
pub uninterp spec fn spec_file_stem(p: Seq<char>) -> Option<Seq<char>>;

/// `Path::is_absolute`: whether the path is independent of the current directory.
/// Trusted: the result is the named value of the path; nothing more is claimed.
#[verifier::external_body]
pub(crate) fn path_is_absolute(p: &str) -> (r: bool)
    ensures
        r == spec_is_absolute(p@),
{
    std::path::Path::new(p).is_absolute()
}

/// `Path::file_stem` followed by `OsStr::to_str`: the file name without its extension.
/// Trusted: the result is the named value of the path; nothing more is claimed.
#[verifier::external_body]
fn path_file_stem(p: &str) -> (r: Option<String>)
    ensures
        match r {
            Some(s) => spec_file_stem(p@) == Some(s@),
            None => spec_file_stem(p@) is None,
        },
{
    std::path::Path::new(p).file_stem().and_then(|s| s.to_str()).map(|s| s.to_string())
}

/// A path as it is, when absolute, else under the source directory.
pub open spec fn under_source(p: Seq<char>, source_dir: Seq<char>) -> Seq<char> {
    if spec_is_absolute(p) { p } else { spec_path_join(source_dir, p) }
}

/// Where a plugin's migration files go: the command-line directory, else the plugin's
/// `migrations_output` setting (each taken as is when absolute, else under the source
/// directory), else `migrations/<plugin>` under the source directory.
pub open spec fn migration_output_dir(cli: Option<Seq<char>>, config: JsonView, plugin: Seq<char>, source_dir: Seq<char>) -> Seq<char> {
    match cli {
        Some(p) => under_source(p, source_dir),
        None => match json_get(config, "migrations_output"@) {
            Some(JsonView::Str(d)) => under_source(d, source_dir),
            _ => spec_path_join(spec_path_join(source_dir, "migrations"@), plugin),
        },
    }
}

pub(crate) fn place_under(p: &str, source_dir: &str) -> (r: String)
    ensures
        r@ == under_source(p@, source_dir@),
{
    if path_is_absolute(p) { p.to_string() } else { path_join(source_dir, p) }
}

/// Resolves the output directory of a plugin's migrations (see `migration_output_dir`).
pub fn resolve_migration_output_dir(cli_override: Option<&str>, plugin_config: &JsonValue, plugin_name: &str, source_dir: &str) -> (r: String)
    ensures
        r@ == migration_output_dir(match cli_override { Some(p) => Some(p@), None => None }, plugin_config@, plugin_name@, source_dir@),
{
    match cli_override {
        Some(p) => place_under(p, source_dir),
        None => {
            let dir = match plugin_config.get("migrations_output") {
                Some(v) => v.as_str(),
                None => None,
            };
            match dir {
                Some(d) => place_under(d, source_dir),
                None => {
                    let base = path_join(source_dir, "migrations");
                    path_join(base.as_str(), plugin_name)
                },
            }
        },
    }
}

/// Whether a plugin's settings name a non-empty `migrations_output` directory (no
/// settings count as `{}`).
pub open spec fn names_migrations_output(config: Option<JsonView>) -> bool {
    match config {
        Some(c) => match json_get(c, "migrations_output"@) {
            Some(JsonView::Str(s)) => s.len() > 0,
            _ => false,
        },
        None => false,
    }
}

/// Whether the plugin's settings name a migrations directory (see `names_migrations_output`).
pub fn has_migrations_output(global_config: &Option<JsonValue>) -> (r: bool)
    ensures
        r == names_migrations_output(match global_config { Some(c) => Some(c@), None => None }),
{
    match global_config {
        Some(c) => match c.get("migrations_output") {
            Some(v) => match v.as_str() {
                Some(s) => !s.is_empty(),
                None => false,
            },
            None => false,
        },
        None => false,
    }
}

/// What the migrate command does with one plugin.
#[derive(Debug, Clone, Copy, PartialEq, Eq, Structural)]
pub enum MigrateStep {
    /// The plugin does not support migrations.
    SkipNoMigrate,
    /// Asking the plugin whether it supports migrations failed.
    SkipCheckFailed,
    /// No output directory is configured for the plugin.
    SkipNoOutput,
    /// Run the plugin's migration.
    Run,
}

/// Decides what to do with one plugin, from its answer to "do you support migrations?"
/// (`None` when asking failed), whether the command line names an output directory, and
/// whether the plugin's settings name one.
pub fn plugin_migrate_step(supports_migrate: Option<bool>, cli_output: bool, has_output: bool) -> (r: MigrateStep)
    ensures
        r == match supports_migrate {
            Some(false) => MigrateStep::SkipNoMigrate,
            None => MigrateStep::SkipCheckFailed,
            Some(true) => if !cli_output && !has_output { MigrateStep::SkipNoOutput } else { MigrateStep::Run },
        },
{
    match supports_migrate {
        Some(false) => MigrateStep::SkipNoMigrate,
        None => MigrateStep::SkipCheckFailed,
        Some(true) => if !cli_output && !has_output { MigrateStep::SkipNoOutput } else { MigrateStep::Run },
    }
}

/// Whether the migrate command saves the current schema: never in a dry run (a dry
/// run writes no files); otherwise, with no plugins, on the first run only; with no
/// changes, never; else when some plugin migrated or on the first run.
pub fn should_save_schema(no_plugins: bool, no_changes: bool, dry_run: bool, any_success: bool, had_previous: bool) -> (r: bool)
    ensures
        r == if dry_run { false } else if no_plugins { !had_previous } else if no_changes { false } else { any_success || !had_previous },
{
    if dry_run {
        false
    } else if no_plugins {
        !had_previous
    } else if no_changes {
        false
    } else {
        any_success || !had_previous
    }
}

/// The name of a schema's migration history: its file's stem, or `default`.
pub open spec fn context_name_of(path: Seq<char>) -> Seq<char> {
    match spec_file_stem(path) {
        Some(s) => s,
        None => "default"@,
    }
}

/// The migration history name of a schema file (see `context_name_of`).
pub fn context_name(path: &str) -> (r: String)
    ensures
        r@ == context_name_of(path@),
{
    match path_file_stem(path) {
        Some(s) => s,
        None => "default".to_string(),
    }
}

/// The file that holds the previous schema of a history: `previous_schema_<name>.json`
/// in the `.cdm` directory next to the schema file (`./.cdm` without a parent).
pub open spec fn previous_schema_path(path: Seq<char>, context: Seq<char>) -> Seq<char> {
    let dir = match spec_path_parent(path) {
        Some(d) => d,
        None => "."@,
    };
    spec_path_join(spec_path_join(dir, ".cdm"@), "previous_schema_"@ + context + ".json"@)
}

/// The path of the previous schema file of a history (see `previous_schema_path`).
pub fn previous_schema_file(path: &str, context: &str) -> (r: String)
    ensures
        r@ == previous_schema_path(path@, context@),
{
    let dir = match path_parent(path) {
        Some(d) => d,
        None => ".".to_string(),
    };
    let cdm_dir = path_join(dir.as_str(), ".cdm");
    let mut name: Vec<char> = Vec::new();
    push_str(&mut name, "previous_schema_");
    push_str(&mut name, context);
    push_str(&mut name, ".json");
    let file = string_from_chars(name.as_slice());
    proof { assert(file@ =~= "previous_schema_"@ + context@ + ".json"@); }
    path_join(cdm_dir.as_str(), file.as_str())
}

} // verus!
