use vstd::prelude::*;

pub mod span;
pub mod text;
pub mod diagnostics;
pub mod paths;
pub mod dependency_graph;
pub mod format;
pub mod json;
pub mod schema;
pub mod migrate;
pub mod git_plugin;
pub mod capabilities;
pub mod config_utils;
pub mod syntax;
pub mod format_text;
pub mod descendant_ids;
pub mod file_resolver;
pub mod lsp;
pub mod semantic_tokens;
pub mod tree_path;
pub mod completion;
pub mod symbols;
pub mod folding;
pub mod grammar;
pub mod migrate_laws;
pub mod format_insert;
pub mod format_plan;
pub mod migrate_flow;
pub mod lsp_extras;
pub mod uri_table;
pub mod workspace;
pub mod plugin_schema;
pub mod completion_items;
pub mod document_store;
pub mod rename;
pub mod build_flow;
pub mod format_room;

verus! {
}
