# cdm

The core of the CDM (contextual data modeling) toolchain as a library whose behaviour
is stated in `requires` / `ensures` contracts and proved with Verus.

## Layout

- `src/` — the verified library.
  - `syntax`, `grammar`, `tree_path`: parsed CDM documents as plain syntax trees, and
    what is read from them (entity IDs, `extends` directives, the node at an offset).
  - `format`, `format_text`, `format_insert`, `format_plan`, `format_room`, `descendant_ids`: entity ID
    tracking and assignment, whitespace formatting, and the decision of what the
    format command writes.
  - `schema`, `migrate`, `migrate_laws`, `migrate_flow`, `json`: schema deltas between
    two versions (renames detected by entity ID), their per-plugin form, and the
    migrate command's decisions.
  - `file_resolver`, `dependency_graph`, `paths`: loading a file with its `extends`
    ancestors (missing files and cycles reported), and the graph of which file extends
    which.
  - `lsp`, `lsp_extras`, `completion`, `completion_items`, `symbols`, `folding`,
    `semantic_tokens`, `rename`, `workspace`, `document_store`, `uri_table`,
    `plugin_schema`: editor features over a document's text and tree.
  - `build_flow`, `capabilities`, `git_plugin`, `config_utils`, `diagnostics`,
    `span`, `text`: the decisions of the build and capabilities commands, git plugin
    paths, configuration merging, diagnostics.
- `tests/` — tests of the library on concrete values.
- `app/` — the `cdm` command line around the library: argument handling, reading and
  writing files, running git, and turning tree-sitter parse trees into the library's
  syntax trees. Parsing needs the CDM tree-sitter grammar crate (`grammar`).
