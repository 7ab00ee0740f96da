use vstd::prelude::*;

use crate::lsp::Range;
use crate::lsp_extras::TextEdit;
use crate::paths::{contains_text, views};
use crate::semantic_tokens::{is_builtin_type, is_builtin_type_name};

verus! {

broadcast use vstd::string::group_string_axioms;

/// A symbol can be renamed when it is no built-in type and the document defines it.
pub open spec fn renamable(symbol: Seq<char>, definitions: Seq<Seq<char>>) -> bool {
    !is_builtin_type_name(symbol) && definitions.contains(symbol)
}

/// The range to rename for the symbol under the cursor (found at `range`), given the
/// names the document defines; `None` when the symbol cannot be renamed.
pub fn prepare_rename(symbol: &str, range: Range, definitions: &Vec<String>) -> (r: Option<Range>)
    ensures
        r == (if renamable(symbol@, views(definitions@)) { Some(range) } else { None }),
{
    if is_builtin_type(symbol) {
        return None;
    }
    if !contains_text(definitions.as_slice(), symbol) {
        return None;
    }
    Some(range)
}

/// The edits of a rename, by document URL.
#[derive(Debug)]
pub struct WorkspaceEdit {
    pub changes: Vec<(String, Vec<TextEdit>)>,
}

/// The edits that give each reference the new name.
pub open spec fn renamed_at(references: Seq<Range>, new_name: Seq<char>, edits: Seq<TextEdit>) -> bool {
    &&& edits.len() == references.len()
    &&& forall|i: int| 0 <= i < edits.len() ==> (#[trigger] edits[i]).range == references[i] && edits[i].new_text@ == new_name
}

/// Renames the symbol under the cursor in the document at `uri`, given the names the
/// document defines and the ranges of all references to the symbol. `None` when the
/// symbol cannot be renamed or has no references; otherwise one edit per reference,
/// all in the one document.
pub fn rename_symbol(symbol: &str, definitions: &Vec<String>, references: &Vec<Range>, new_name: &str, uri: &str) -> (r: Option<WorkspaceEdit>)
    ensures
        match r {
            Some(w) => renamable(symbol@, views(definitions@)) && references@.len() > 0
                && w.changes@.len() == 1 && w.changes@[0].0@ == uri@ && renamed_at(references@, new_name@, w.changes@[0].1@),
            None => !renamable(symbol@, views(definitions@)) || references@.len() == 0,
        },
{
    if is_builtin_type(symbol) {
        return None;
    }
    if !contains_text(definitions.as_slice(), symbol) {
        return None;
    }
    if references.len() == 0 {
        return None;
    }
    let mut edits: Vec<TextEdit> = Vec::new();
    let mut i: usize = 0;
    while i < references.len()
        invariant
            i <= references@.len(),
            edits@.len() == i,
            forall|j: int| 0 <= j < i ==> (#[trigger] edits@[j]).range == references@[j] && edits@[j].new_text@ == new_name@,
        decreases references@.len() - i,
    {
        edits.push(TextEdit { range: references[i], new_text: new_name.to_string() });
        i = i + 1;
    }
    let mut changes: Vec<(String, Vec<TextEdit>)> = Vec::new();
    changes.push((uri.to_string(), edits));
    Some(WorkspaceEdit { changes })
}

} // verus!
