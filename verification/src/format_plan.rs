use vstd::prelude::*;

use crate::diagnostics::{Diagnostic, Severity};
use crate::format::{
    applied, assign_missing_ids, assigned, bumped, collect_entity_ids, field_count, field_regs, global_count,
    global_regs, ids_fit, records, regs_below_max, tree_missing, tree_registrations, EntityIdTracker,
    FormatOptions, IdAssignment, Missing, Registration,
};
use crate::format_insert::{document_insertions, reconstruct_source, with_insertions};
use crate::format_text::{format_source, source_text, spaces};
use crate::paths::str_eq;
use crate::span::Span;
use crate::syntax::SyntaxNode;
use crate::text::{push_str, string_from_chars};

verus! {

/// What formatting a document decided.
#[derive(Debug)]
pub struct FormatOutcome {
    /// Whether formatting changed the document.
    pub modified: bool,
    /// The entity IDs assigned.
    pub assignments: Vec<IdAssignment>,
    /// Diagnostics met while formatting.
    pub diagnostics: Vec<Diagnostic>,
    /// The text to write back to the file, when there is one to write.
    pub to_write: Option<String>,
}

/// The IDs registered by the ancestors, in order, then by the document.
pub open spec fn all_registrations(ancestors: Seq<SyntaxNode>, root: SyntaxNode) -> Seq<Registration> {
    ancestors.flat_map(|t: SyntaxNode| tree_registrations(t)) + tree_registrations(root)
}

/// The ID that missing entity `k` gets: after the largest ID of its space written in the
/// ancestors and the document, plus one for each entity before it in that space.
pub open spec fn planned_id(all: Seq<Registration>, ws: Seq<Missing>, k: int) -> int {
    match ws[k].model {
        None => bumped(1, global_regs(all)) + global_count(ws.take(k)),
        Some(m) => bumped(1, field_regs(all, m)) + field_count(ws.take(k), m),
    }
}

/// The IDs written and assigned all stay below `u64::MAX`.
pub open spec fn plan_fits(ancestors: Seq<SyntaxNode>, root: SyntaxNode) -> bool {
    let all = all_registrations(ancestors, root);
    let ws = tree_missing(root);
    &&& regs_below_max(all)
    &&& bumped(1, global_regs(all)) + global_count(ws) < u64::MAX
    &&& forall|m: Seq<char>| #[trigger] bumped(1, field_regs(all, m)) + field_count(ws, m) < u64::MAX
}

/// The message for a document that did not parse.
pub open spec fn parse_error_message(path: Seq<char>) -> Seq<char> {
    "File "@ + path + " has parse errors, cannot format"@
}

/// The text formatting produces: the reformatted document, or (without whitespace
/// formatting) the document with the assigned IDs inserted when there are any.
pub open spec fn new_source(root: SyntaxNode, source: Seq<char>, assignments: Seq<IdAssignment>, options: FormatOptions) -> Option<Seq<char>> {
    if options.format_whitespace {
        Some(source_text(root.children@, assignments, spaces(options.indent_size as nat)))
    } else if assignments.len() > 0 {
        Some(with_insertions(source, document_insertions(root, assignments)))
    } else {
        None
    }
}

proof fn lemma_suffix_below_max(a: Seq<Registration>, b: Seq<Registration>)
    requires
        regs_below_max(a + b),
    ensures
        regs_below_max(a),
        regs_below_max(b),
{
    assert forall|i: int| 0 <= i < a.len() implies match #[trigger] a[i] {
        Registration::Global(id) => id < u64::MAX,
        Registration::Field(_, id) => id < u64::MAX,
    } by {
        assert((a + b)[i] == a[i]);
    }
    assert forall|i: int| 0 <= i < b.len() implies match #[trigger] b[i] {
        Registration::Global(id) => id < u64::MAX,
        Registration::Field(_, id) => id < u64::MAX,
    } by {
        assert((a + b)[a.len() + i] == b[i]);
    }
}

/// Collects the IDs of the ancestors, then of the document.
fn collect_all(ancestors: &Vec<SyntaxNode>, root: &SyntaxNode) -> (t: EntityIdTracker)
    requires
        regs_below_max(all_registrations(ancestors@, *root)),
    ensures
        t.wf(),
        t.next_global() == bumped(1, global_regs(all_registrations(ancestors@, *root))),
        forall|m: Seq<char>| #[trigger] t.next_field(m) == bumped(1, field_regs(all_registrations(ancestors@, *root), m)),
{
    let ghost g = |t: SyntaxNode| tree_registrations(t);
    let mut tracker = EntityIdTracker::new();
    let ghost start = tracker;
    proof {
        crate::format::lemma_applied_empty(start);
        assert(ancestors@.take(0).flat_map(g) =~= Seq::<Registration>::empty()) by {
            assert(ancestors@.take(0).map_values(g) =~= Seq::<Seq<Registration>>::empty());
        }
        lemma_suffix_below_max(ancestors@.flat_map(g), tree_registrations(*root));
    }
    let mut i: usize = 0;
    while i < ancestors.len()
        invariant
            g == (|t: SyntaxNode| tree_registrations(t)),
            i <= ancestors@.len(),
            regs_below_max(ancestors@.flat_map(g)),
            start.wf(),
            start.next_global() == 1,
            forall|m: Seq<char>| #[trigger] start.next_field(m) == 1,
            applied(start, tracker, ancestors@.take(i as int).flat_map(g)),
        decreases ancestors@.len() - i,
    {
        let ghost before = tracker;
        proof {
            ancestors@.lemma_flat_map_take_append(g, i as int);
            crate::format::lemma_part_below_max(ancestors@, g, i as int);
        }
        collect_entity_ids(&ancestors[i], &mut tracker);
        proof { crate::format::lemma_applied_trans(start, before, tracker, ancestors@.take(i as int).flat_map(g), g(ancestors@[i as int])); }
        i = i + 1;
    }
    proof { assert(ancestors@.take(i as int) =~= ancestors@); }
    let ghost mid = tracker;
    collect_entity_ids(root, &mut tracker);
    proof {
        crate::format::lemma_applied_trans(start, mid, tracker, ancestors@.flat_map(g), tree_registrations(*root));
        let all = all_registrations(ancestors@, *root);
        assert forall|m: Seq<char>| #[trigger] tracker.next_field(m) == bumped(1, field_regs(all, m)) by {
            assert(tracker.next_field(m) == bumped(start.next_field(m), field_regs(all, m)));
        }
    }
    tracker
}

/// Decides what formatting a parsed document does: refuses a document with parse
/// errors; with ID assignment, gives each entity written without an ID a fresh one
/// (above every ID the ancestors and the document use); then produces the new text
/// (see `new_source`), which is to be written when it changed or IDs were assigned,
/// writing is on, and this is not a check.
pub fn plan_format(path: &str, root: &SyntaxNode, has_parse_error: bool, source: &str, ancestors: &Vec<SyntaxNode>, options: &FormatOptions)
    -> (r: Result<FormatOutcome, Vec<Diagnostic>>)
    requires
        options.assign_ids ==> plan_fits(ancestors@, *root),
    ensures
        has_parse_error ==> match r {
            Err(d) => d@.len() == 1 && d@[0].severity == Severity::Error && d@[0].span == Span::spec_file_start()
                && d@[0].message@ == parse_error_message(path@),
            Ok(_) => false,
        },
        !has_parse_error ==> match r {
            Ok(o) => {
                let ws = tree_missing(*root);
                let all = all_registrations(ancestors@, *root);
                let ns = new_source(*root, source@, o.assignments@, *options);
                &&& o.diagnostics@.len() == 0
                &&& options.assign_ids ==> o.assignments@.len() == ws.len()
                    && forall|k: int| 0 <= k < ws.len() ==> records(#[trigger] o.assignments@[k], ws[k], planned_id(all, ws, k))
                &&& !options.assign_ids ==> o.assignments@.len() == 0
                &&& o.modified == (o.assignments@.len() > 0 || (options.format_whitespace
                    && source_text(root.children@, o.assignments@, spaces(options.indent_size as nat)) != source@))
                &&& match o.to_write {
                    Some(t) => (o.modified || ns is Some) && options.write && !options.check && ns == Some(t@),
                    None => !((o.modified || ns is Some) && options.write && !options.check && ns is Some),
                }
            },
            Err(_) => false,
        },
{
    if has_parse_error {
        let mut m: Vec<char> = Vec::new();
        push_str(&mut m, "File ");
        push_str(&mut m, path);
        push_str(&mut m, " has parse errors, cannot format");
        let msg = string_from_chars(m.as_slice());
        proof { assert(msg@ =~= parse_error_message(path@)); }
        let mut d: Vec<Diagnostic> = Vec::new();
        d.push(Diagnostic::at_file_start(Severity::Error, msg));
        return Err(d);
    }
    let diagnostics: Vec<Diagnostic> = Vec::new();
    let mut assignments: Vec<IdAssignment> = Vec::new();
    let mut modified = false;
    if options.assign_ids {
        let mut tracker = collect_all(ancestors, root);
        let ghost t0 = tracker;
        proof {
            reveal(ids_fit);
            assert(ids_fit(tracker, tree_missing(*root)));
        }
        assignments = assign_missing_ids(root, &mut tracker);
        proof {
            reveal(assigned);
            let ws = tree_missing(*root);
            let all = all_registrations(ancestors@, *root);
            assert forall|k: int| 0 <= k < ws.len() implies records(#[trigger] assignments@[k], ws[k], planned_id(all, ws, k)) by {
                assert(records(assignments@[k], ws[k], crate::format::wanted_id(t0, ws, k)));
            }
        }
        modified = assignments.len() > 0;
    }
    let ghost ns = new_source(*root, source@, assignments@, *options);
    let new_text: Option<String> = if options.format_whitespace {
        let formatted = format_source(root, &assignments, options.indent_size);
        if !str_eq(formatted.as_str(), source) {
            modified = true;
        }
        Some(formatted)
    } else if modified {
        Some(reconstruct_source(root, source, &assignments))
    } else {
        None
    };
    proof {
        assert(modified == (assignments@.len() > 0 || (options.format_whitespace
            && source_text(root.children@, assignments@, spaces(options.indent_size as nat)) != source@)));
        assert(match new_text { Some(t) => ns == Some(t@), None => ns is None });
    }
    let to_write = if (modified || new_text.is_some()) && options.write && !options.check { new_text } else { None };
    Ok(FormatOutcome { modified, assignments, diagnostics, to_write })
}

} // verus!
