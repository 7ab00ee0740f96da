use vstd::prelude::*;

use crate::json::{json_get, JsonValue, JsonView};

verus! {

/// The output paths that a configuration value gives under `key`: a non-empty string is
/// one path; an array gives its non-empty strings, in order (other items are skipped);
/// anything else, or a missing key, gives none.
pub open spec fn output_paths(config: JsonView, key: Seq<char>) -> Seq<Seq<char>> {
    match json_get(config, key) {
        Some(JsonView::Str(s)) => if s.len() > 0 { seq![s] } else { seq![] },
        Some(JsonView::Array(items)) => items.flat_map(|v: JsonView| match v {
            JsonView::Str(s) => if s.len() > 0 { seq![s] } else { seq![] },
            _ => seq![],
        }),
        _ => seq![],
    }
}

/// Extract output paths from a config value that may be a string or array of strings.
/// Returns an empty list if the key is missing or has no valid paths.
pub fn extract_output_paths(config: &JsonValue, key: &str) -> (r: Vec<String>)
    ensures
        crate::paths::views(r@) == output_paths(config@, key@),
{
    let mut out: Vec<String> = Vec::new();
    match config.get(key) {
        Some(JsonValue::Str(s)) => {
            if !s.as_str().is_empty() {
                out.push(s.clone());
                assert(crate::paths::views(out@) =~= seq![s@]);
            } else {
                assert(crate::paths::views(out@) =~= Seq::<Seq<char>>::empty());
            }
        },
        Some(JsonValue::Array(arr)) => {
            proof { crate::json::lemma_view_items(arr@); }
            let ghost items = crate::json::view_items(arr@);
            let ghost g = |v: JsonView| match v {
                JsonView::Str(s) => if s.len() > 0 { seq![s] } else { Seq::<Seq<char>>::empty() },
                _ => Seq::<Seq<char>>::empty(),
            };
            let mut i: usize = 0;
            assert(items.take(0).flat_map(g) =~= Seq::<Seq<char>>::empty());
            assert(crate::paths::views(out@) =~= Seq::<Seq<char>>::empty());
            while i < arr.len()
                invariant
                    items == crate::json::view_items(arr@),
                    items.len() == arr@.len(),
                    forall|j: int| 0 <= j < arr@.len() ==> (#[trigger] items[j]) == arr@[j]@,
                    g == (|v: JsonView| match v {
                        JsonView::Str(s) => if s.len() > 0 { seq![s] } else { Seq::<Seq<char>>::empty() },
                        _ => Seq::<Seq<char>>::empty(),
                    }),
                    i <= arr@.len(),
                    crate::paths::views(out@) == items.take(i as int).flat_map(g),
                decreases arr@.len() - i,
            {
                let ghost before = crate::paths::views(out@);
                match &arr[i] {
                    JsonValue::Str(s) => {
                        if !s.as_str().is_empty() {
                            out.push(s.clone());
                        }
                    },
                    _ => {},
                }
                proof {
                    items.lemma_flat_map_take_append(g, i as int);
                    assert(items[i as int] == arr@[i as int]@);
                    assert(crate::paths::views(out@) =~= before + g(items[i as int]));
                }
                i = i + 1;
            }
            proof { assert(items.take(items.len() as int) =~= items); }
        },
        _ => {
            assert(crate::paths::views(out@) =~= Seq::<Seq<char>>::empty());
        },
    }
    out
}

} // verus!
