use vstd::prelude::*;

use crate::paths::views;
use crate::uri_table::{self, has_key, keys_distinct, table_map, value_at, Entry};

verus! {

broadcast use vstd::string::group_string_axioms;

/// The open documents of an editing session: the last text given for each URL.
pub struct DocumentStore {
    documents: Vec<Entry<String>>,
}

impl DocumentStore {
    /// The text of each open document.
    pub closed spec fn docs(&self) -> Map<Seq<char>, Seq<char>> {
        table_map(self.documents@, |s: String| s@)
    }

    /// No URL is stored twice.
    pub closed spec fn wf(&self) -> bool {
        keys_distinct(self.documents@)
    }

    /// An empty store.
    pub fn new() -> (d: Self)
        ensures
            d.wf(),
            d.docs() == Map::<Seq<char>, Seq<char>>::empty(),
    {
        let d = DocumentStore { documents: Vec::new() };
        proof { assert(d.docs() =~= Map::<Seq<char>, Seq<char>>::empty()); }
        d
    }

    /// Stores the text of a document, replacing what was stored for it.
    pub fn insert(&mut self, uri: &str, text: String)
        requires
            old(self).wf(),
        ensures
            final(self).wf(),
            final(self).docs() == old(self).docs().insert(uri@, text@),
    {
        let ghost before = self.documents@;
        let ghost tv = text;
        uri_table::put(&mut self.documents, uri, text);
        proof { uri_table::lemma_map_after_put(before, self.documents@, uri@, tv, |s: String| s@); }
    }

    /// The stored text of a document, if any.
    pub fn get(&self, uri: &str) -> (r: Option<String>)
        requires
            self.wf(),
        ensures
            match r {
                Some(t) => self.docs().dom().contains(uri@) && self.docs()[uri@] == t@,
                None => !self.docs().dom().contains(uri@),
            },
    {
        match uri_table::get(&self.documents, uri) {
            Some(t) => Some(t.clone()),
            None => None,
        }
    }

    /// Forgets a document.
    pub fn remove(&mut self, uri: &str)
        requires
            old(self).wf(),
        ensures
            final(self).wf(),
            final(self).docs() == old(self).docs().remove(uri@),
    {
        let ghost before = self.documents@;
        uri_table::remove(&mut self.documents, uri);
        proof { uri_table::lemma_map_after_remove(before, self.documents@, uri@, |s: String| s@); }
    }

    /// Whether a document is stored.
    pub fn contains(&self, uri: &str) -> (r: bool)
        requires
            self.wf(),
        ensures
            r == self.docs().dom().contains(uri@),
    {
        uri_table::find(&self.documents, uri).is_some()
    }

    /// The URLs of the stored documents, each once (in no particular order).
    pub fn all_uris(&self) -> (r: Vec<String>)
        requires
            self.wf(),
        ensures
            views(r@).no_duplicates(),
            views(r@).to_set() == self.docs().dom(),
    {
        let mut out: Vec<String> = Vec::new();
        let mut i: usize = 0;
        while i < self.documents.len()
            invariant
                self.wf(),
                i <= self.documents@.len(),
                out@.len() == i,
                forall|j: int| 0 <= j < i ==> #[trigger] out@[j]@ == self.documents@[j].uri@,
            decreases self.documents@.len() - i,
        {
            out.push(self.documents[i].uri.clone());
            i = i + 1;
        }
        proof {
            let t = self.documents@;
            assert forall|a: int, b: int| 0 <= a < b < views(out@).len() implies views(out@)[a] != views(out@)[b] by {
                assert(views(out@)[a] == out@[a]@ && views(out@)[b] == out@[b]@);
            }
            assert forall|k: Seq<char>| views(out@).to_set().contains(k) <==> self.docs().dom().contains(k) by {
                if views(out@).contains(k) {
                    let j = choose|j: int| 0 <= j < views(out@).len() && views(out@)[j] == k;
                    assert(out@[j]@ == t[j].uri@);
                }
                if has_key(t, k) {
                    let j = choose|j: int| 0 <= j < t.len() && #[trigger] t[j].uri@ == k;
                    assert(views(out@)[j] == k);
                }
            }
            assert(views(out@).to_set() =~= self.docs().dom());
        }
        out
    }
}

} // verus!
