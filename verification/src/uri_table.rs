use vstd::prelude::*;

use crate::paths::str_eq;

verus! {

broadcast use vstd::string::group_string_axioms;

/// A value stored under a document URI.
pub struct Entry<V> {
    pub uri: String,
    pub value: V,
}

/// Whether some entry is stored under `k`.
pub open spec fn has_key<V>(t: Seq<Entry<V>>, k: Seq<char>) -> bool {
    exists|i: int| 0 <= i < t.len() && #[trigger] t[i].uri@ == k
}

/// The position of the entry stored under `k` (meaningful when `has_key`).
pub open spec fn index_of<V>(t: Seq<Entry<V>>, k: Seq<char>) -> int {
    choose|i: int| 0 <= i < t.len() && #[trigger] t[i].uri@ == k
}

/// The value stored under `k` (meaningful when `has_key`).
pub open spec fn value_at<V>(t: Seq<Entry<V>>, k: Seq<char>) -> V {
    t[index_of(t, k)].value
}

/// No URI is stored twice.
pub open spec fn keys_distinct<V>(t: Seq<Entry<V>>) -> bool {
    forall|i: int, j: int| 0 <= i < t.len() && 0 <= j < t.len() && i != j ==> t[i].uri@ != t[j].uri@
}

/// With distinct keys, the entry found under a key is the one at its position.
pub proof fn lemma_index_of<V>(t: Seq<Entry<V>>, i: int)
    requires
        keys_distinct(t),
        0 <= i < t.len(),
    ensures
        has_key(t, t[i].uri@),
        index_of(t, t[i].uri@) == i,
        value_at(t, t[i].uri@) == t[i].value,
{
    let k = t[i].uri@;
    assert(t[i].uri@ == k);
    let j = index_of(t, k);
    assert(0 <= j < t.len() && t[j].uri@ == k);
}

/// The table as a map from URI to a view of the stored value.
pub open spec fn table_map<V, W>(t: Seq<Entry<V>>, f: spec_fn(V) -> W) -> Map<Seq<char>, W> {
    Map::new(|k: Seq<char>| has_key(t, k), |k: Seq<char>| f(value_at(t, k)))
}

/// Storing a value under a key, seen through any view of the values.
pub proof fn lemma_map_after_put<V, W>(before: Seq<Entry<V>>, after: Seq<Entry<V>>, key: Seq<char>, value: V, f: spec_fn(V) -> W)
    requires
        has_key(after, key),
        value_at(after, key) == value,
        forall|k: Seq<char>| k != key ==> (#[trigger] has_key(after, k) <==> has_key(before, k)),
        forall|k: Seq<char>| k != key && has_key(before, k) ==> #[trigger] value_at(after, k) == value_at(before, k),
    ensures
        table_map(after, f) == table_map(before, f).insert(key, f(value)),
{
    assert(table_map(after, f) =~= table_map(before, f).insert(key, f(value)));
}

/// Removing a key, seen through any view of the values.
pub proof fn lemma_map_after_remove<V, W>(before: Seq<Entry<V>>, after: Seq<Entry<V>>, key: Seq<char>, f: spec_fn(V) -> W)
    requires
        !has_key(after, key),
        forall|k: Seq<char>| k != key ==> (#[trigger] has_key(after, k) <==> has_key(before, k)),
        forall|k: Seq<char>| k != key && has_key(before, k) ==> #[trigger] value_at(after, k) == value_at(before, k),
    ensures
        table_map(after, f) == table_map(before, f).remove(key),
{
    assert(table_map(after, f) =~= table_map(before, f).remove(key));
}

/// The position of the entry stored under `k`, if any.
pub fn find<V>(t: &Vec<Entry<V>>, k: &str) -> (r: Option<usize>)
    requires
        keys_distinct(t@),
    ensures
        match r {
            Some(i) => i < t@.len() && t@[i as int].uri@ == k@ && index_of(t@, k@) == i,
            None => !has_key(t@, k@),
        },
{
    let mut i: usize = 0;
    while i < t.len()
        invariant
            keys_distinct(t@),
            i <= t@.len(),
            forall|j: int| 0 <= j < i ==> t@[j].uri@ != k@,
        decreases t@.len() - i,
    {
        if str_eq(t[i].uri.as_str(), k) {
            proof { lemma_index_of(t@, i as int); }
            return Some(i);
        }
        i = i + 1;
    }
    None
}

/// The value stored under `k`, if any.
pub fn get<'a, V>(t: &'a Vec<Entry<V>>, k: &str) -> (r: Option<&'a V>)
    requires
        keys_distinct(t@),
    ensures
        match r {
            Some(v) => has_key(t@, k@) && *v == value_at(t@, k@),
            None => !has_key(t@, k@),
        },
{
    match find(t, k) {
        Some(i) => {
            proof { lemma_index_of(t@, i as int); }
            Some(&t[i].value)
        },
        None => None,
    }
}

/// Stores `value` under `key`, replacing what was stored there.
pub fn put<V>(t: &mut Vec<Entry<V>>, key: &str, value: V)
    requires
        keys_distinct(old(t)@),
    ensures
        keys_distinct(final(t)@),
        has_key(final(t)@, key@),
        value_at(final(t)@, key@) == value,
        forall|k: Seq<char>| k != key@ ==> (#[trigger] has_key(final(t)@, k) <==> has_key(old(t)@, k)),
        forall|k: Seq<char>| k != key@ && has_key(old(t)@, k) ==> #[trigger] value_at(final(t)@, k) == value_at(old(t)@, k),
{
    let ghost before = t@;
    let e = Entry { uri: key.to_string(), value };
    match find(t, key) {
        Some(i) => {
            t.set(i, e);
            proof {
                let u = t@;
                assert(u == before.update(i as int, e));
                assert(keys_distinct(u)) by {
                    assert forall|a: int, b: int| 0 <= a < u.len() && 0 <= b < u.len() && a != b
                        implies u[a].uri@ != u[b].uri@ by {
                        assert(u[a].uri@ == before[a].uri@);
                        assert(u[b].uri@ == before[b].uri@);
                    }
                }
                lemma_index_of(u, i as int);
                assert forall|k: Seq<char>| k != key@ implies (#[trigger] has_key(u, k) <==> has_key(before, k)) by {
                    if has_key(u, k) {
                        let j = choose|j: int| 0 <= j < u.len() && #[trigger] u[j].uri@ == k;
                        assert(before[j].uri@ == k);
                    }
                    if has_key(before, k) {
                        let j = choose|j: int| 0 <= j < before.len() && #[trigger] before[j].uri@ == k;
                        assert(u[j].uri@ == k);
                    }
                }
                assert forall|k: Seq<char>| k != key@ && has_key(before, k)
                    implies #[trigger] value_at(u, k) == value_at(before, k) by {
                    let j = choose|j: int| 0 <= j < before.len() && #[trigger] before[j].uri@ == k;
                    lemma_index_of(before, j);
                    assert(u[j] == before[j]);
                    lemma_index_of(u, j);
                }
            }
        },
        None => {
            t.push(e);
            proof {
                let u = t@;
                assert(u == before.push(e));
                assert(keys_distinct(u)) by {
                    assert forall|a: int, b: int| 0 <= a < u.len() && 0 <= b < u.len() && a != b
                        implies u[a].uri@ != u[b].uri@ by {
                        if a < before.len() && b < before.len() {
                            assert(u[a] == before[a] && u[b] == before[b]);
                        } else if a < before.len() {
                            assert(u[a] == before[a]);
                            assert(before[a].uri@ != key@);
                        } else {
                            assert(u[b] == before[b]);
                            assert(before[b].uri@ != key@);
                        }
                    }
                }
                lemma_index_of(u, before.len() as int);
                assert forall|k: Seq<char>| k != key@ implies (#[trigger] has_key(u, k) <==> has_key(before, k)) by {
                    if has_key(u, k) {
                        let j = choose|j: int| 0 <= j < u.len() && #[trigger] u[j].uri@ == k;
                        assert(j < before.len());
                        assert(before[j].uri@ == k);
                    }
                    if has_key(before, k) {
                        let j = choose|j: int| 0 <= j < before.len() && #[trigger] before[j].uri@ == k;
                        assert(u[j].uri@ == k);
                    }
                }
                assert forall|k: Seq<char>| k != key@ && has_key(before, k)
                    implies #[trigger] value_at(u, k) == value_at(before, k) by {
                    let j = choose|j: int| 0 <= j < before.len() && #[trigger] before[j].uri@ == k;
                    lemma_index_of(before, j);
                    assert(u[j] == before[j]);
                    lemma_index_of(u, j);
                }
            }
        },
    }
}

/// Removes what is stored under `key`, if anything.
pub fn remove<V>(t: &mut Vec<Entry<V>>, key: &str) -> (r: Option<V>)
    requires
        keys_distinct(old(t)@),
    ensures
        keys_distinct(final(t)@),
        !has_key(final(t)@, key@),
        match r {
            Some(v) => has_key(old(t)@, key@) && v == value_at(old(t)@, key@),
            None => !has_key(old(t)@, key@),
        },
        forall|k: Seq<char>| k != key@ ==> (#[trigger] has_key(final(t)@, k) <==> has_key(old(t)@, k)),
        forall|k: Seq<char>| k != key@ && has_key(old(t)@, k) ==> #[trigger] value_at(final(t)@, k) == value_at(old(t)@, k),
{
    let ghost before = t@;
    match find(t, key) {
        Some(i) => {
            let e = t.remove(i);
            proof {
                let u = t@;
                assert(u == before.remove(i as int));
                lemma_index_of(before, i as int);
                assert forall|j: int| 0 <= j < u.len() implies #[trigger] u[j] == (if j < i { before[j] } else { before[j + 1] }) by {}
                assert(keys_distinct(u)) by {
                    assert forall|a: int, b: int| 0 <= a < u.len() && 0 <= b < u.len() && a != b
                        implies u[a].uri@ != u[b].uri@ by {
                        let a0 = if a < i { a } else { a + 1 };
                        let b0 = if b < i { b } else { b + 1 };
                        assert(u[a] == before[a0]);
                        assert(u[b] == before[b0]);
                    }
                }
                assert(!has_key(u, key@)) by {
                    if has_key(u, key@) {
                        let j = choose|j: int| 0 <= j < u.len() && #[trigger] u[j].uri@ == key@;
                        let j0 = if j < i { j } else { j + 1 };
                        assert(u[j] == before[j0]);
                    }
                }
                assert forall|k: Seq<char>| k != key@ implies (#[trigger] has_key(u, k) <==> has_key(before, k)) by {
                    if has_key(u, k) {
                        let j = choose|j: int| 0 <= j < u.len() && #[trigger] u[j].uri@ == k;
                        let j0 = if j < i { j } else { j + 1 };
                        assert(u[j] == before[j0]);
                        assert(before[j0].uri@ == k);
                    }
                    if has_key(before, k) {
                        let j = choose|j: int| 0 <= j < before.len() && #[trigger] before[j].uri@ == k;
                        assert(j != i);
                        let j1 = if j < i { j } else { j - 1 };
                        assert(u[j1] == before[j]);
                        assert(u[j1].uri@ == k);
                    }
                }
                assert forall|k: Seq<char>| k != key@ && has_key(before, k)
                    implies #[trigger] value_at(u, k) == value_at(before, k) by {
                    let j = choose|j: int| 0 <= j < before.len() && #[trigger] before[j].uri@ == k;
                    lemma_index_of(before, j);
                    assert(j != i);
                    let j1 = if j < i { j } else { j - 1 };
                    assert(u[j1] == before[j]);
                    lemma_index_of(u, j1);
                }
            }
            Some(e.value)
        },
        None => None,
    }
}

} // verus!
