use vstd::prelude::*;

use crate::paths::str_eq;

verus! {

/// A JSON number as serde_json holds it: a non-negative integer, a negative integer,
/// or a finite float (kept as its IEEE-754 bits).
#[derive(Debug, Clone, Copy, PartialEq, Eq, Structural)]
pub enum JsonNumber {
    PosInt(u64),
    NegInt(i64),
    Float(u64),
}

/// A JSON value, such as a plugin configuration.
///
/// An object holds its entries as serde_json's map hands them out; two objects are
/// equal when they hold the same keys with equal values, in whatever order.
#[derive(Debug)]
pub enum JsonValue {
    Null,
    Bool(bool),
    Number(JsonNumber),
    Str(String),
    Array(Vec<JsonValue>),
    Object(Vec<(String, JsonValue)>),
}

/// The mathematical value of a `JsonValue`.
pub enum JsonView {
    Null,
    Bool(bool),
    Number(JsonNumber),
    Str(Seq<char>),
    Array(Seq<JsonView>),
    Object(Seq<(Seq<char>, JsonView)>),
}

impl View for JsonValue {
    type V = JsonView;

    open spec fn view(&self) -> JsonView
        decreases self,
    {
        match self {
            JsonValue::Null => JsonView::Null,
            JsonValue::Bool(b) => JsonView::Bool(*b),
            JsonValue::Number(n) => JsonView::Number(*n),
            JsonValue::Str(s) => JsonView::Str(s@),
            JsonValue::Array(v) => JsonView::Array(view_items(v@)),
            JsonValue::Object(v) => JsonView::Object(view_entries(v@)),
        }
    }
}

/// The views of a list of values.
pub open spec fn view_items(s: Seq<JsonValue>) -> Seq<JsonView>
    decreases s,
{
    if s.len() == 0 {
        Seq::empty()
    } else {
        view_items(s.drop_last()).push(s.last().view())
    }
}

/// The views of a list of object entries.
pub open spec fn view_entries(s: Seq<(String, JsonValue)>) -> Seq<(Seq<char>, JsonView)>
    decreases s,
{
    if s.len() == 0 {
        Seq::empty()
    } else {
        view_entries(s.drop_last()).push((s.last().0@, s.last().1.view()))
    }
}

/// The view of a list of values is taken item by item.
pub proof fn lemma_view_items(s: Seq<JsonValue>)
    ensures
        view_items(s).len() == s.len(),
        forall|i: int| 0 <= i < s.len() ==> #[trigger] view_items(s)[i] == s[i]@,
    decreases s.len(),
{
    if s.len() > 0 {
        lemma_view_items(s.drop_last());
        assert(view_items(s) == view_items(s.drop_last()).push(s.last().view()));
        assert(view_items(s).len() == s.len());
    } else {
        assert(view_items(s) == Seq::<JsonView>::empty());
    }
}

/// The view of a list of entries is taken entry by entry.
pub proof fn lemma_view_entries(s: Seq<(String, JsonValue)>)
    ensures
        view_entries(s).len() == s.len(),
        forall|i: int| 0 <= i < s.len() ==> #[trigger] view_entries(s)[i] == (s[i].0@, s[i].1@),
    decreases s.len(),
{
    if s.len() > 0 {
        lemma_view_entries(s.drop_last());
        assert(view_entries(s) == view_entries(s.drop_last()).push((s.last().0@, s.last().1.view())));
        assert(view_entries(s).len() == s.len());
    } else {
        assert(view_entries(s) == Seq::<(Seq<char>, JsonView)>::empty());
    }
}

/// Number equality as serde_json defines it: the same kind and the same value
/// (floats compare as `f64`, so positive and negative zero are equal).
pub open spec fn number_eq(a: JsonNumber, b: JsonNumber) -> bool {
    match (a, b) {
        (JsonNumber::PosInt(x), JsonNumber::PosInt(y)) => x == y,
        (JsonNumber::NegInt(x), JsonNumber::NegInt(y)) => x == y,
        (JsonNumber::Float(x), JsonNumber::Float(y)) =>
            x == y || (x & 0x7fff_ffff_ffff_ffffu64 == 0 && y & 0x7fff_ffff_ffff_ffffu64 == 0),
        _ => false,
    }
}

/// JSON value equality as serde_json defines it (`==` on `serde_json::Value`).
pub open spec fn json_eq(a: JsonView, b: JsonView) -> bool
    decreases a, 0nat,
{
    match (a, b) {
        (JsonView::Null, JsonView::Null) => true,
        (JsonView::Bool(x), JsonView::Bool(y)) => x == y,
        (JsonView::Number(x), JsonView::Number(y)) => number_eq(x, y),
        (JsonView::Str(x), JsonView::Str(y)) => x == y,
        (JsonView::Array(x), JsonView::Array(y)) => x.len() == y.len() && items_eq(x, y, x.len()),
        (JsonView::Object(x), JsonView::Object(y)) => x.len() == y.len() && entries_in(x, y, x.len())
            && entries_covered(x, y, y.len()),
        _ => false,
    }
}

/// The first `n` items of two arrays are equal.
pub open spec fn items_eq(x: Seq<JsonView>, y: Seq<JsonView>, n: nat) -> bool
    decreases x, n,
{
    if n == 0 || n > x.len() || n > y.len() {
        n == 0
    } else {
        items_eq(x, y, (n - 1) as nat) && json_eq(x[n - 1], y[n - 1])
    }
}

/// Each of the first `n` entries of `x` has an entry in `y` with the same key and an
/// equal value (objects compare as maps: the order of entries does not matter).
pub open spec fn entries_in(x: Seq<(Seq<char>, JsonView)>, y: Seq<(Seq<char>, JsonView)>, n: nat) -> bool
    decreases x, n,
{
    if n == 0 || n > x.len() {
        n == 0
    } else {
        entries_in(x, y, (n - 1) as nat) && entry_found(x[n - 1], y, y.len())
    }
}

/// One of the first `m` entries of `y` has the key of `e` and a value equal to its value.
pub open spec fn entry_found(e: (Seq<char>, JsonView), y: Seq<(Seq<char>, JsonView)>, m: nat) -> bool
    decreases e, m,
{
    if m == 0 || m > y.len() {
        false
    } else {
        entry_found(e, y, (m - 1) as nat) || (e.0 == y[m - 1].0 && json_eq(e.1, y[m - 1].1))
    }
}

/// Each of the first `n` entries of `y` has an entry in `x` with the same key and an
/// equal value.
pub open spec fn entries_covered(x: Seq<(Seq<char>, JsonView)>, y: Seq<(Seq<char>, JsonView)>, n: nat) -> bool
    decreases x, x.len() + n + 1,
{
    if n == 0 || n > y.len() {
        n == 0
    } else {
        entries_covered(x, y, (n - 1) as nat) && entry_covered(x, y[n - 1], x.len())
    }
}

/// One of the first `m` entries of `x` has the key of `f` and a value equal to its value.
pub open spec fn entry_covered(x: Seq<(Seq<char>, JsonView)>, f: (Seq<char>, JsonView), m: nat) -> bool
    decreases x, m,
{
    if m == 0 || m > x.len() {
        false
    } else {
        entry_covered(x, f, (m - 1) as nat) || (x[m - 1].0 == f.0 && json_eq(x[m - 1].1, f.1))
    }
}

/// The value stored under `key` in an object (`None` for a missing key or a non-object).
pub open spec fn json_get(v: JsonView, key: Seq<char>) -> Option<JsonView> {
    match v {
        JsonView::Object(entries) =>
            if exists|i: int| 0 <= i < entries.len() && entries[i].0 == key {
                Some(entries[choose|i: int| 0 <= i < entries.len() && entries[i].0 == key && forall|k: int| 0 <= k < i ==> entries[k].0 != key].1)
            } else {
                None
            },
        _ => None,
    }
}

/// The first index holding `key` in a list of object entries.
pub open spec fn first_key_index(entries: Seq<(Seq<char>, JsonView)>, key: Seq<char>, i: int) -> bool {
    0 <= i < entries.len() && entries[i].0 == key && forall|k: int| 0 <= k < i ==> entries[k].0 != key
}

impl JsonValue {
    /// An empty object, `{}`.
    pub fn empty_object() -> (r: JsonValue)
        ensures
            r@ == JsonView::Object(Seq::empty()),
    {
        let r = JsonValue::Object(Vec::new());
        assert(r@ matches JsonView::Object(e) && e =~= Seq::empty());
        r
    }

    /// A copy of the value.
    pub fn deep_copy(&self) -> (r: JsonValue)
        ensures
            r@ == self@,
        decreases self,
    {
        match self {
            JsonValue::Null => JsonValue::Null,
            JsonValue::Bool(b) => JsonValue::Bool(*b),
            JsonValue::Number(n) => JsonValue::Number(*n),
            JsonValue::Str(s) => JsonValue::Str(s.clone()),
            JsonValue::Array(v) => {
                let mut out: Vec<JsonValue> = Vec::new();
                let mut i: usize = 0;
                while i < v.len()
                    invariant
                        *self == JsonValue::Array(*v),
                        i <= v@.len(),
                        out@.len() == i,
                        forall|j: int| 0 <= j < i ==> (#[trigger] out@[j])@ == v@[j]@,
                    decreases v@.len() - i,
                {
                    proof {
                        let x = *self;
                        assert(x->Array_0 == *v);
                        assert(decreases_to!(x => v@[i as int]));
                    }
                    out.push(v[i].deep_copy());
                    i = i + 1;
                }
                let r = JsonValue::Array(out);
                proof {
                    lemma_view_items(out@);
                    lemma_view_items(v@);
                    assert(view_items(out@) =~= view_items(v@));
                }
                r
            },
            JsonValue::Object(v) => {
                let mut out: Vec<(String, JsonValue)> = Vec::new();
                let mut i: usize = 0;
                while i < v.len()
                    invariant
                        *self == JsonValue::Object(*v),
                        i <= v@.len(),
                        out@.len() == i,
                        forall|j: int| 0 <= j < i ==> (#[trigger] out@[j]).0@ == v@[j].0@ && out@[j].1@ == v@[j].1@,
                    decreases v@.len() - i,
                {
                    proof {
                        let x = *self;
                        assert(x->Object_0 == *v);
                        assert(decreases_to!(x => v@[i as int].1));
                    }
                    let val = v[i].1.deep_copy();
                    out.push((v[i].0.clone(), val));
                    i = i + 1;
                }
                let r = JsonValue::Object(out);
                proof {
                    lemma_view_entries(out@);
                    lemma_view_entries(v@);
                    assert(view_entries(out@) =~= view_entries(v@));
                }
                r
            },
        }
    }

    /// Whether the value is an object.
    pub fn is_object(&self) -> (b: bool)
        ensures
            b == (self@ is Object),
    {
        match self {
            JsonValue::Object(_) => true,
            _ => false,
        }
    }

    /// The value stored under `key` (serde_json's `Value::get` with a string key).
    pub fn get(&self, key: &str) -> (r: Option<&JsonValue>)
        ensures
            match r {
                Some(v) => json_get(self@, key@) == Some(v@),
                None => json_get(self@, key@) is None,
            },
    {
        match self {
            JsonValue::Object(entries) => {
                let ghost ev = self@->Object_0;
                proof { lemma_view_entries(entries@); }
                let mut i: usize = 0;
                while i < entries.len()
                    invariant
                        self@ == JsonView::Object(ev),
                        ev.len() == entries@.len(),
                        forall|j: int| 0 <= j < entries@.len() ==> (#[trigger] ev[j]) == (entries@[j].0@, entries@[j].1@),
                        i <= entries@.len(),
                        forall|k: int| 0 <= k < i ==> ev[k].0 != key@,
                    decreases entries@.len() - i,
                {
                    if str_eq(entries[i].0.as_str(), key) {
                        proof {
                            assert(ev[i as int].0 == key@);
                            let c = choose|c: int| 0 <= c < ev.len() && ev[c].0 == key@ && forall|k: int| 0 <= k < c ==> ev[k].0 != key@;
                            if c < i {
                            } else if c > i {
                                assert(ev[i as int].0 != key@);
                            }
                            assert(c == i as int);
                            assert(ev[i as int].1 == entries@[i as int].1@);
                            assert(json_get(self@, key@) == Some(ev[c].1));
                        }
                        return Some(&entries[i].1);
                    }
                    i = i + 1;
                }
                None
            },
            _ => None,
        }
    }

    /// The string held by the value, if it is a string.
    pub fn as_str(&self) -> (r: Option<&str>)
        ensures
            match r {
                Some(s) => self@ == JsonView::Str(s@),
                None => !(self@ is Str),
            },
    {
        match self {
            JsonValue::Str(s) => Some(s.as_str()),
            _ => None,
        }
    }
}

fn number_equal(a: JsonNumber, b: JsonNumber) -> (r: bool)
    ensures
        r == number_eq(a, b),
{
    match (a, b) {
        (JsonNumber::PosInt(x), JsonNumber::PosInt(y)) => x == y,
        (JsonNumber::NegInt(x), JsonNumber::NegInt(y)) => x == y,
        (JsonNumber::Float(x), JsonNumber::Float(y)) =>
            x == y || (x & 0x7fff_ffff_ffff_ffffu64 == 0 && y & 0x7fff_ffff_ffff_ffffu64 == 0),
        _ => false,
    }
}

/// Whether two configurations are equal, as serde_json's `==` on values decides.
pub fn configs_equal(a: &JsonValue, b: &JsonValue) -> (r: bool)
    ensures
        r == json_eq(a@, b@),
    decreases a,
{
    match (a, b) {
        (JsonValue::Null, JsonValue::Null) => true,
        (JsonValue::Bool(x), JsonValue::Bool(y)) => *x == *y,
        (JsonValue::Number(x), JsonValue::Number(y)) => number_equal(*x, *y),
        (JsonValue::Str(x), JsonValue::Str(y)) => str_eq(x.as_str(), y.as_str()),
        (JsonValue::Array(x), JsonValue::Array(y)) => {
            let ghost xv = a@->Array_0;
            let ghost yv = b@->Array_0;
            proof {
                lemma_view_items(x@);
                lemma_view_items(y@);
            }
            if x.len() != y.len() {
                return false;
            }
            let mut i: usize = 0;
            while i < x.len()
                invariant
                    xv.len() == x@.len(),
                    yv.len() == y@.len(),
                    x@.len() == y@.len(),
                    *a == JsonValue::Array(*x),
                    a@ == JsonView::Array(xv),
                    b@ == JsonView::Array(yv),
                    forall|j: int| 0 <= j < x@.len() ==> (#[trigger] xv[j]) == x@[j]@,
                    forall|j: int| 0 <= j < y@.len() ==> (#[trigger] yv[j]) == y@[j]@,
                    i <= x@.len(),
                    items_eq(xv, yv, i as nat),
                decreases x@.len() - i,
            {
                proof {
                    let aa = *a;
                    assert(aa->Array_0 == *x);
                    assert(decreases_to!(aa => x@[i as int]));
                }
                if !configs_equal(&x[i], &y[i]) {
                    proof {
                        assert(!items_eq(xv, yv, (i + 1) as nat));
                        if items_eq(xv, yv, xv.len()) {
                            lemma_items_prefix(xv, yv, xv.len(), (i + 1) as nat);
                        }
                    }
                    return false;
                }
                i = i + 1;
            }
            true
        },
        (JsonValue::Object(x), JsonValue::Object(y)) => {
            let ghost xv = a@->Object_0;
            let ghost yv = b@->Object_0;
            proof {
                lemma_view_entries(x@);
                lemma_view_entries(y@);
            }
            if x.len() != y.len() {
                return false;
            }
            let mut i: usize = 0;
            while i < x.len()
                invariant
                    xv.len() == x@.len(),
                    yv.len() == y@.len(),
                    x@.len() == y@.len(),
                    *a == JsonValue::Object(*x),
                    a@ == JsonView::Object(xv),
                    b@ == JsonView::Object(yv),
                    forall|j: int| 0 <= j < x@.len() ==> (#[trigger] xv[j]) == (x@[j].0@, x@[j].1@),
                    forall|j: int| 0 <= j < y@.len() ==> (#[trigger] yv[j]) == (y@[j].0@, y@[j].1@),
                    i <= x@.len(),
                    entries_in(xv, yv, i as nat),
                decreases x@.len() - i,
            {
                let mut m: usize = 0;
                let mut found = false;
                while m < y.len()
                    invariant
                        *a == JsonValue::Object(*x),
                        xv.len() == x@.len(),
                        yv.len() == y@.len(),
                        i < x@.len(),
                        forall|j: int| 0 <= j < x@.len() ==> (#[trigger] xv[j]) == (x@[j].0@, x@[j].1@),
                        forall|j: int| 0 <= j < y@.len() ==> (#[trigger] yv[j]) == (y@[j].0@, y@[j].1@),
                        m <= y@.len(),
                        found == entry_found(xv[i as int], yv, m as nat),
                    decreases y@.len() - m,
                {
                    proof {
                        let aa = *a;
                        assert(aa->Object_0 == *x);
                        assert(decreases_to!(aa => x@[i as int].1));
                    }
                    let e = str_eq(x[i].0.as_str(), y[m].0.as_str()) && configs_equal(&x[i].1, &y[m].1);
                    proof { assert(xv[i as int] == (x@[i as int].0@, x@[i as int].1@)); assert(yv[m as int] == (y@[m as int].0@, y@[m as int].1@)); }
                    found = found || e;
                    m = m + 1;
                }
                if !found {
                    proof {
                        assert(!entries_in(xv, yv, (i + 1) as nat));
                        if entries_in(xv, yv, xv.len()) {
                            lemma_entries_in_prefix(xv, yv, xv.len(), (i + 1) as nat);
                        }
                    }
                    return false;
                }
                i = i + 1;
            }
            let mut j: usize = 0;
            while j < y.len()
                invariant
                    xv.len() == x@.len(),
                    yv.len() == y@.len(),
                    x@.len() == y@.len(),
                    *a == JsonValue::Object(*x),
                    a@ == JsonView::Object(xv),
                    b@ == JsonView::Object(yv),
                    forall|k: int| 0 <= k < x@.len() ==> (#[trigger] xv[k]) == (x@[k].0@, x@[k].1@),
                    forall|k: int| 0 <= k < y@.len() ==> (#[trigger] yv[k]) == (y@[k].0@, y@[k].1@),
                    entries_in(xv, yv, xv.len()),
                    j <= y@.len(),
                    entries_covered(xv, yv, j as nat),
                decreases y@.len() - j,
            {
                let mut m: usize = 0;
                let mut found = false;
                while m < x.len()
                    invariant
                        *a == JsonValue::Object(*x),
                        xv.len() == x@.len(),
                        yv.len() == y@.len(),
                        j < y@.len(),
                        forall|k: int| 0 <= k < x@.len() ==> (#[trigger] xv[k]) == (x@[k].0@, x@[k].1@),
                        forall|k: int| 0 <= k < y@.len() ==> (#[trigger] yv[k]) == (y@[k].0@, y@[k].1@),
                        m <= x@.len(),
                        found == entry_covered(xv, yv[j as int], m as nat),
                    decreases x@.len() - m,
                {
                    proof {
                        let aa = *a;
                        assert(aa->Object_0 == *x);
                        assert(decreases_to!(aa => x@[m as int].1));
                    }
                    let e = str_eq(x[m].0.as_str(), y[j].0.as_str()) && configs_equal(&x[m].1, &y[j].1);
                    proof { assert(xv[m as int] == (x@[m as int].0@, x@[m as int].1@)); assert(yv[j as int] == (y@[j as int].0@, y@[j as int].1@)); }
                    found = found || e;
                    m = m + 1;
                }
                if !found {
                    proof {
                        assert(!entries_covered(xv, yv, (j + 1) as nat));
                        if entries_covered(xv, yv, yv.len()) {
                            lemma_entries_covered_prefix(xv, yv, yv.len(), (j + 1) as nat);
                        }
                    }
                    return false;
                }
                j = j + 1;
            }
            true
        },
        _ => false,
    }
}

proof fn lemma_items_prefix(x: Seq<JsonView>, y: Seq<JsonView>, n: nat, m: nat)
    requires
        m <= n,
        items_eq(x, y, n),
    ensures
        items_eq(x, y, m),
    decreases n,
{
    if n > m {
        lemma_items_prefix(x, y, (n - 1) as nat, m);
    }
}

proof fn lemma_entries_in_prefix(x: Seq<(Seq<char>, JsonView)>, y: Seq<(Seq<char>, JsonView)>, n: nat, m: nat)
    requires
        m <= n,
        entries_in(x, y, n),
    ensures
        entries_in(x, y, m),
    decreases n,
{
    if n > m {
        lemma_entries_in_prefix(x, y, (n - 1) as nat, m);
    }
}

proof fn lemma_entries_covered_prefix(x: Seq<(Seq<char>, JsonView)>, y: Seq<(Seq<char>, JsonView)>, n: nat, m: nat)
    requires
        m <= n,
        entries_covered(x, y, n),
    ensures
        entries_covered(x, y, m),
    decreases n,
{
    if n > m {
        lemma_entries_covered_prefix(x, y, (n - 1) as nat, m);
    }
}

} // verus!
