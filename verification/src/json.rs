use vstd::prelude::*;

use crate::text::chars_of;

verus! {

/// A JSON number as it is held by a parsed document: a non-negative
/// integer, a negative integer, or a float kept as its decimal rendering.
#[derive(Debug, Clone, PartialEq)]
pub enum JsonNumber {
    PosInt(u64),
    NegInt(i64),
    Float(String),
}

/// The mathematical model of a JSON number.
pub enum NumberModel {
    PosInt(u64),
    NegInt(i64),
    Float(Seq<char>),
}

/// A JSON document. Object entries are kept sorted by key, without duplicates.
#[derive(Debug, PartialEq)]
pub enum JsonValue {
    Null,
    Bool(bool),
    Number(JsonNumber),
    String(String),
    Array(Vec<JsonValue>),
    Object(Vec<(String, JsonValue)>),
}

/// The mathematical model of a JSON document.
pub enum Json {
    Null,
    Bool(bool),
    Number(NumberModel),
    Str(Seq<char>),
    Array(Seq<Json>),
    Object(Seq<(Seq<char>, Json)>),
}

impl View for JsonNumber {
    type V = NumberModel;

    open spec fn view(&self) -> NumberModel {
        match self {
            JsonNumber::PosInt(n) => NumberModel::PosInt(*n),
            JsonNumber::NegInt(n) => NumberModel::NegInt(*n),
            JsonNumber::Float(s) => NumberModel::Float(s@),
        }
    }
}

pub open spec fn view_items(items: Seq<JsonValue>) -> Seq<Json>
    decreases items,
{
    if items.len() == 0 {
        Seq::empty()
    } else {
        view_items(items.drop_last()).push(view_value(items.last()))
    }
}

pub open spec fn view_entries(entries: Seq<(String, JsonValue)>) -> Seq<(Seq<char>, Json)>
    decreases entries,
{
    if entries.len() == 0 {
        Seq::empty()
    } else {
        view_entries(entries.drop_last()).push((entries.last().0@, view_value(entries.last().1)))
    }
}

pub open spec fn view_value(v: JsonValue) -> Json
    decreases v,
{
    match v {
        JsonValue::Null => Json::Null,
        JsonValue::Bool(b) => Json::Bool(b),
        JsonValue::Number(n) => Json::Number(n@),
        JsonValue::String(s) => Json::Str(s@),
        JsonValue::Array(items) => Json::Array(view_items(items@)),
        JsonValue::Object(entries) => Json::Object(view_entries(entries@)),
    }
}

pub proof fn lemma_view_items(items: Seq<JsonValue>)
    ensures
        view_items(items).len() == items.len(),
        forall|i: int| 0 <= i < items.len() ==> #[trigger] view_items(items)[i] == view_value(items[i]),
    decreases items.len(),
{
    if items.len() > 0 {
        lemma_view_items(items.drop_last());
    }
}

pub proof fn lemma_view_entries(entries: Seq<(String, JsonValue)>)
    ensures
        view_entries(entries).len() == entries.len(),
        forall|i: int| 0 <= i < entries.len() ==> #[trigger] view_entries(entries)[i] == (entries[i].0@, view_value(entries[i].1)),
    decreases entries.len(),
{
    if entries.len() > 0 {
        lemma_view_entries(entries.drop_last());
    }
}

impl View for JsonValue {
    type V = Json;

    open spec fn view(&self) -> Json {
        view_value(*self)
    }
}

} // verus!

verus! {

impl JsonNumber {
    pub fn deep_copy(&self) -> (r: JsonNumber)
        ensures
            r@ == self@,
    {
        match self {
            JsonNumber::PosInt(n) => JsonNumber::PosInt(*n),
            JsonNumber::NegInt(n) => JsonNumber::NegInt(*n),
            JsonNumber::Float(s) => JsonNumber::Float(s.clone()),
        }
    }
}

impl JsonValue {
    /// A copy of the whole document.
    #[verifier::loop_isolation(false)]
    pub fn deep_copy(&self) -> (r: JsonValue)
        ensures
            r@ == self@,
        decreases self,
    {
        match self {
            JsonValue::Null => JsonValue::Null,
            JsonValue::Bool(b) => JsonValue::Bool(*b),
            JsonValue::Number(n) => JsonValue::Number(n.deep_copy()),
            JsonValue::String(s) => JsonValue::String(s.clone()),
            JsonValue::Array(items) => {
                let mut out: Vec<JsonValue> = Vec::new();
                let mut i: usize = 0;
                while i < items.len()
                    invariant
                        i <= items@.len(),
                        out@.len() == i,
                        forall|j: int| 0 <= j < i ==> out@[j]@ == items@[j]@,
                    decreases items@.len() - i,
                {
                    proof {
                        assert(decreases_to!(*self => *items));
                        assert(decreases_to!(*items => items@[i as int]));
                    }
                    let c = items[i].deep_copy();
                    out.push(c);
                    i = i + 1;
                }
                proof {
                    lemma_view_items(out@);
                    lemma_view_items(items@);
                    assert(view_items(out@) =~= view_items(items@));
                }
                JsonValue::Array(out)
            },
            JsonValue::Object(entries) => {
                let mut out: Vec<(String, JsonValue)> = Vec::new();
                let mut i: usize = 0;
                while i < entries.len()
                    invariant
                        i <= entries@.len(),
                        out@.len() == i,
                        forall|j: int| 0 <= j < i ==> out@[j].0@ == entries@[j].0@ && out@[j].1@ == entries@[j].1@,
                    decreases entries@.len() - i,
                {
                    proof {
                        assert(decreases_to!(*self => *entries));
                        assert(decreases_to!(entries => entries@[i as int]));
                        assert(decreases_to!(entries@[i as int] => entries@[i as int].1));
                    }
                    let c = entries[i].1.deep_copy();
                    out.push((entries[i].0.clone(), c));
                    i = i + 1;
                }
                proof {
                    lemma_view_entries(out@);
                    lemma_view_entries(entries@);
                    assert(view_entries(out@) =~= view_entries(entries@));
                }
                let r = JsonValue::Object(out);
                r
            },
        }
    }
}

} // verus!

verus! {

/// Strict lexicographic order on keys, by code point (the order of `String`).
pub open spec fn key_lt(a: Seq<char>, b: Seq<char>) -> bool
    decreases a.len(),
{
    if a.len() == 0 {
        b.len() > 0
    } else if b.len() == 0 {
        false
    } else if a[0] != b[0] {
        (a[0] as u32) < (b[0] as u32)
    } else {
        key_lt(a.drop_first(), b.drop_first())
    }
}

pub proof fn lemma_key_lt_irreflexive(a: Seq<char>)
    ensures
        !key_lt(a, a),
    decreases a.len(),
{
    if a.len() > 0 {
        lemma_key_lt_irreflexive(a.drop_first());
    }
}

pub proof fn lemma_key_lt_total(a: Seq<char>, b: Seq<char>)
    ensures
        a != b ==> (key_lt(a, b) || key_lt(b, a)),
        !(key_lt(a, b) && key_lt(b, a)),
    decreases a.len(),
{
    if a.len() > 0 && b.len() > 0 && a[0] == b[0] {
        lemma_key_lt_total(a.drop_first(), b.drop_first());
        if a != b {
            assert(a.drop_first() != b.drop_first()) by {
                if a.drop_first() == b.drop_first() {
                    assert(a =~= seq![a[0]] + a.drop_first());
                    assert(b =~= seq![b[0]] + b.drop_first());
                }
            }
        }
    } else if a.len() == 0 && b.len() == 0 {
        assert(a =~= b);
    } else if a.len() > 0 && b.len() > 0 {
        if (a[0] as u32) == (b[0] as u32) {
            vstd::utf8::char_u32_cast(a[0], a[0] as u32);
            vstd::utf8::char_u32_cast(b[0], b[0] as u32);
        }
    }
}

pub proof fn lemma_key_lt_transitive(a: Seq<char>, b: Seq<char>, c: Seq<char>)
    requires
        key_lt(a, b),
        key_lt(b, c),
    ensures
        key_lt(a, c),
    decreases a.len(),
{
    if a.len() > 0 && b.len() > 0 && c.len() > 0 && a[0] == b[0] && b[0] == c[0] {
        lemma_key_lt_transitive(a.drop_first(), b.drop_first(), c.drop_first());
    }
}

} // verus!

verus! {

/// Keys strictly increase along the entries.
pub open spec fn sorted_keys(m: Seq<(Seq<char>, Json)>) -> bool {
    forall|i: int, j: int| 0 <= i < j < m.len() ==> key_lt(#[trigger] m[i].0, #[trigger] m[j].0)
}

/// The value stored under `k`, if any.
pub open spec fn obj_get(m: Seq<(Seq<char>, Json)>, k: Seq<char>) -> Option<Json>
    decreases m.len(),
{
    if m.len() == 0 {
        None
    } else if m.last().0 == k {
        Some(m.last().1)
    } else {
        obj_get(m.drop_last(), k)
    }
}

/// Inserting `k -> v` into a sorted object: the value under `k` is replaced,
/// or a new entry is placed where the order puts it.
pub open spec fn obj_insert(m: Seq<(Seq<char>, Json)>, k: Seq<char>, v: Json) -> Seq<(Seq<char>, Json)>
    decreases m.len(),
{
    if m.len() == 0 {
        seq![(k, v)]
    } else if m[0].0 == k {
        seq![(k, v)] + m.drop_first()
    } else if key_lt(k, m[0].0) {
        seq![(k, v)] + m
    } else {
        seq![m[0]] + obj_insert(m.drop_first(), k, v)
    }
}

/// The keys of an object, in order.
pub open spec fn obj_keys(m: Seq<(Seq<char>, Json)>) -> Seq<Seq<char>> {
    Seq::new(m.len(), |i: int| m[i].0)
}

pub proof fn lemma_obj_get_index(m: Seq<(Seq<char>, Json)>, k: Seq<char>)
    requires
        sorted_keys(m),
    ensures
        obj_get(m, k) is Some <==> exists|i: int| 0 <= i < m.len() && m[i].0 == k,
        forall|i: int| 0 <= i < m.len() && m[i].0 == k ==> obj_get(m, k) == Some(m[i].1),
    decreases m.len(),
{
    if m.len() > 0 {
        let p = m.drop_last();
        assert(sorted_keys(p));
        lemma_obj_get_index(p, k);
        if m.last().0 == k {
            assert forall|i: int| 0 <= i < m.len() && m[i].0 == k implies i == m.len() - 1 by {
                if i < m.len() - 1 {
                    assert(key_lt(m[i].0, m[m.len() - 1].0));
                    lemma_key_lt_irreflexive(k);
                }
            }
        } else {
            assert forall|i: int| 0 <= i < m.len() && m[i].0 == k implies i < m.len() - 1 && p[i] == m[i] by {}
            if exists|i: int| 0 <= i < m.len() && m[i].0 == k {
                let i = choose|i: int| 0 <= i < m.len() && m[i].0 == k;
                assert(p[i].0 == k);
            }
        }
    }
}

/// The entries of an insertion: the new entry, and every entry of the
/// object under another key.
pub proof fn lemma_obj_insert_entries(m: Seq<(Seq<char>, Json)>, k: Seq<char>, v: Json)
    ensures
        exists|i: int| 0 <= i < obj_insert(m, k, v).len() && obj_insert(m, k, v)[i] == (k, v),
        forall|j: int| 0 <= j < m.len() && (#[trigger] m[j]).0 != k
            ==> exists|i: int| 0 <= i < obj_insert(m, k, v).len() && obj_insert(m, k, v)[i] == m[j],
    decreases m.len(),
{
    let t = obj_insert(m, k, v);
    if m.len() == 0 {
        assert(t[0] == (k, v));
    } else if m[0].0 == k {
        assert(t[0] == (k, v));
        assert forall|j: int| 0 <= j < m.len() && (#[trigger] m[j]).0 != k implies exists|i: int| 0 <= i < t.len() && t[i] == m[j] by {
            assert(t[j] == m[j]);
        }
    } else if key_lt(k, m[0].0) {
        assert(t[0] == (k, v));
        assert forall|j: int| 0 <= j < m.len() && (#[trigger] m[j]).0 != k implies exists|i: int| 0 <= i < t.len() && t[i] == m[j] by {
            assert(t[j + 1] == m[j]);
        }
    } else {
        let r = m.drop_first();
        lemma_obj_insert_entries(r, k, v);
        let u = obj_insert(r, k, v);
        assert(t == seq![m[0]] + u);
        let i0 = choose|i: int| 0 <= i < u.len() && u[i] == (k, v);
        assert(t[i0 + 1] == (k, v));
        assert forall|j: int| 0 <= j < m.len() && (#[trigger] m[j]).0 != k implies exists|i: int| 0 <= i < t.len() && t[i] == m[j] by {
            if j == 0 {
                assert(t[0] == m[0]);
            } else {
                assert(r[j - 1] == m[j]);
                let i1 = choose|i: int| 0 <= i < u.len() && u[i] == r[j - 1];
                assert(t[i1 + 1] == m[j]);
            }
        }
    }
}

/// Every entry of an insertion under another key comes from the object.
pub proof fn lemma_obj_insert_from(m: Seq<(Seq<char>, Json)>, k: Seq<char>, v: Json)
    ensures
        forall|i: int| 0 <= i < obj_insert(m, k, v).len() && (#[trigger] obj_insert(m, k, v)[i]).0 != k
            ==> exists|j: int| 0 <= j < m.len() && m[j] == obj_insert(m, k, v)[i],
    decreases m.len(),
{
    let t = obj_insert(m, k, v);
    if m.len() == 0 {
    } else if m[0].0 == k {
        assert forall|i: int| 0 <= i < t.len() && (#[trigger] t[i]).0 != k implies exists|j: int| 0 <= j < m.len() && m[j] == t[i] by {
            assert(m[i] == t[i]);
        }
    } else if key_lt(k, m[0].0) {
        assert forall|i: int| 0 <= i < t.len() && (#[trigger] t[i]).0 != k implies exists|j: int| 0 <= j < m.len() && m[j] == t[i] by {
            assert(m[i - 1] == t[i]);
        }
    } else {
        let r = m.drop_first();
        lemma_obj_insert_from(r, k, v);
        let u = obj_insert(r, k, v);
        assert(t == seq![m[0]] + u);
        assert forall|i: int| 0 <= i < t.len() && (#[trigger] t[i]).0 != k implies exists|j: int| 0 <= j < m.len() && m[j] == t[i] by {
            if i == 0 {
                assert(m[0] == t[0]);
            } else {
                assert(t[i] == u[i - 1]);
                let j0 = choose|j: int| 0 <= j < r.len() && r[j] == u[i - 1];
                assert(m[j0 + 1] == t[i]);
            }
        }
    }
}

proof fn lemma_obj_insert_get_same(m: Seq<(Seq<char>, Json)>, k: Seq<char>, v: Json)
    requires
        sorted_keys(m),
        sorted_keys(obj_insert(m, k, v)),
    ensures
        obj_get(obj_insert(m, k, v), k) == Some(v),
{
    let t = obj_insert(m, k, v);
    lemma_obj_insert_entries(m, k, v);
    let i = choose|i: int| 0 <= i < t.len() && t[i] == (k, v);
    lemma_obj_get_index(t, k);
    assert(t[i].0 == k);
}

proof fn lemma_obj_insert_get_other(m: Seq<(Seq<char>, Json)>, k: Seq<char>, v: Json, q: Seq<char>)
    requires
        sorted_keys(m),
        sorted_keys(obj_insert(m, k, v)),
        q != k,
    ensures
        obj_get(obj_insert(m, k, v), q) == obj_get(m, q),
{
    let t = obj_insert(m, k, v);
    lemma_obj_get_index(t, q);
    lemma_obj_get_index(m, q);
    if exists|j: int| 0 <= j < m.len() && m[j].0 == q {
        lemma_obj_insert_entries(m, k, v);
        let j = choose|j: int| 0 <= j < m.len() && m[j].0 == q;
        assert(m[j].0 != k);
        let i = choose|i: int| 0 <= i < t.len() && t[i] == m[j];
        assert(t[i].0 == q);
    } else {
        lemma_obj_insert_from(m, k, v);
        assert forall|i: int| 0 <= i < t.len() implies (#[trigger] t[i]).0 != q by {
            if t[i].0 == q {
                let j = choose|j: int| 0 <= j < m.len() && m[j] == t[i];
                assert(m[j].0 == q);
            }
        }
    }
}

/// Reading after inserting: the key inserted gives the value inserted,
/// every other key what it gave before.
pub proof fn lemma_obj_insert_get(m: Seq<(Seq<char>, Json)>, k: Seq<char>, v: Json, q: Seq<char>)
    requires
        sorted_keys(m),
    ensures
        obj_get(obj_insert(m, k, v), q) == (if q == k { Some(v) } else { obj_get(m, q) }),
{
    lemma_obj_insert_sorted(m, k, v);
    if q == k {
        lemma_obj_insert_get_same(m, k, v);
    } else {
        lemma_obj_insert_get_other(m, k, v, q);
    }
}

/// The entries before position `i` have keys below `k`, the rest do not.
pub open spec fn is_insert_point(m: Seq<(Seq<char>, Json)>, k: Seq<char>, i: int) -> bool {
    &&& 0 <= i <= m.len()
    &&& forall|j: int| 0 <= j < i ==> key_lt(#[trigger] m[j].0, k)
    &&& i < m.len() ==> !key_lt(m[i].0, k)
}

pub proof fn lemma_obj_insert_split(m: Seq<(Seq<char>, Json)>, k: Seq<char>, v: Json, i: int)
    requires
        sorted_keys(m),
        is_insert_point(m, k, i),
    ensures
        i < m.len() && m[i].0 == k ==> obj_insert(m, k, v) == m.take(i) + seq![(k, v)] + m.skip(i + 1),
        !(i < m.len() && m[i].0 == k) ==> obj_insert(m, k, v) == m.take(i) + seq![(k, v)] + m.skip(i),
    decreases m.len(),
{
    if m.len() == 0 {
        assert(m.take(0) + seq![(k, v)] + m.skip(0) =~= seq![(k, v)]);
    } else if i == 0 {
        if m[0].0 == k {
            assert(m.take(0) + seq![(k, v)] + m.skip(1) =~= seq![(k, v)] + m.drop_first());
        } else {
            lemma_key_lt_total(k, m[0].0);
            assert(m.take(0) + seq![(k, v)] + m.skip(0) =~= seq![(k, v)] + m);
        }
    } else {
        assert(key_lt(m[0].0, k));
        lemma_key_lt_total(m[0].0, k);
        lemma_key_lt_irreflexive(k);
        assert(m[0].0 != k);
        let t = m.drop_first();
        assert(sorted_keys(t)) by {
            assert forall|a: int, b: int| 0 <= a < b < t.len() implies key_lt(#[trigger] t[a].0, #[trigger] t[b].0) by {
                assert(t[a] == m[a + 1]);
                assert(t[b] == m[b + 1]);
            }
        }
        assert(is_insert_point(t, k, i - 1)) by {
            assert forall|j: int| 0 <= j < i - 1 implies key_lt(#[trigger] t[j].0, k) by {
                assert(t[j] == m[j + 1]);
            }
        }
        lemma_obj_insert_split(t, k, v, i - 1);
        if i < m.len() && m[i].0 == k {
            assert(seq![m[0]] + (t.take(i - 1) + seq![(k, v)] + t.skip(i)) =~= m.take(i) + seq![(k, v)] + m.skip(i + 1));
        } else {
            assert(seq![m[0]] + (t.take(i - 1) + seq![(k, v)] + t.skip(i - 1)) =~= m.take(i) + seq![(k, v)] + m.skip(i));
        }
    }
}

pub proof fn lemma_obj_insert_sorted(m: Seq<(Seq<char>, Json)>, k: Seq<char>, v: Json)
    requires
        sorted_keys(m),
    ensures
        sorted_keys(obj_insert(m, k, v)),
        obj_keys(obj_insert(m, k, v)).to_set() == obj_keys(m).to_set().insert(k),
    decreases m.len(),
{
    let r = obj_insert(m, k, v);
    if m.len() == 0 {
        assert(obj_keys(r) =~= seq![k]);
        assert(obj_keys(m) =~= Seq::<Seq<char>>::empty());
        assert(obj_keys(r).to_set() =~= obj_keys(m).to_set().insert(k)) by {
            assert forall|x: Seq<char>| obj_keys(r).to_set().contains(x) <==> obj_keys(m).to_set().insert(k).contains(x) by {
                if obj_keys(r).contains(x) {
                    assert(obj_keys(r)[0] == x);
                }
                if x == k {
                    assert(obj_keys(r)[0] == x);
                }
            }
        }
    } else if m[0].0 == k {
        assert forall|a: int, b: int| 0 <= a < b < r.len() implies key_lt(#[trigger] r[a].0, #[trigger] r[b].0) by {
            assert(r[b] == m[b]);
            if a > 0 {
                assert(r[a] == m[a]);
            }
        }
        assert(obj_keys(r) =~= obj_keys(m));
        assert(obj_keys(m).to_set() =~= obj_keys(m).to_set().insert(k)) by {
            assert(obj_keys(m)[0] == k);
        }
    } else if key_lt(k, m[0].0) {
        assert forall|a: int, b: int| 0 <= a < b < r.len() implies key_lt(#[trigger] r[a].0, #[trigger] r[b].0) by {
            assert(r[b] == m[b - 1]);
            if a > 0 {
                assert(r[a] == m[a - 1]);
            } else if b > 1 {
                lemma_key_lt_transitive(k, m[0].0, m[b - 1].0);
            }
        }
        assert(obj_keys(r) =~= seq![k] + obj_keys(m));
        assert(obj_keys(r).to_set() =~= obj_keys(m).to_set().insert(k)) by {
            assert forall|x: Seq<char>| obj_keys(r).to_set().contains(x) <==> obj_keys(m).to_set().insert(k).contains(x) by {
                if obj_keys(r).contains(x) {
                    let i = choose|i: int| 0 <= i < obj_keys(r).len() && obj_keys(r)[i] == x;
                    if i > 0 {
                        assert(obj_keys(m)[i - 1] == x);
                    }
                }
                if obj_keys(m).contains(x) {
                    let i = choose|i: int| 0 <= i < obj_keys(m).len() && obj_keys(m)[i] == x;
                    assert(obj_keys(r)[i + 1] == x);
                }
                if x == k {
                    assert(obj_keys(r)[0] == x);
                }
            }
        }
    } else {
        let t = m.drop_first();
        assert(sorted_keys(t)) by {
            assert forall|a: int, b: int| 0 <= a < b < t.len() implies key_lt(#[trigger] t[a].0, #[trigger] t[b].0) by {
                assert(t[a] == m[a + 1]);
                assert(t[b] == m[b + 1]);
            }
        }
        lemma_obj_insert_sorted(t, k, v);
        let rt = obj_insert(t, k, v);
        lemma_key_lt_total(k, m[0].0);
        assert(key_lt(m[0].0, k));
        assert(r == seq![m[0]] + rt);
        assert forall|a: int, b: int| 0 <= a < b < r.len() implies key_lt(#[trigger] r[a].0, #[trigger] r[b].0) by {
            assert(r[b] == rt[b - 1]);
            if a > 0 {
                assert(r[a] == rt[a - 1]);
            } else {
                assert(obj_keys(rt).to_set().contains(rt[b - 1].0)) by {
                    assert(obj_keys(rt)[b - 1] == rt[b - 1].0);
                }
                assert(obj_keys(t).to_set().insert(k).contains(rt[b - 1].0));
                if rt[b - 1].0 != k {
                    let j = choose|j: int| 0 <= j < obj_keys(t).len() && obj_keys(t)[j] == rt[b - 1].0;
                    assert(t[j] == m[j + 1]);
                }
            }
        }
        assert(obj_keys(r) =~= seq![m[0].0] + obj_keys(rt));
        assert(obj_keys(m) =~= seq![m[0].0] + obj_keys(t));
        assert(obj_keys(r).to_set() =~= obj_keys(m).to_set().insert(k)) by {
            assert forall|x: Seq<char>| obj_keys(r).to_set().contains(x) <==> obj_keys(m).to_set().insert(k).contains(x) by {
                if obj_keys(r).contains(x) {
                    let i = choose|i: int| 0 <= i < obj_keys(r).len() && obj_keys(r)[i] == x;
                    if i > 0 {
                        assert(obj_keys(rt)[i - 1] == x);
                        assert(obj_keys(rt).to_set().contains(x));
                        if x != k {
                            let j = choose|j: int| 0 <= j < obj_keys(t).len() && obj_keys(t)[j] == x;
                            assert(obj_keys(m)[j + 1] == x);
                        }
                    } else {
                        assert(obj_keys(m)[0] == x);
                    }
                }
                if obj_keys(m).contains(x) {
                    let i = choose|i: int| 0 <= i < obj_keys(m).len() && obj_keys(m)[i] == x;
                    if i > 0 {
                        assert(obj_keys(t)[i - 1] == x);
                        assert(obj_keys(t).to_set().insert(k).contains(x));
                        assert(obj_keys(rt).to_set().contains(x));
                        let j = choose|j: int| 0 <= j < obj_keys(rt).len() && obj_keys(rt)[j] == x;
                        assert(obj_keys(r)[j + 1] == x);
                    } else {
                        assert(obj_keys(r)[0] == x);
                    }
                }
                if x == k {
                    assert(obj_keys(t).to_set().insert(k).contains(x));
                    assert(obj_keys(rt).to_set().contains(x));
                    let j = choose|j: int| 0 <= j < obj_keys(rt).len() && obj_keys(rt)[j] == x;
                    assert(obj_keys(r)[j + 1] == x);
                }
            }
        }
    }
}

/// Compares two keys in the order of `key_lt`: negative, zero or positive.
pub fn compare_keys(a: &str, b: &str) -> (r: i8)
    ensures
        r < 0 <==> key_lt(a@, b@),
        r == 0 <==> a@ == b@,
        r > 0 <==> key_lt(b@, a@),
{
    let x = chars_of(a);
    let y = chars_of(b);
    let mut i: usize = 0;
    assert(x@.skip(0) =~= x@);
    assert(y@.skip(0) =~= y@);
    while i < x.len() && i < y.len()
        invariant
            x@ == a@,
            y@ == b@,
            i <= x@.len(),
            i <= y@.len(),
            x@.take(i as int) == y@.take(i as int),
            key_lt(a@, b@) == key_lt(x@.skip(i as int), y@.skip(i as int)),
            key_lt(b@, a@) == key_lt(y@.skip(i as int), x@.skip(i as int)),
        decreases x@.len() - i,
    {
        let c = x[i];
        let d = y[i];
        assert(x@.skip(i as int)[0] == c);
        assert(y@.skip(i as int)[0] == d);
        let lt = (c as u32) < (d as u32);
        let gt = (d as u32) < (c as u32);
        if lt {
            proof { lemma_key_lt_total(a@, b@); }
            return -1;
        }
        if gt {
            proof { lemma_key_lt_total(a@, b@); }
            return 1;
        }
        proof {
            vstd::utf8::char_u32_cast(c, c as u32);
            vstd::utf8::char_u32_cast(d, d as u32);
        }
        assert(c == d);
        assert(x@.skip(i as int).drop_first() =~= x@.skip(i + 1));
        assert(y@.skip(i as int).drop_first() =~= y@.skip(i + 1));
        assert(x@.take(i + 1) =~= x@.take(i as int).push(c));
        assert(y@.take(i + 1) =~= y@.take(i as int).push(d));
        i = i + 1;
    }
    proof {
        lemma_key_lt_irreflexive(a@);
        lemma_key_lt_total(a@, b@);
    }
    if i < x.len() {
        assert(y@.take(i as int) =~= y@);
        assert(a@ != b@) by {
            assert(x@.len() != y@.len());
        }
        return 1;
    }
    if i < y.len() {
        assert(x@.take(i as int) =~= x@);
        assert(a@ != b@) by {
            assert(x@.len() != y@.len());
        }
        return -1;
    }
    assert(x@.take(i as int) =~= x@);
    assert(y@.take(i as int) =~= y@);
    0
}

} // verus!

verus! {

/// Puts `k -> v` into a sorted object, replacing an earlier value under `k`.
pub fn object_insert(m: &mut Vec<(String, JsonValue)>, k: String, v: JsonValue)
    requires
        sorted_keys(view_entries(old(m)@)),
    ensures
        view_entries(final(m)@) == obj_insert(view_entries(old(m)@), k@, v@),
        sorted_keys(view_entries(final(m)@)),
{
    let ghost mv = view_entries(m@);
    proof {
        lemma_view_entries(m@);
    }
    let mut i: usize = 0;
    let mut found = false;
    while i < m.len()
        invariant_except_break
            !found,
        invariant
            m@ == old(m)@,
            mv == view_entries(m@),
            mv.len() == m@.len(),
            forall|j: int| 0 <= j < m@.len() ==> #[trigger] mv[j] == (m@[j].0@, view_value(m@[j].1)),
            i <= m@.len(),
            forall|j: int| 0 <= j < i ==> key_lt(#[trigger] mv[j].0, k@),
        ensures
            m@ == old(m)@,
            i <= m@.len(),
            forall|j: int| 0 <= j < i ==> key_lt(#[trigger] mv[j].0, k@),
            i < m@.len() ==> !key_lt(mv[i as int].0, k@),
            found <==> (i < m@.len() && mv[i as int].0 == k@),
        decreases m@.len() - i,
    {
        let c = compare_keys(m[i].0.as_str(), k.as_str());
        if c < 0 {
            i = i + 1;
        } else {
            found = c == 0;
            break;
        }
    }
    let ghost pt = i as int;
    assert(is_insert_point(mv, k@, pt));
    proof {
        lemma_obj_insert_split(mv, k@, v@, pt);
        lemma_obj_insert_sorted(mv, k@, v@);
    }
    let ghost kv = k@;
    let ghost vv = v@;
    if found {
        m.set(i, (k, v));
        proof {
            lemma_view_entries(m@);
            assert(view_entries(m@) =~= mv.take(pt) + seq![(kv, vv)] + mv.skip(pt + 1));
        }
    } else {
        m.insert(i, (k, v));
        proof {
            lemma_view_entries(m@);
            assert(view_entries(m@) =~= mv.take(pt) + seq![(kv, vv)] + mv.skip(pt));
        }
    }
}

/// The value under `k` in an object, if any (the last entry with that key).
pub fn object_get<'a>(m: &'a Vec<(String, JsonValue)>, k: &str) -> (r: Option<&'a JsonValue>)
    ensures
        match r {
            Some(x) => obj_get(view_entries(m@), k@) == Some(x@),
            None => obj_get(view_entries(m@), k@) is None,
        },
{
    let ghost mv = view_entries(m@);
    proof {
        lemma_view_entries(m@);
    }
    let mut i: usize = m.len();
    assert(mv.take(i as int) =~= mv);
    while i > 0
        invariant
            mv == view_entries(m@),
            mv.len() == m@.len(),
            forall|j: int| 0 <= j < m@.len() ==> #[trigger] mv[j] == (m@[j].0@, view_value(m@[j].1)),
            i <= m@.len(),
            obj_get(mv.take(i as int), k@) == obj_get(mv, k@),
        decreases i,
    {
        let c = compare_keys(m[i - 1].0.as_str(), k);
        assert(mv.take(i as int).last() == mv[i - 1]);
        assert(mv.take(i as int).drop_last() =~= mv.take(i - 1));
        if c == 0 {
            return Some(&m[i - 1].1);
        }
        i = i - 1;
    }
    None
}

} // verus!

verus! {

/// The value under `k` when `v` is an object (`Value::get` with a key).
pub open spec fn json_get(v: Json, k: Seq<char>) -> Option<Json> {
    match v {
        Json::Object(m) => obj_get(m, k),
        _ => None,
    }
}

pub open spec fn json_str(v: Option<Json>) -> Option<Seq<char>> {
    match v {
        Some(Json::Str(s)) => Some(s),
        _ => None,
    }
}

pub open spec fn json_u64(v: Option<Json>) -> Option<u64> {
    match v {
        Some(Json::Number(NumberModel::PosInt(n))) => Some(n),
        _ => None,
    }
}

/// The number as `i64`, where it is an integer in range (`Value::as_i64`).
pub open spec fn json_i64(v: Json) -> Option<i64> {
    match v {
        Json::Number(NumberModel::PosInt(n)) => if n <= i64::MAX as u64 {
            Some(n as i64)
        } else {
            None
        },
        Json::Number(NumberModel::NegInt(i)) => Some(i),
        _ => None,
    }
}

impl JsonValue {
    pub fn get(&self, k: &str) -> (r: Option<&JsonValue>)
        ensures
            match r {
                Some(x) => json_get(self@, k@) == Some(x@),
                None => json_get(self@, k@) is None,
            },
    {
        match self {
            JsonValue::Object(m) => object_get(m, k),
            _ => None,
        }
    }

    pub fn as_str(&self) -> (r: Option<&String>)
        ensures
            match r {
                Some(s) => self@ == Json::Str(s@),
                None => !(self@ is Str),
            },
    {
        match self {
            JsonValue::String(s) => Some(s),
            _ => None,
        }
    }

    pub fn as_u64(&self) -> (r: Option<u64>)
        ensures
            r == json_u64(Some(self@)),
    {
        match self {
            JsonValue::Number(JsonNumber::PosInt(n)) => Some(*n),
            _ => None,
        }
    }

    pub fn as_i64(&self) -> (r: Option<i64>)
        ensures
            r == json_i64(self@),
    {
        match self {
            JsonValue::Number(JsonNumber::PosInt(n)) => {
                if *n <= 9223372036854775807 {
                    Some(*n as i64)
                } else {
                    None
                }
            },
            JsonValue::Number(JsonNumber::NegInt(i)) => Some(*i),
            _ => None,
        }
    }
}

/// The string under `k`, where `v` is an object that has one there.
pub fn get_str<'a>(v: &'a JsonValue, k: &str) -> (r: Option<&'a String>)
    ensures
        match r {
            Some(s) => json_str(json_get(v@, k@)) == Some(s@),
            None => json_str(json_get(v@, k@)) is None,
        },
{
    match v.get(k) {
        Some(x) => x.as_str(),
        None => None,
    }
}

/// An object with no entries.
pub fn empty_object() -> (r: Vec<(String, JsonValue)>)
    ensures
        view_entries(r@) == Seq::<(Seq<char>, Json)>::empty(),
        sorted_keys(view_entries(r@)),
{
    let r: Vec<(String, JsonValue)> = Vec::new();
    assert(view_entries(r@) =~= Seq::<(Seq<char>, Json)>::empty());
    r
}

/// A JSON string.
pub fn json_string(s: &str) -> (r: JsonValue)
    ensures
        r@ == Json::Str(s@),
{
    JsonValue::String(s.to_string())
}

/// A non-negative integer.
pub fn json_u64_value(n: u64) -> (r: JsonValue)
    ensures
        r@ == Json::Number(NumberModel::PosInt(n)),
{
    JsonValue::Number(JsonNumber::PosInt(n))
}

/// The number `serde_json` makes of an `i64`: non-negative ones are held as
/// unsigned.
pub open spec fn i64_number(n: i64) -> Json {
    if n >= 0 {
        Json::Number(NumberModel::PosInt(n as u64))
    } else {
        Json::Number(NumberModel::NegInt(n))
    }
}

pub fn json_i64_value(n: i64) -> (r: JsonValue)
    ensures
        r@ == i64_number(n),
{
    if n >= 0 {
        JsonValue::Number(JsonNumber::PosInt(n as u64))
    } else {
        JsonValue::Number(JsonNumber::NegInt(n))
    }
}

/// Puts `k -> v` into an object.
pub fn with_entry(m: Vec<(String, JsonValue)>, k: &str, v: JsonValue) -> (r: Vec<(String, JsonValue)>)
    requires
        sorted_keys(view_entries(m@)),
    ensures
        view_entries(r@) == obj_insert(view_entries(m@), k@, v@),
        sorted_keys(view_entries(r@)),
{
    let mut r = m;
    object_insert(&mut r, k.to_string(), v);
    r
}

} // verus!

verus! {

/// An object from entries put in one after the other.
pub open spec fn object_of(entries: Seq<(Seq<char>, Json)>) -> Json {
    Json::Object(insert_each(Seq::empty(), entries))
}

pub open spec fn insert_each(m: Seq<(Seq<char>, Json)>, entries: Seq<(Seq<char>, Json)>) -> Seq<(Seq<char>, Json)>
    decreases entries.len(),
{
    if entries.len() == 0 {
        m
    } else {
        insert_each(obj_insert(m, entries[0].0, entries[0].1), entries.drop_first())
    }
}

/// An object built from entries, put in one after the other: a later entry
/// replaces an earlier one under the same key, and the keys come out sorted.
pub fn object_from_entries(entries: Vec<(String, JsonValue)>) -> (r: JsonValue)
    ensures
        r@ == object_of(view_entries(entries@)),
{
    let ghost ev = view_entries(entries@);
    proof {
        lemma_view_entries(entries@);
    }
    let mut m = empty_object();
    let mut rest = entries;
    let ghost orig = rest@;
    let ghost mut i: int = 0;
    assert(ev.skip(0) =~= ev);
    while rest.len() > 0
        invariant
            0 <= i <= orig.len(),
            rest@ == orig.skip(i),
            ev == view_entries(orig),
            ev.len() == orig.len(),
            forall|q: int| 0 <= q < orig.len() ==> #[trigger] ev[q] == (orig[q].0@, orig[q].1@),
            sorted_keys(view_entries(m@)),
            insert_each(Seq::empty(), ev) == insert_each(view_entries(m@), ev.skip(i)),
        decreases rest@.len(),
    {
        let (k, v) = rest.remove(0);
        proof {
            assert(ev.skip(i)[0] == ev[i]);
            assert(ev.skip(i).drop_first() =~= ev.skip(i + 1));
            i = i + 1;
        }
        assert(rest@ =~= orig.skip(i));
        object_insert(&mut m, k, v);
    }
    assert(ev.skip(i).len() == 0);
    JsonValue::Object(m)
}

} // verus!
