//! Small maps from strings, kept as lists of entries: a key is looked up at
//! its first entry.
use vstd::prelude::*;

use crate::text::str_eq;

verus! {

/// The value at the first entry with key `k`.
pub open spec fn assoc_get<V>(s: Seq<(String, V)>, k: Seq<char>) -> Option<V>
    decreases s.len(),
{
    if s.len() == 0 {
        None
    } else if s[0].0@ == k {
        Some(s[0].1)
    } else {
        assoc_get(s.drop_first(), k)
    }
}

/// The position of the first entry with key `k`.
pub open spec fn is_first_index<V>(s: Seq<(String, V)>, k: Seq<char>, i: int) -> bool {
    0 <= i < s.len() && s[i].0@ == k && forall|j: int| 0 <= j < i ==> (#[trigger] s[j]).0@ != k
}

pub open spec fn has_key<V>(s: Seq<(String, V)>, k: Seq<char>) -> bool {
    exists|j: int| 0 <= j < s.len() && (#[trigger] s[j]).0@ == k
}

pub proof fn lemma_assoc_get_index<V>(s: Seq<(String, V)>, k: Seq<char>, i: int)
    requires
        is_first_index(s, k, i),
    ensures
        assoc_get(s, k) == Some(s[i].1),
    decreases s.len(),
{
    if i > 0 {
        assert(s[0].0@ != k);
        assert(is_first_index(s.drop_first(), k, i - 1)) by {
            assert forall|j: int| 0 <= j < i - 1 implies (#[trigger] s.drop_first()[j]).0@ != k by {
                assert(s.drop_first()[j] == s[j + 1]);
            }
        }
        lemma_assoc_get_index(s.drop_first(), k, i - 1);
    }
}

pub proof fn lemma_assoc_get_none<V>(s: Seq<(String, V)>, k: Seq<char>)
    requires
        !has_key(s, k),
    ensures
        assoc_get(s, k) is None,
    decreases s.len(),
{
    if s.len() > 0 {
        assert(s[0].0@ != k);
        assert(!has_key(s.drop_first(), k)) by {
            if has_key(s.drop_first(), k) {
                let j = choose|j: int| 0 <= j < s.drop_first().len() && (#[trigger] s.drop_first()[j]).0@ == k;
                assert(s[j + 1].0@ == k);
            }
        }
        lemma_assoc_get_none(s.drop_first(), k);
    }
}

/// Where the first entry with key `k` stands, if any.
pub fn assoc_find<V>(s: &Vec<(String, V)>, k: &str) -> (r: Option<usize>)
    ensures
        match r {
            Some(i) => is_first_index(s@, k@, i as int) && assoc_get(s@, k@) == Some(s@[i as int].1),
            None => !has_key(s@, k@) && assoc_get(s@, k@) is None,
        },
{
    let mut i: usize = 0;
    while i < s.len()
        invariant
            i <= s@.len(),
            forall|j: int| 0 <= j < i ==> (#[trigger] s@[j]).0@ != k@,
        decreases s@.len() - i,
    {
        if str_eq(s[i].0.as_str(), k) {
            proof {
                lemma_assoc_get_index(s@, k@, i as int);
            }
            return Some(i);
        }
        i = i + 1;
    }
    proof {
        lemma_assoc_get_none(s@, k@);
    }
    None
}

/// The map with `k` set to `v`: the first entry with that key is replaced, or a new entry is added at the end.
pub open spec fn assoc_put<V>(s: Seq<(String, V)>, k: String, v: V) -> Seq<(String, V)> {
    if has_key(s, k@) {
        let i = choose|i: int| is_first_index(s, k@, i);
        s.update(i, (k, v))
    } else {
        s.push((k, v))
    }
}

pub proof fn lemma_first_index_unique<V>(s: Seq<(String, V)>, k: Seq<char>, i: int, j: int)
    requires
        is_first_index(s, k, i),
        is_first_index(s, k, j),
    ensures
        i == j,
{
    if i < j {
        assert(s[i].0@ != k);
    } else if j < i {
        assert(s[j].0@ != k);
    }
}

pub proof fn lemma_has_key_first<V>(s: Seq<(String, V)>, k: Seq<char>)
    requires
        has_key(s, k),
    ensures
        exists|i: int| is_first_index(s, k, i),
    decreases s.len(),
{
    if s[0].0@ == k {
        assert(is_first_index(s, k, 0));
    } else {
        let t = s.drop_first();
        assert(has_key(t, k)) by {
            let j = choose|j: int| 0 <= j < s.len() && (#[trigger] s[j]).0@ == k;
            assert(t[j - 1] == s[j]);
        }
        lemma_has_key_first(t, k);
        let i = choose|i: int| is_first_index(t, k, i);
        assert(is_first_index(s, k, i + 1)) by {
            assert forall|j: int| 0 <= j < i + 1 implies (#[trigger] s[j]).0@ != k by {
                if j > 0 {
                    assert(s[j] == t[j - 1]);
                }
            }
        }
    }
}

/// Reading after writing: the key written gives the value written, every
/// other key gives what it gave before.
pub proof fn lemma_assoc_put_get<V>(s: Seq<(String, V)>, k: String, v: V, q: Seq<char>)
    ensures
        assoc_get(assoc_put(s, k, v), q) == (if q == k@ { Some(v) } else { assoc_get(s, q) }),
{
    let t = assoc_put(s, k, v);
    if has_key(s, k@) {
        lemma_has_key_first(s, k@);
        let i = choose|i: int| is_first_index(s, k@, i);
        assert(t == s.update(i, (k, v)));
        if q == k@ {
            assert(is_first_index(t, q, i));
            lemma_assoc_get_index(t, q, i);
        } else if has_key(s, q) {
            lemma_has_key_first(s, q);
            let m = choose|m: int| is_first_index(s, q, m);
            assert(m != i);
            assert(is_first_index(t, q, m));
            lemma_assoc_get_index(t, q, m);
            lemma_assoc_get_index(s, q, m);
        } else {
            assert(!has_key(t, q)) by {
                if has_key(t, q) {
                    let j = choose|j: int| 0 <= j < t.len() && (#[trigger] t[j]).0@ == q;
                    assert(s[j].0@ == q);
                }
            }
            lemma_assoc_get_none(t, q);
            lemma_assoc_get_none(s, q);
        }
    } else {
        assert(t == s.push((k, v)));
        if q == k@ {
            assert(is_first_index(t, q, s.len() as int)) by {
                assert forall|j: int| 0 <= j < s.len() implies (#[trigger] t[j]).0@ != q by {
                    assert(t[j] == s[j]);
                }
            }
            lemma_assoc_get_index(t, q, s.len() as int);
        } else if has_key(s, q) {
            lemma_has_key_first(s, q);
            let m = choose|m: int| is_first_index(s, q, m);
            assert(is_first_index(t, q, m));
            lemma_assoc_get_index(t, q, m);
            lemma_assoc_get_index(s, q, m);
        } else {
            assert(!has_key(t, q)) by {
                if has_key(t, q) {
                    let j = choose|j: int| 0 <= j < t.len() && (#[trigger] t[j]).0@ == q;
                    if j < s.len() {
                        assert(s[j].0@ == q);
                    }
                }
            }
            lemma_assoc_get_none(t, q);
            lemma_assoc_get_none(s, q);
        }
    }
}

pub fn assoc_set<V>(s: &mut Vec<(String, V)>, k: String, v: V)
    ensures
        final(s)@ == assoc_put(old(s)@, k, v),
{
    match assoc_find(s, k.as_str()) {
        Some(i) => {
            proof {
                lemma_has_key_first(old(s)@, k@);
                let c = choose|c: int| is_first_index(old(s)@, k@, c);
                lemma_first_index_unique(old(s)@, k@, c, i as int);
            }
            s.set(i, (k, v));
            assert(s@ =~= assoc_put(old(s)@, k, v));
        },
        None => {
            s.push((k, v));
        },
    }
}

/// The map without key `k`: every entry with that key is dropped.
pub open spec fn assoc_without<V>(s: Seq<(String, V)>, k: Seq<char>) -> Seq<(String, V)>
    decreases s.len(),
{
    if s.len() == 0 {
        s
    } else if s.last().0@ == k {
        assoc_without(s.drop_last(), k)
    } else {
        assoc_without(s.drop_last(), k).push(s.last())
    }
}

pub proof fn lemma_assoc_without_keys<V>(s: Seq<(String, V)>, k: Seq<char>)
    ensures
        forall|j: int| 0 <= j < assoc_without(s, k).len() ==> (#[trigger] assoc_without(s, k)[j]).0@ != k,
        forall|q: Seq<char>| q != k ==> #[trigger] assoc_get(assoc_without(s, k), q) == assoc_get(s, q),
    decreases s.len(),
{
    if s.len() > 0 {
        let d = s.drop_last();
        lemma_assoc_without_keys(d, k);
        assert forall|q: Seq<char>| q != k implies #[trigger] assoc_get(assoc_without(s, k), q) == assoc_get(s, q) by {
            assert(s == d.push(s.last()));
            lemma_assoc_get_push(d, s.last(), q);
            lemma_get_some_iff(d, q);
            lemma_get_some_iff(assoc_without(d, k), q);
            if s.last().0@ != k {
                lemma_assoc_get_push(assoc_without(d, k), s.last(), q);
            }
        }
    }
}

pub proof fn lemma_get_some_iff<V>(s: Seq<(String, V)>, q: Seq<char>)
    ensures
        assoc_get(s, q) is Some <==> has_key(s, q),
{
    if has_key(s, q) {
        lemma_has_key_first(s, q);
        let m = choose|m: int| is_first_index(s, q, m);
        lemma_assoc_get_index(s, q, m);
    } else {
        lemma_assoc_get_none(s, q);
    }
}

/// Looking up in a list with one more entry at the end.
pub proof fn lemma_assoc_get_push<V>(s: Seq<(String, V)>, e: (String, V), q: Seq<char>)
    ensures
        assoc_get(s.push(e), q) == (if has_key(s, q) { assoc_get(s, q) } else if e.0@ == q { Some(e.1) } else {
            None::<V>
        }),
{
    let t = s.push(e);
    if has_key(s, q) {
        lemma_has_key_first(s, q);
        let m = choose|m: int| is_first_index(s, q, m);
        assert(is_first_index(t, q, m));
        lemma_assoc_get_index(t, q, m);
        lemma_assoc_get_index(s, q, m);
    } else if e.0@ == q {
        assert(is_first_index(t, q, s.len() as int)) by {
            assert forall|j: int| 0 <= j < s.len() implies (#[trigger] t[j]).0@ != q by {
                assert(t[j] == s[j]);
            }
        }
        lemma_assoc_get_index(t, q, s.len() as int);
    } else {
        assert(!has_key(t, q)) by {
            if has_key(t, q) {
                let j = choose|j: int| 0 <= j < t.len() && (#[trigger] t[j]).0@ == q;
                if j < s.len() {
                    assert(s[j].0@ == q);
                }
            }
        }
        lemma_assoc_get_none(t, q);
    }
}

/// After removal the key is gone and every other key gives what it gave.
pub proof fn lemma_assoc_without_get<V>(s: Seq<(String, V)>, k: Seq<char>, q: Seq<char>)
    ensures
        assoc_get(assoc_without(s, k), q) == (if q == k { None } else { assoc_get(s, q) }),
{
    lemma_assoc_without_keys(s, k);
    if q == k {
        assert(!has_key(assoc_without(s, k), k));
        lemma_assoc_get_none(assoc_without(s, k), k);
    }
}

pub fn assoc_remove<V>(s: &mut Vec<(String, V)>, k: &str)
    ensures
        final(s)@ == assoc_without(old(s)@, k@),
{
    let mut kept: Vec<(String, V)> = Vec::new();
    let ghost orig = s@;
    while s.len() > 0
        invariant
            orig == old(s)@,
            s@.len() <= orig.len(),
            s@ == orig.take(s@.len() as int),
            assoc_without(orig, k@) == assoc_without(s@, k@) + kept@.reverse(),
        decreases s@.len(),
    {
        let ghost before = s@;
        let e = s.pop().unwrap();
        assert(before.drop_last() == s@);
        assert(s@ =~= orig.take(s@.len() as int));
        if !str_eq(e.0.as_str(), k) {
            let ghost kr = kept@;
            kept.push(e);
            assert(kept@.reverse() =~= seq![e] + kr.reverse());
            assert(assoc_without(before, k@) == assoc_without(s@, k@).push(e));
            assert(assoc_without(s@, k@).push(e) + kr.reverse() =~= assoc_without(s@, k@) + (seq![e] + kr.reverse()));
        }
    }
    assert(assoc_without(s@, k@) =~= Seq::<(String, V)>::empty());
    let mut out: Vec<(String, V)> = Vec::new();
    let ghost rev = kept@;
    while kept.len() > 0
        invariant
            assoc_without(orig, k@) == out@ + kept@.reverse(),
        decreases kept@.len(),
    {
        let ghost kb = kept@;
        let e = kept.pop().unwrap();
        assert(kb.reverse() =~= seq![e] + kept@.reverse());
        let ghost ob = out@;
        out.push(e);
        assert(out@ + kept@.reverse() =~= ob + (seq![e] + kept@.reverse()));
    }
    assert(out@ =~= assoc_without(orig, k@));
    *s = out;
}

} // verus!
