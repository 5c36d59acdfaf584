//! TOON: a compact text rendering of LSP responses.
use vstd::prelude::*;

use crate::json::{
    Json, JsonNumber, JsonValue, NumberModel, key_lt, lemma_key_lt_irreflexive, lemma_key_lt_total,
    lemma_key_lt_transitive, lemma_obj_get_index, lemma_obj_insert_sorted, lemma_view_entries,
    lemma_view_items, obj_get, obj_insert, obj_keys, object_get, object_insert, sorted_keys,
    view_entries, view_items, view_value,
};
use crate::json_text::{pretty_json, pretty_json_text};
use crate::text::{chars_of, string_from_chars, trim_end_chars, ends_with_str, i64_to_text, is_float_literal_exec, push_char, push_decimal, push_str, starts_with_str, str_eq, to_ascii_lower, ascii_lower, decimal, decimal_int, ends_with, is_ascii_upper, is_float_literal, starts_with, trim_end, utf8_len};

verus! {

/// Object entries of the model.
pub type Entries = Seq<(Seq<char>, Json)>;

// ---------------------------------------------------------------------------
// Reading values

pub open spec fn as_u64(v: Json) -> Option<u64> {
    match v {
        Json::Number(NumberModel::PosInt(n)) => Some(n),
        _ => None,
    }
}

pub open spec fn as_str(v: Json) -> Option<Seq<char>> {
    match v {
        Json::Str(s) => Some(s),
        _ => None,
    }
}

pub open spec fn num(n: u64) -> Json {
    Json::Number(NumberModel::PosInt(n))
}

pub open spec fn get_u64(m: Entries, k: Seq<char>) -> Option<u64> {
    match obj_get(m, k) {
        Some(v) => as_u64(v),
        None => None,
    }
}

pub open spec fn get_object(m: Entries, k: Seq<char>) -> Option<Entries> {
    match obj_get(m, k) {
        Some(Json::Object(sub)) => Some(sub),
        _ => None,
    }
}

/// `{sl, sc, el, ec}`: an object of exactly these four non-negative integers.
pub open spec fn short_range_of(v: Json) -> Option<(u64, u64, u64, u64)> {
    match v {
        Json::Object(m) => {
            if m.len() == 4 && get_u64(m, "sl"@) is Some && get_u64(m, "sc"@) is Some
                && get_u64(m, "el"@) is Some && get_u64(m, "ec"@) is Some {
                Some((get_u64(m, "sl"@)->0, get_u64(m, "sc"@)->0, get_u64(m, "el"@)->0, get_u64(m, "ec"@)->0))
            } else {
                None
            }
        },
        _ => None,
    }
}

/// An LSP `Range`: `{start: {line, character}, end: {line, character}}` and nothing else.
pub open spec fn raw_range_of(m: Entries) -> Option<(u64, u64, u64, u64)> {
    if m.len() == 2 && get_object(m, "start"@) is Some && get_object(m, "end"@) is Some {
        let s = get_object(m, "start"@)->0;
        let e = get_object(m, "end"@)->0;
        if s.len() == 2 && e.len() == 2 && get_u64(s, "line"@) is Some && get_u64(s, "character"@) is Some
            && get_u64(e, "line"@) is Some && get_u64(e, "character"@) is Some {
            Some((get_u64(s, "line"@)->0, get_u64(s, "character"@)->0, get_u64(e, "line"@)->0, get_u64(e, "character"@)->0))
        } else {
            None
        }
    } else {
        None
    }
}

/// An LSP `Location` whose range is already short: `{uri, range: {sl, sc, el, ec}}`.
pub open spec fn raw_location_of(m: Entries) -> Option<(Seq<char>, (u64, u64, u64, u64))> {
    if m.len() == 2 && obj_get(m, "uri"@) is Some && as_str(obj_get(m, "uri"@)->0) is Some
        && obj_get(m, "range"@) is Some && short_range_of(obj_get(m, "range"@)->0) is Some {
        Some((as_str(obj_get(m, "uri"@)->0)->0, short_range_of(obj_get(m, "range"@)->0)->0))
    } else {
        None
    }
}

/// A flattened location: `{uri, range_sl, range_sc, range_el, range_ec}`.
pub open spec fn location_of(v: Json) -> Option<(Seq<char>, (u64, u64, u64, u64))> {
    match v {
        Json::Object(m) => {
            if m.len() == 5 && obj_get(m, "uri"@) is Some && as_str(obj_get(m, "uri"@)->0) is Some
                && get_u64(m, "range_sl"@) is Some && get_u64(m, "range_sc"@) is Some
                && get_u64(m, "range_el"@) is Some && get_u64(m, "range_ec"@) is Some {
                Some((as_str(obj_get(m, "uri"@)->0)->0, (get_u64(m, "range_sl"@)->0, get_u64(m, "range_sc"@)->0,
                    get_u64(m, "range_el"@)->0, get_u64(m, "range_ec"@)->0)))
            } else {
                None
            }
        },
        _ => None,
    }
}

pub open spec fn make_short_range(r: (u64, u64, u64, u64)) -> Entries {
    obj_insert(obj_insert(obj_insert(obj_insert(Seq::empty(), "sl"@, num(r.0)), "sc"@, num(r.1)), "el"@, num(r.2)), "ec"@, num(r.3))
}

pub open spec fn make_location(uri: Seq<char>, r: (u64, u64, u64, u64)) -> Entries {
    obj_insert(obj_insert(obj_insert(obj_insert(obj_insert(Seq::empty(), "uri"@, Json::Str(uri)),
        "range_sl"@, num(r.0)), "range_sc"@, num(r.1)), "range_el"@, num(r.2)), "range_ec"@, num(r.3))
}

// ---------------------------------------------------------------------------
// Key spelling

/// One character of a camelCase key in snake_case.
pub open spec fn snake_char(c: char, first: bool) -> Seq<char> {
    if is_ascii_upper(c) {
        if first { seq![ascii_lower(c)] } else { seq!['_', ascii_lower(c)] }
    } else {
        seq![c]
    }
}

/// camelCase to snake_case: every ASCII capital becomes `_` and its lower
/// case letter, except at the start, where it only becomes lower case.
pub open spec fn snake_case(s: Seq<char>) -> Seq<char>
    decreases s.len(),
{
    if s.len() == 0 {
        Seq::empty()
    } else {
        snake_case(s.drop_last()) + snake_char(s.last(), s.len() == 1)
    }
}

// ---------------------------------------------------------------------------
// Sizes, for the rewriting loop

pub open spec fn jsize(v: Json) -> nat
    decreases v,
{
    match v {
        Json::Array(items) => 1 + items_size(items),
        Json::Object(m) => 1 + entries_size(m),
        _ => 1,
    }
}

pub open spec fn items_size(s: Seq<Json>) -> nat
    decreases s,
{
    if s.len() == 0 {
        0
    } else {
        jsize(s[0]) + items_size(s.drop_first())
    }
}

pub open spec fn entries_size(m: Entries) -> nat
    decreases m,
{
    if m.len() == 0 {
        0
    } else {
        jsize(m[0].1) + entries_size(m.drop_first())
    }
}

// ---------------------------------------------------------------------------
// The three rewriting rules on a flattened object

/// Inserts the entries of `outs`, in order.
pub open spec fn insert_all(acc: Entries, outs: Entries) -> Entries
    decreases outs.len(),
{
    if outs.len() == 0 {
        acc
    } else {
        obj_insert(insert_all(acc, outs.drop_last()), outs.last().0, outs.last().1)
    }
}

/// Builds a new object from `m`, entry by entry, each entry giving the entries `f` makes of it.
pub open spec fn expand_fold(m: Entries, f: spec_fn((Seq<char>, Json)) -> Entries) -> Entries
    decreases m.len(),
{
    if m.len() == 0 {
        Seq::empty()
    } else {
        insert_all(expand_fold(m.drop_last(), f), f(m.last()))
    }
}

/// Rule one: a short range under `k` becomes `k_sl`, `k_sc`, `k_el`, `k_ec`.
pub open spec fn expand_short_range(e: (Seq<char>, Json)) -> Entries {
    match short_range_of(e.1) {
        Some(r) => {
            let p = snake_case(e.0);
            seq![(p + "_sl"@, num(r.0)), (p + "_sc"@, num(r.1)), (p + "_el"@, num(r.2)), (p + "_ec"@, num(r.3))]
        },
        None => seq![e],
    }
}

/// Rule two: a flattened location under `k` becomes `k_uri`, `k_sl`, `k_sc`, `k_el`, `k_ec`.
pub open spec fn expand_location(e: (Seq<char>, Json)) -> Entries {
    match location_of(e.1) {
        Some((uri, r)) => {
            let p = snake_case(e.0);
            seq![(p + "_uri"@, Json::Str(uri)), (p + "_sl"@, num(r.0)), (p + "_sc"@, num(r.1)),
                (p + "_el"@, num(r.2)), (p + "_ec"@, num(r.3))]
        },
        None => seq![e],
    }
}

pub open spec fn prefixed(k: Seq<char>, sub: Entries) -> Entries {
    Seq::new(sub.len(), |i: int| (k + "_"@ + sub[i].0, sub[i].1))
}

/// Rule three: an object under `from` or `to` is inlined with the prefix `from_` or `to_`.
pub open spec fn expand_call_item(e: (Seq<char>, Json)) -> Entries {
    if e.0 == "from"@ || e.0 == "to"@ {
        match e.1 {
            Json::Object(sub) => prefixed(e.0, sub),
            _ => seq![e],
        }
    } else {
        seq![e]
    }
}

pub open spec fn rule_short_ranges(m: Entries) -> Entries {
    expand_fold(m, |e: (Seq<char>, Json)| expand_short_range(e))
}

pub open spec fn rule_locations(m: Entries) -> Entries {
    expand_fold(m, |e: (Seq<char>, Json)| expand_location(e))
}

pub open spec fn rule_call_items(m: Entries) -> Entries {
    expand_fold(m, |e: (Seq<char>, Json)| expand_call_item(e))
}

/// One round of the three rules.
pub open spec fn rules_pass(m: Entries) -> Entries {
    rule_call_items(rule_locations(rule_short_ranges(m)))
}

} // verus!

verus! {

pub proof fn lemma_entries_size_last(m: Entries)
    requires
        m.len() > 0,
    ensures
        entries_size(m) == entries_size(m.drop_last()) + jsize(m.last().1),
    decreases m.len(),
{
    if m.len() > 1 {
        lemma_entries_size_last(m.drop_first());
        assert(m.drop_first().drop_last() =~= m.drop_last().drop_first());
    } else {
        assert(m.drop_first() =~= Seq::<(Seq<char>, Json)>::empty());
        assert(m.drop_last() =~= Seq::<(Seq<char>, Json)>::empty());
    }
}

pub proof fn lemma_jsize_pos(v: Json)
    ensures
        jsize(v) >= 1,
{
}

pub proof fn lemma_entries_size_ge_len(m: Entries)
    ensures
        entries_size(m) >= m.len(),
    decreases m.len(),
{
    if m.len() > 0 {
        lemma_entries_size_ge_len(m.drop_first());
        lemma_jsize_pos(m[0].1);
    }
}

pub proof fn lemma_insert_size(acc: Entries, k: Seq<char>, v: Json)
    ensures
        entries_size(obj_insert(acc, k, v)) <= entries_size(acc) + jsize(v),
    decreases acc.len(),
{
    let r = obj_insert(acc, k, v);
    if acc.len() == 0 {
        assert(r.drop_first() =~= Seq::<(Seq<char>, Json)>::empty());
        assert(r[0] == (k, v));
        assert(entries_size(r) == jsize(v) + entries_size(r.drop_first()));
    } else if acc[0].0 == k {
        assert(r.drop_first() =~= acc.drop_first());
        assert(r[0] == (k, v));
        assert(entries_size(r) == jsize(v) + entries_size(r.drop_first()));
        assert(entries_size(acc) == jsize(acc[0].1) + entries_size(acc.drop_first()));
    } else if key_lt(k, acc[0].0) {
        assert(r.drop_first() =~= acc);
        assert(r[0] == (k, v));
        assert(entries_size(r) == jsize(v) + entries_size(r.drop_first()));
    } else {
        lemma_insert_size(acc.drop_first(), k, v);
        assert(r.drop_first() =~= obj_insert(acc.drop_first(), k, v));
        assert(r[0] == acc[0]);
        assert(entries_size(r) == jsize(acc[0].1) + entries_size(r.drop_first()));
        assert(entries_size(acc) == jsize(acc[0].1) + entries_size(acc.drop_first()));
    }
}

pub proof fn lemma_insert_all_size(acc: Entries, outs: Entries)
    ensures
        entries_size(insert_all(acc, outs)) <= entries_size(acc) + entries_size(outs),
    decreases outs.len(),
{
    if outs.len() > 0 {
        lemma_insert_all_size(acc, outs.drop_last());
        lemma_insert_size(insert_all(acc, outs.drop_last()), outs.last().0, outs.last().1);
        lemma_entries_size_last(outs);
    }
}

pub proof fn lemma_expand_fold_size(m: Entries, f: spec_fn((Seq<char>, Json)) -> Entries)
    requires
        forall|i: int| 0 <= i < m.len() ==> entries_size(#[trigger] f(m[i])) <= jsize(m[i].1),
    ensures
        entries_size(expand_fold(m, f)) <= entries_size(m),
        (exists|i: int| 0 <= i < m.len() && entries_size(#[trigger] f(m[i])) < jsize(m[i].1))
            ==> entries_size(expand_fold(m, f)) < entries_size(m),
    decreases m.len(),
{
    if m.len() > 0 {
        let p = m.drop_last();
        assert forall|i: int| 0 <= i < p.len() implies entries_size(#[trigger] f(p[i])) <= jsize(p[i].1) by {
            assert(p[i] == m[i]);
        }
        lemma_expand_fold_size(p, f);
        lemma_insert_all_size(expand_fold(p, f), f(m.last()));
        lemma_entries_size_last(m);
        assert(f(m.last()) == f(m[m.len() - 1]));
        if exists|i: int| 0 <= i < m.len() && entries_size(#[trigger] f(m[i])) < jsize(m[i].1) {
            let i = choose|i: int| 0 <= i < m.len() && entries_size(#[trigger] f(m[i])) < jsize(m[i].1);
            if i < m.len() - 1 {
                assert(p[i] == m[i]);
                assert(entries_size(f(p[i])) < jsize(p[i].1));
            }
        }
    }
}

pub proof fn lemma_insert_at_end(m: Entries, k: Seq<char>, v: Json)
    requires
        forall|i: int| 0 <= i < m.len() ==> key_lt(#[trigger] m[i].0, k),
    ensures
        obj_insert(m, k, v) == m.push((k, v)),
    decreases m.len(),
{
    if m.len() > 0 {
        lemma_key_lt_total(m[0].0, k);
        lemma_key_lt_irreflexive(k);
        let t = m.drop_first();
        assert forall|i: int| 0 <= i < t.len() implies key_lt(#[trigger] t[i].0, k) by {
            assert(t[i] == m[i + 1]);
        }
        lemma_insert_at_end(t, k, v);
        assert(seq![m[0]] + t.push((k, v)) =~= m.push((k, v)));
    } else {
        assert(seq![(k, v)] =~= m.push((k, v)));
    }
}

pub proof fn lemma_insert_all_sorted(acc: Entries, outs: Entries)
    requires
        sorted_keys(acc),
    ensures
        sorted_keys(insert_all(acc, outs)),
    decreases outs.len(),
{
    if outs.len() > 0 {
        lemma_insert_all_sorted(acc, outs.drop_last());
        lemma_obj_insert_sorted(insert_all(acc, outs.drop_last()), outs.last().0, outs.last().1);
    }
}

pub proof fn lemma_expand_fold_sorted(m: Entries, f: spec_fn((Seq<char>, Json)) -> Entries)
    ensures
        sorted_keys(expand_fold(m, f)),
    decreases m.len(),
{
    if m.len() > 0 {
        lemma_expand_fold_sorted(m.drop_last(), f);
        lemma_insert_all_sorted(expand_fold(m.drop_last(), f), f(m.last()));
    }
}

pub proof fn lemma_expand_fold_identity(m: Entries, f: spec_fn((Seq<char>, Json)) -> Entries)
    requires
        sorted_keys(m),
        forall|i: int| 0 <= i < m.len() ==> #[trigger] f(m[i]) == seq![m[i]],
    ensures
        expand_fold(m, f) == m,
    decreases m.len(),
{
    if m.len() > 0 {
        let p = m.drop_last();
        assert(sorted_keys(p));
        assert forall|i: int| 0 <= i < p.len() implies #[trigger] f(p[i]) == seq![p[i]] by {
            assert(p[i] == m[i]);
        }
        lemma_expand_fold_identity(p, f);
        let last = m[m.len() - 1];
        assert(f(m.last()) == seq![last]);
        assert(seq![last].drop_last() =~= Seq::<(Seq<char>, Json)>::empty());
        assert(insert_all(p, seq![last]) == obj_insert(insert_all(p, Seq::empty()), last.0, last.1));
        assert(expand_fold(m, f) == insert_all(expand_fold(p, f), f(m.last())));
        assert forall|i: int| 0 <= i < p.len() implies key_lt(#[trigger] p[i].0, last.0) by {
            assert(p[i] == m[i]);
        }
        lemma_insert_at_end(p, last.0, last.1);
        assert(p.push(last) =~= m);
    }
}

pub proof fn lemma_short_range_rule(e: (Seq<char>, Json))
    ensures
        entries_size(expand_short_range(e)) <= jsize(e.1),
        short_range_of(e.1) is Some ==> entries_size(expand_short_range(e)) < jsize(e.1),
        short_range_of(e.1) is None ==> expand_short_range(e) == seq![e],
{
    match short_range_of(e.1) {
        Some(r) => {
            let m = e.1->Object_0;
            lemma_entries_size_ge_len(m);
            let out = expand_short_range(e);
            assert(entries_size(out) == 4) by {
                reveal_with_fuel(entries_size, 5);
            }
        },
        None => {
            assert(entries_size(seq![e]) == jsize(e.1)) by {
                reveal_with_fuel(entries_size, 2);
            }
        },
    }
}

pub proof fn lemma_location_rule(e: (Seq<char>, Json))
    ensures
        entries_size(expand_location(e)) <= jsize(e.1),
        location_of(e.1) is Some ==> entries_size(expand_location(e)) < jsize(e.1),
        location_of(e.1) is None ==> expand_location(e) == seq![e],
{
    match location_of(e.1) {
        Some(l) => {
            let m = e.1->Object_0;
            lemma_entries_size_ge_len(m);
            let out = expand_location(e);
            assert(entries_size(out) == 5) by {
                reveal_with_fuel(entries_size, 6);
            }
        },
        None => {
            assert(entries_size(seq![e]) == jsize(e.1)) by {
                reveal_with_fuel(entries_size, 2);
            }
        },
    }
}

pub proof fn lemma_prefixed_size(k: Seq<char>, sub: Entries)
    ensures
        entries_size(prefixed(k, sub)) == entries_size(sub),
    decreases sub.len(),
{
    if sub.len() > 0 {
        lemma_prefixed_size(k, sub.drop_first());
        assert(prefixed(k, sub).drop_first() =~= prefixed(k, sub.drop_first()));
    }
}

/// Whether rule three applies to an entry.
pub open spec fn is_call_item(e: (Seq<char>, Json)) -> bool {
    (e.0 == "from"@ || e.0 == "to"@) && e.1 is Object
}

pub proof fn lemma_call_item_rule(e: (Seq<char>, Json))
    ensures
        entries_size(expand_call_item(e)) <= jsize(e.1),
        is_call_item(e) ==> entries_size(expand_call_item(e)) < jsize(e.1),
        !is_call_item(e) ==> expand_call_item(e) == seq![e],
{
    if is_call_item(e) {
        lemma_prefixed_size(e.0, e.1->Object_0);
    } else {
        assert(entries_size(seq![e]) == jsize(e.1)) by {
            reveal_with_fuel(entries_size, 2);
        }
    }
}

/// A round of the rules that changes the key set makes the object smaller.
pub proof fn lemma_pass_decreases(m: Entries)
    requires
        sorted_keys(m),
        obj_keys(rules_pass(m)) != obj_keys(m),
    ensures
        entries_size(rules_pass(m)) < entries_size(m),
{
    let f1 = |e: (Seq<char>, Json)| expand_short_range(e);
    let f2 = |e: (Seq<char>, Json)| expand_location(e);
    let f3 = |e: (Seq<char>, Json)| expand_call_item(e);
    let a = expand_fold(m, f1);
    let b = expand_fold(a, f2);
    let c = expand_fold(b, f3);
    assert(c == rules_pass(m));
    assert forall|i: int| 0 <= i < m.len() implies entries_size(#[trigger] f1(m[i])) <= jsize(m[i].1) by {
        lemma_short_range_rule(m[i]);
    }
    lemma_expand_fold_size(m, f1);
    lemma_expand_fold_sorted(m, f1);
    assert forall|i: int| 0 <= i < a.len() implies entries_size(#[trigger] f2(a[i])) <= jsize(a[i].1) by {
        lemma_location_rule(a[i]);
    }
    lemma_expand_fold_size(a, f2);
    lemma_expand_fold_sorted(a, f2);
    assert forall|i: int| 0 <= i < b.len() implies entries_size(#[trigger] f3(b[i])) <= jsize(b[i].1) by {
        lemma_call_item_rule(b[i]);
    }
    lemma_expand_fold_size(b, f3);
    if exists|i: int| 0 <= i < m.len() && short_range_of(m[i].1) is Some {
        let i = choose|i: int| 0 <= i < m.len() && short_range_of(m[i].1) is Some;
        lemma_short_range_rule(m[i]);
        assert(entries_size(f1(m[i])) < jsize(m[i].1));
    } else if exists|i: int| 0 <= i < a.len() && location_of(a[i].1) is Some {
        let i = choose|i: int| 0 <= i < a.len() && location_of(a[i].1) is Some;
        lemma_location_rule(a[i]);
        assert(entries_size(f2(a[i])) < jsize(a[i].1));
    } else if exists|i: int| 0 <= i < b.len() && is_call_item(b[i]) {
        let i = choose|i: int| 0 <= i < b.len() && is_call_item(b[i]);
        lemma_call_item_rule(b[i]);
        assert(entries_size(f3(b[i])) < jsize(b[i].1));
    } else {
        assert forall|i: int| 0 <= i < m.len() implies #[trigger] f1(m[i]) == seq![m[i]] by {
            lemma_short_range_rule(m[i]);
        }
        lemma_expand_fold_identity(m, f1);
        assert forall|i: int| 0 <= i < a.len() implies #[trigger] f2(a[i]) == seq![a[i]] by {
            lemma_location_rule(a[i]);
        }
        lemma_expand_fold_identity(a, f2);
        assert forall|i: int| 0 <= i < b.len() implies #[trigger] f3(b[i]) == seq![b[i]] by {
            lemma_call_item_rule(b[i]);
        }
        lemma_expand_fold_identity(b, f3);
    }
}

/// The rules are applied round after round until a round leaves the key set as it was.
pub open spec fn rules_fix(m: Entries) -> Entries
    decreases entries_size(m),
{
    if !sorted_keys(m) {
        m
    } else {
        let n = rules_pass(m);
        if obj_keys(n) == obj_keys(m) {
            n
        } else {
            proof {
                lemma_pass_decreases(m);
            }
            rules_fix(n)
        }
    }
}

} // verus!

verus! {

// ---------------------------------------------------------------------------
// Arrays of LSP objects

/// Keys that mark an array as holding LSP data: a short range component, a
/// flattened range or location, or an inlined call item.
pub open spec fn is_lsp_key(k: Seq<char>) -> bool {
    k == "sl"@ || k == "sc"@ || k == "el"@ || k == "ec"@ || ends_with(k, "_sl"@) || ends_with(k, "_sc"@)
        || ends_with(k, "_el"@) || ends_with(k, "_ec"@) || ends_with(k, "_uri"@) || starts_with(k, "from_"@)
        || starts_with(k, "to_"@)
}

pub open spec fn all_objects(items: Seq<Json>) -> bool {
    forall|i: int| 0 <= i < items.len() ==> #[trigger] items[i] is Object
}

pub open spec fn has_lsp_key(v: Json) -> bool {
    v is Object && exists|j: int| 0 <= j < entries_of(v).len() && is_lsp_key(#[trigger] entries_of(v)[j].0)
}

pub open spec fn lsp_detected(items: Seq<Json>) -> bool {
    exists|i: int| 0 <= i < items.len() && #[trigger] has_lsp_key(items[i])
}

pub open spec fn entries_of(v: Json) -> Entries {
    match v {
        Json::Object(m) => m,
        _ => Seq::empty(),
    }
}

/// Every key of every object of the array, in order, repeats included.
pub open spec fn all_keys(items: Seq<Json>) -> Seq<Seq<char>>
    decreases items.len(),
{
    if items.len() == 0 {
        Seq::empty()
    } else {
        all_keys(items.drop_last()) + obj_keys(entries_of(items.last()))
    }
}

/// The object with `null` under every key of `ks` that it lacks.
pub open spec fn fill_missing(m: Entries, ks: Seq<Seq<char>>) -> Entries
    decreases ks.len(),
{
    if ks.len() == 0 {
        m
    } else {
        let a = fill_missing(m, ks.drop_last());
        if obj_get(a, ks.last()) is None {
            obj_insert(a, ks.last(), Json::Null)
        } else {
            a
        }
    }
}

/// An array of objects holding LSP data gets the same keys in every object,
/// `null` where an object lacked one; other arrays are left as they are.
pub open spec fn normalize_array_keys(items: Seq<Json>) -> Seq<Json> {
    if items.len() == 0 || !all_objects(items) || !lsp_detected(items) {
        items
    } else {
        Seq::new(items.len(), |i: int| Json::Object(fill_missing(entries_of(items[i]), all_keys(items))))
    }
}

// ---------------------------------------------------------------------------
// Flattening

/// LSP data in compact form: keys in snake_case, `codeDescription` and empty
/// `tags` dropped, ranges and locations spread into plain fields, call items
/// inlined, arrays of LSP objects given the same keys throughout.
pub open spec fn flatten(v: Json) -> Json
    decreases v,
{
    match v {
        Json::Object(m) => {
            let f = flatten_fields(m);
            match raw_range_of(f) {
                Some(r) => Json::Object(make_short_range(r)),
                None => match raw_location_of(f) {
                    Some((uri, r)) => Json::Object(make_location(uri, r)),
                    None => Json::Object(rules_fix(f)),
                },
            }
        },
        Json::Array(items) => Json::Array(normalize_array_keys(flatten_items(items))),
        _ => v,
    }
}

pub open spec fn flatten_items(items: Seq<Json>) -> Seq<Json>
    decreases items,
{
    if items.len() == 0 {
        Seq::empty()
    } else {
        flatten_items(items.drop_last()).push(flatten(items.last()))
    }
}

/// The entries of an object, keys in snake_case and values flattened, in a new object.
pub open spec fn flatten_fields(m: Entries) -> Entries
    decreases m,
{
    if m.len() == 0 {
        Seq::empty()
    } else {
        let acc = flatten_fields(m.drop_last());
        let sk = snake_case(m.last().0);
        if sk == "code_description"@ {
            acc
        } else {
            let fv = flatten(m.last().1);
            if sk == "tags"@ && fv == Json::Array(Seq::empty()) {
                acc
            } else {
                obj_insert(acc, sk, fv)
            }
        }
    }
}

} // verus!

verus! {

// ---------------------------------------------------------------------------
// Rendering

pub open spec fn indent(depth: nat) -> Seq<char>
    decreases depth,
{
    if depth == 0 {
        Seq::empty()
    } else {
        indent((depth - 1) as nat) + "  "@
    }
}

pub open spec fn is_primitive(v: Json) -> bool {
    !(v is Array) && !(v is Object)
}

pub open spec fn number_text(n: NumberModel) -> Seq<char> {
    match n {
        NumberModel::PosInt(u) => decimal(u as nat),
        NumberModel::NegInt(i) => decimal_int(i as int),
        NumberModel::Float(t) => t,
    }
}

/// Characters that force a string into quotes.
pub open spec fn is_delimiter(c: char) -> bool {
    c == ',' || c == ':' || c == '[' || c == ']' || c == '{' || c == '}' || c == '#' || c == '"' || c == '\n'
        || c == '\t' || c == '\r'
}

/// A string is quoted when it is empty, starts or ends with a space, holds a
/// delimiter, reads as a number or as `true`, `false` or `null`.
pub open spec fn needs_quotes(s: Seq<char>) -> bool {
    ||| s.len() == 0
    ||| s[0] == ' '
    ||| s.last() == ' '
    ||| exists|i: int| 0 <= i < s.len() && is_delimiter(#[trigger] s[i])
    ||| is_float_literal(s)
    ||| s == "true"@ || s == "false"@ || s == "null"@
}

pub open spec fn escape_char(c: char) -> Seq<char> {
    if c == '"' {
        seq!['\\', '"']
    } else if c == '\\' {
        seq!['\\', '\\']
    } else if c == '\n' {
        seq!['\\', 'n']
    } else if c == '\r' {
        seq!['\\', 'r']
    } else if c == '\t' {
        seq!['\\', 't']
    } else if c == '\x08' {
        seq!['\\', 'b']
    } else if c == '\x0c' {
        seq!['\\', 'f']
    } else {
        seq![c]
    }
}

pub open spec fn escape_all(s: Seq<char>) -> Seq<char>
    decreases s.len(),
{
    if s.len() == 0 {
        Seq::empty()
    } else {
        escape_all(s.drop_last()) + escape_char(s.last())
    }
}

/// The string as it stands in TOON: bare, or in double quotes with
/// `"`, `\`, newline, carriage return, tab, backspace and form feed escaped.
pub open spec fn quote_if_needed(s: Seq<char>) -> Seq<char> {
    if needs_quotes(s) {
        seq!['"'] + escape_all(s) + seq!['"']
    } else {
        s
    }
}

pub open spec fn primitive_text(v: Json) -> Seq<char> {
    match v {
        Json::Null => "null"@,
        Json::Bool(b) => if b { "true"@ } else { "false"@ },
        Json::Number(n) => number_text(n),
        Json::Str(s) => quote_if_needed(s),
        _ => Seq::empty(),
    }
}

/// The parts, with `sep` between neighbours.
pub open spec fn join(parts: Seq<Seq<char>>, sep: Seq<char>) -> Seq<char>
    decreases parts.len(),
{
    if parts.len() == 0 {
        Seq::empty()
    } else if parts.len() == 1 {
        parts[0]
    } else {
        join(parts.drop_last(), sep) + sep + parts.last()
    }
}

/// The keys of the rows when the array is a table: non-empty, all objects
/// with the same keys, every value primitive.
pub open spec fn table_headers(items: Seq<Json>) -> Option<Seq<Seq<char>>> {
    if items.len() == 0 || !all_objects(items) {
        None
    } else {
        let ks = obj_keys(entries_of(items[0]));
        if (forall|i: int| 0 <= i < items.len() ==> obj_keys(entries_of(#[trigger] items[i])) == ks)
            && (forall|i: int, j: int| 0 <= i < items.len() && 0 <= j < entries_of(items[i]).len()
                ==> is_primitive(#[trigger] entries_of(items[i])[j].1)) {
            Some(ks)
        } else {
            None
        }
    }
}

pub open spec fn value_or_null(o: Option<Json>) -> Json {
    match o {
        Some(v) => v,
        None => Json::Null,
    }
}

pub open spec fn row_text(m: Entries, headers: Seq<Seq<char>>) -> Seq<char> {
    join(Seq::new(headers.len(), |j: int| primitive_text(value_or_null(obj_get(m, headers[j])))), ","@)
}

pub open spec fn table_rows(items: Seq<Json>, headers: Seq<Seq<char>>, depth: nat) -> Seq<char>
    decreases items.len(),
{
    if items.len() == 0 {
        Seq::empty()
    } else {
        table_rows(items.drop_last(), headers, depth) + indent(depth) + row_text(entries_of(items.last()), headers)
            + "\n"@
    }
}

pub open spec fn all_primitive(items: Seq<Json>) -> bool {
    forall|i: int| 0 <= i < items.len() ==> is_primitive(#[trigger] items[i])
}

pub open spec fn primitive_texts(items: Seq<Json>) -> Seq<Seq<char>> {
    Seq::new(items.len(), |i: int| primitive_text(items[i]))
}

pub open spec fn bullet_lines(vals: Seq<Seq<char>>, depth: nat) -> Seq<char>
    decreases vals.len(),
{
    if vals.len() == 0 {
        Seq::empty()
    } else {
        bullet_lines(vals.drop_last(), depth) + indent(depth) + "- "@ + vals.last() + "\n"@
    }
}

pub open spec fn bullet_prefix(bullet: bool) -> Seq<char> {
    if bullet { "- "@ } else { Seq::empty() }
}

/// The header line of a table and its rows, after the array's name.
pub open spec fn table_block(items: Seq<Json>, h: Seq<Seq<char>>, depth: nat) -> Seq<char> {
    "["@ + decimal(items.len()) + "]{"@ + join(h, ","@) + "}:\n"@ + table_rows(items, h, depth + 1)
}

/// Primitive items after the array's name: inline when at most eight and at
/// most 80 bytes wide, else one bullet per line.
pub open spec fn primitive_block(items: Seq<Json>, depth: nat) -> Seq<char> {
    let vals = primitive_texts(items);
    let inline = "["@ + join(vals, ","@) + "]"@;
    if vals.len() <= 8 && utf8_len(inline) <= 80 {
        ": "@ + inline + "\n"@
    } else {
        ":\n"@ + bullet_lines(vals, depth + 1)
    }
}

/// An array under `name`: `name[0]:` when empty, a table when the rows allow
/// it, primitives inline or as bullets, else one item per line.
pub open spec fn emit_array(name: Seq<char>, items: Seq<Json>, depth: nat, bullet: bool) -> Seq<char>
    decreases items, 1nat,
{
    let head = indent(depth) + bullet_prefix(bullet) + name;
    if items.len() == 0 {
        head + "[0]:\n"@
    } else {
        match table_headers(items) {
            Some(h) => head + table_block(items, h, depth),
            None => {
                if all_primitive(items) {
                    head + primitive_block(items, depth)
                } else {
                    head + ":\n"@ + emit_list_items(items, depth + 1)
                }
            },
        }
    }
}

pub open spec fn emit_list_items(items: Seq<Json>, depth: nat) -> Seq<char>
    decreases items, 0nat,
{
    if items.len() == 0 {
        Seq::empty()
    } else {
        emit_list_items(items.drop_last(), depth) + emit_list_item(items.last(), depth)
    }
}

pub open spec fn emit_list_item(v: Json, depth: nat) -> Seq<char>
    decreases v, 0nat,
{
    match v {
        Json::Object(m) => emit_object_item(m, depth),
        Json::Array(items) => indent(depth) + "-\n"@ + emit_array("items"@, items, depth + 1, false),
        _ => indent(depth) + "- "@ + primitive_text(v) + "\n"@,
    }
}

pub open spec fn emit_object_item(m: Entries, depth: nat) -> Seq<char>
    decreases m, 1nat,
{
    if m.len() == 0 {
        indent(depth) + "- {}\n"@
    } else {
        emit_bulleted_field(m[0].0, m[0].1, depth) + emit_item_fields(m.drop_first(), depth)
    }
}

pub open spec fn emit_item_fields(m: Entries, depth: nat) -> Seq<char>
    decreases m, 0nat,
{
    if m.len() == 0 {
        Seq::empty()
    } else {
        emit_item_fields(m.drop_last(), depth) + emit_item_field(m.last().0, m.last().1, depth)
    }
}

pub open spec fn emit_item_field(k: Seq<char>, v: Json, depth: nat) -> Seq<char>
    decreases v, 0nat,
{
    match v {
        Json::Object(sub) => indent(depth + 1) + k + ":\n"@ + emit_object(sub, depth + 2),
        Json::Array(items) => emit_array(k, items, depth + 1, false),
        _ => indent(depth + 1) + k + ": "@ + primitive_text(v) + "\n"@,
    }
}

pub open spec fn emit_bulleted_field(k: Seq<char>, v: Json, depth: nat) -> Seq<char>
    decreases v, 0nat,
{
    match v {
        Json::Object(sub) => indent(depth) + "- "@ + k + ":\n"@ + emit_object(sub, depth + 2),
        Json::Array(items) => emit_array(k, items, depth, true),
        _ => indent(depth) + "- "@ + k + ": "@ + primitive_text(v) + "\n"@,
    }
}

pub open spec fn emit_object(m: Entries, depth: nat) -> Seq<char>
    decreases m, 0nat,
{
    if m.len() == 0 {
        Seq::empty()
    } else {
        emit_object(m.drop_last(), depth) + emit_field(m.last().0, m.last().1, depth)
    }
}

pub open spec fn emit_field(k: Seq<char>, v: Json, depth: nat) -> Seq<char>
    decreases v, 0nat,
{
    match v {
        Json::Object(sub) => indent(depth) + k + ":\n"@ + emit_object(sub, depth + 1),
        Json::Array(items) => emit_array(k, items, depth, false),
        _ => indent(depth) + k + ": "@ + primitive_text(v) + "\n"@,
    }
}

pub open spec fn emit_value(v: Json, depth: nat) -> Seq<char> {
    match v {
        Json::Object(m) => emit_object(m, depth),
        Json::Array(items) => emit_array("items"@, items, depth, false),
        _ => indent(depth) + primitive_text(v) + "\n"@,
    }
}

/// The TOON text of a value.
pub open spec fn toon_text(v: Json) -> Seq<char> {
    trim_end(emit_value(v, 0))
}

} // verus!

verus! {

// ---------------------------------------------------------------------------
// Executable side: reading values

fn snake_case_exec(k: &str) -> (r: String)
    ensures
        r@ == snake_case(k@),
{
    let cs = chars_of(k);
    let mut out = String::new();
    let mut i: usize = 0;
    while i < cs.len()
        invariant
            cs@ == k@,
            i <= cs@.len(),
            out@ == snake_case(cs@.take(i as int)),
        decreases cs@.len() - i,
    {
        let c = cs[i];
        assert(cs@.take(i + 1).drop_last() =~= cs@.take(i as int));
        if 'A' <= c && c <= 'Z' {
            if i > 0 {
                push_char(&mut out, '_');
            }
            push_char(&mut out, to_ascii_lower(c));
        } else {
            push_char(&mut out, c);
        }
        assert(out@ =~= snake_case(cs@.take(i + 1)));
        i = i + 1;
    }
    assert(cs@.take(i as int) =~= cs@);
    out
}

fn as_u64_exec(v: &JsonValue) -> (r: Option<u64>)
    ensures
        r == as_u64(v@),
{
    match v {
        JsonValue::Number(JsonNumber::PosInt(n)) => Some(*n),
        _ => None,
    }
}

fn get_u64_exec(m: &Vec<(String, JsonValue)>, k: &str) -> (r: Option<u64>)
    ensures
        r == get_u64(view_entries(m@), k@),
{
    match object_get(m, k) {
        Some(v) => as_u64_exec(v),
        None => None,
    }
}

fn get_str_exec<'a>(m: &'a Vec<(String, JsonValue)>, k: &str) -> (r: Option<&'a String>)
    ensures
        match r {
            Some(s) => obj_get(view_entries(m@), k@) is Some && as_str(obj_get(view_entries(m@), k@)->0) == Some(s@),
            None => !(obj_get(view_entries(m@), k@) is Some && as_str(obj_get(view_entries(m@), k@)->0) is Some),
        },
{
    match object_get(m, k) {
        Some(JsonValue::String(s)) => Some(s),
        _ => None,
    }
}

fn short_range_exec(v: &JsonValue) -> (r: Option<(u64, u64, u64, u64)>)
    ensures
        r == short_range_of(v@),
{
    match v {
        JsonValue::Object(m) => {
            proof {
                lemma_view_entries(m@);
            }
            if m.len() != 4 {
                return None;
            }
            let sl = get_u64_exec(m, "sl");
            let sc = get_u64_exec(m, "sc");
            let el = get_u64_exec(m, "el");
            let ec = get_u64_exec(m, "ec");
            match (sl, sc, el, ec) {
                (Some(a), Some(b), Some(c), Some(d)) => Some((a, b, c, d)),
                _ => None,
            }
        },
        _ => None,
    }
}

fn get_object_exec<'a>(m: &'a Vec<(String, JsonValue)>, k: &str) -> (r: Option<&'a Vec<(String, JsonValue)>>)
    ensures
        match r {
            Some(sub) => get_object(view_entries(m@), k@) == Some(view_entries(sub@)),
            None => get_object(view_entries(m@), k@) is None,
        },
{
    match object_get(m, k) {
        Some(JsonValue::Object(sub)) => Some(sub),
        _ => None,
    }
}

fn raw_range_exec(m: &Vec<(String, JsonValue)>) -> (r: Option<(u64, u64, u64, u64)>)
    ensures
        r == raw_range_of(view_entries(m@)),
{
    proof {
        lemma_view_entries(m@);
    }
    if m.len() != 2 {
        return None;
    }
    let s = match get_object_exec(m, "start") {
        Some(s) => s,
        None => return None,
    };
    let e = match get_object_exec(m, "end") {
        Some(e) => e,
        None => return None,
    };
    proof {
        lemma_view_entries(s@);
        lemma_view_entries(e@);
    }
    if s.len() != 2 || e.len() != 2 {
        return None;
    }
    let a = get_u64_exec(s, "line");
    let b = get_u64_exec(s, "character");
    let c = get_u64_exec(e, "line");
    let d = get_u64_exec(e, "character");
    match (a, b, c, d) {
        (Some(a), Some(b), Some(c), Some(d)) => Some((a, b, c, d)),
        _ => None,
    }
}

fn raw_location_exec(m: &Vec<(String, JsonValue)>) -> (r: Option<(String, (u64, u64, u64, u64))>)
    ensures
        match r {
            Some((uri, rg)) => raw_location_of(view_entries(m@)) == Some((uri@, rg)),
            None => raw_location_of(view_entries(m@)) is None,
        },
{
    proof {
        lemma_view_entries(m@);
    }
    if m.len() != 2 {
        return None;
    }
    let uri = match get_str_exec(m, "uri") {
        Some(u) => u,
        None => return None,
    };
    let range = match object_get(m, "range") {
        Some(v) => v,
        None => return None,
    };
    match short_range_exec(range) {
        Some(rg) => Some((uri.clone(), rg)),
        None => None,
    }
}

fn location_exec(v: &JsonValue) -> (r: Option<(String, (u64, u64, u64, u64))>)
    ensures
        match r {
            Some((uri, rg)) => location_of(v@) == Some((uri@, rg)),
            None => location_of(v@) is None,
        },
{
    match v {
        JsonValue::Object(m) => {
            proof {
                lemma_view_entries(m@);
            }
            if m.len() != 5 {
                return None;
            }
            let uri = match get_str_exec(m, "uri") {
                Some(u) => u,
                None => return None,
            };
            let a = get_u64_exec(m, "range_sl");
            let b = get_u64_exec(m, "range_sc");
            let c = get_u64_exec(m, "range_el");
            let d = get_u64_exec(m, "range_ec");
            match (a, b, c, d) {
                (Some(a), Some(b), Some(c), Some(d)) => Some((uri.clone(), (a, b, c, d))),
                _ => None,
            }
        },
        _ => None,
    }
}

fn number_value(n: u64) -> (r: JsonValue)
    ensures
        r@ == num(n),
{
    JsonValue::Number(JsonNumber::PosInt(n))
}

fn make_short_range_exec(r: (u64, u64, u64, u64)) -> (out: Vec<(String, JsonValue)>)
    ensures
        view_entries(out@) == make_short_range(r),
        sorted_keys(view_entries(out@)),
{
    let mut m: Vec<(String, JsonValue)> = Vec::new();
    assert(view_entries(m@) =~= Seq::<(Seq<char>, Json)>::empty());
    object_insert(&mut m, "sl".to_string(), number_value(r.0));
    object_insert(&mut m, "sc".to_string(), number_value(r.1));
    object_insert(&mut m, "el".to_string(), number_value(r.2));
    object_insert(&mut m, "ec".to_string(), number_value(r.3));
    m
}

fn make_location_exec(uri: String, r: (u64, u64, u64, u64)) -> (out: Vec<(String, JsonValue)>)
    ensures
        view_entries(out@) == make_location(uri@, r),
        sorted_keys(view_entries(out@)),
{
    let mut m: Vec<(String, JsonValue)> = Vec::new();
    assert(view_entries(m@) =~= Seq::<(Seq<char>, Json)>::empty());
    let ghost u = uri@;
    object_insert(&mut m, "uri".to_string(), JsonValue::String(uri));
    object_insert(&mut m, "range_sl".to_string(), number_value(r.0));
    object_insert(&mut m, "range_sc".to_string(), number_value(r.1));
    object_insert(&mut m, "range_el".to_string(), number_value(r.2));
    object_insert(&mut m, "range_ec".to_string(), number_value(r.3));
    m
}

} // verus!

verus! {

pub proof fn lemma_insert_all_push(acc: Entries, outs: Entries, e: (Seq<char>, Json))
    ensures
        insert_all(acc, outs.push(e)) == obj_insert(insert_all(acc, outs), e.0, e.1),
{
    assert(outs.push(e).drop_last() =~= outs);
}

pub proof fn lemma_expand_fold_step(m: Entries, f: spec_fn((Seq<char>, Json)) -> Entries, i: int)
    requires
        0 <= i < m.len(),
    ensures
        expand_fold(m.take(i + 1), f) == insert_all(expand_fold(m.take(i), f), f(m[i])),
{
    assert(m.take(i + 1).drop_last() =~= m.take(i));
}

/// The key `p` followed by a suffix.
fn suffixed(p: &String, suffix: &str) -> (r: String)
    ensures
        r@ == p@ + suffix@,
{
    let mut k = p.clone();
    k.append(suffix);
    k
}

fn rule_short_ranges_exec(m: &Vec<(String, JsonValue)>) -> (r: Vec<(String, JsonValue)>)
    ensures
        view_entries(r@) == rule_short_ranges(view_entries(m@)),
        sorted_keys(view_entries(r@)),
{
    let ghost mv = view_entries(m@);
    proof {
        lemma_view_entries(m@);
    }
    let mut acc: Vec<(String, JsonValue)> = Vec::new();
    let mut i: usize = 0;
    assert(view_entries(acc@) =~= rule_short_ranges(mv.take(0)));
    while i < m.len()
        invariant
            mv == view_entries(m@),
            mv.len() == m@.len(),
            forall|j: int| 0 <= j < m@.len() ==> #[trigger] mv[j] == (m@[j].0@, view_value(m@[j].1)),
            i <= m@.len(),
            view_entries(acc@) == rule_short_ranges(mv.take(i as int)),
            sorted_keys(view_entries(acc@)),
        decreases m@.len() - i,
    {
        let ghost before = view_entries(acc@);
        proof {
            lemma_expand_fold_step(mv, |e: (Seq<char>, Json)| expand_short_range(e), i as int);
        }
        let ghost e = mv[i as int];
        let ghost outs = expand_short_range(e);
        match short_range_exec(&m[i].1) {
            Some(rg) => {
                let p = snake_case_exec(m[i].0.as_str());
                let ghost pv = p@;
                object_insert(&mut acc, suffixed(&p, "_sl"), number_value(rg.0));
                object_insert(&mut acc, suffixed(&p, "_sc"), number_value(rg.1));
                object_insert(&mut acc, suffixed(&p, "_el"), number_value(rg.2));
                object_insert(&mut acc, suffixed(&p, "_ec"), number_value(rg.3));
                proof {
                    let a = (pv + "_sl"@, num(rg.0));
                    let b = (pv + "_sc"@, num(rg.1));
                    let c = (pv + "_el"@, num(rg.2));
                    let d = (pv + "_ec"@, num(rg.3));
                    assert(outs == seq![a, b, c, d]);
                    assert(seq![a, b, c, d] =~= Seq::empty().push(a).push(b).push(c).push(d));
                    lemma_insert_all_push(before, Seq::empty(), a);
                    lemma_insert_all_push(before, Seq::empty().push(a), b);
                    lemma_insert_all_push(before, Seq::empty().push(a).push(b), c);
                    lemma_insert_all_push(before, Seq::empty().push(a).push(b).push(c), d);
                }
            },
            None => {
                let k = m[i].0.clone();
                let v = m[i].1.deep_copy();
                object_insert(&mut acc, k, v);
                proof {
                    assert(outs == seq![e]);
                    assert(seq![e] =~= Seq::empty().push(e));
                    lemma_insert_all_push(before, Seq::empty(), e);
                }
            },
        }
        i = i + 1;
    }
    assert(mv.take(i as int) =~= mv);
    acc
}

fn rule_locations_exec(m: &Vec<(String, JsonValue)>) -> (r: Vec<(String, JsonValue)>)
    ensures
        view_entries(r@) == rule_locations(view_entries(m@)),
        sorted_keys(view_entries(r@)),
{
    let ghost mv = view_entries(m@);
    proof {
        lemma_view_entries(m@);
    }
    let mut acc: Vec<(String, JsonValue)> = Vec::new();
    let mut i: usize = 0;
    assert(view_entries(acc@) =~= rule_locations(mv.take(0)));
    while i < m.len()
        invariant
            mv == view_entries(m@),
            mv.len() == m@.len(),
            forall|j: int| 0 <= j < m@.len() ==> #[trigger] mv[j] == (m@[j].0@, view_value(m@[j].1)),
            i <= m@.len(),
            view_entries(acc@) == rule_locations(mv.take(i as int)),
            sorted_keys(view_entries(acc@)),
        decreases m@.len() - i,
    {
        let ghost before = view_entries(acc@);
        proof {
            lemma_expand_fold_step(mv, |e: (Seq<char>, Json)| expand_location(e), i as int);
        }
        let ghost e = mv[i as int];
        let ghost outs = expand_location(e);
        match location_exec(&m[i].1) {
            Some((uri, rg)) => {
                let p = snake_case_exec(m[i].0.as_str());
                let ghost pv = p@;
                let ghost uv = uri@;
                object_insert(&mut acc, suffixed(&p, "_uri"), JsonValue::String(uri));
                object_insert(&mut acc, suffixed(&p, "_sl"), number_value(rg.0));
                object_insert(&mut acc, suffixed(&p, "_sc"), number_value(rg.1));
                object_insert(&mut acc, suffixed(&p, "_el"), number_value(rg.2));
                object_insert(&mut acc, suffixed(&p, "_ec"), number_value(rg.3));
                proof {
                    let u = (pv + "_uri"@, Json::Str(uv));
                    let a = (pv + "_sl"@, num(rg.0));
                    let b = (pv + "_sc"@, num(rg.1));
                    let c = (pv + "_el"@, num(rg.2));
                    let d = (pv + "_ec"@, num(rg.3));
                    assert(outs == seq![u, a, b, c, d]);
                    assert(seq![u, a, b, c, d] =~= Seq::empty().push(u).push(a).push(b).push(c).push(d));
                    lemma_insert_all_push(before, Seq::empty(), u);
                    lemma_insert_all_push(before, Seq::empty().push(u), a);
                    lemma_insert_all_push(before, Seq::empty().push(u).push(a), b);
                    lemma_insert_all_push(before, Seq::empty().push(u).push(a).push(b), c);
                    lemma_insert_all_push(before, Seq::empty().push(u).push(a).push(b).push(c), d);
                }
            },
            None => {
                let k = m[i].0.clone();
                let v = m[i].1.deep_copy();
                object_insert(&mut acc, k, v);
                proof {
                    assert(outs == seq![e]);
                    assert(seq![e] =~= Seq::empty().push(e));
                    lemma_insert_all_push(before, Seq::empty(), e);
                }
            },
        }
        i = i + 1;
    }
    assert(mv.take(i as int) =~= mv);
    acc
}

fn str_is(s: &String, lit: &str) -> (r: bool)
    ensures
        r == (s@ == lit@),
{
    str_eq(s.as_str(), lit)
}

fn rule_call_items_exec(m: &Vec<(String, JsonValue)>) -> (r: Vec<(String, JsonValue)>)
    ensures
        view_entries(r@) == rule_call_items(view_entries(m@)),
        sorted_keys(view_entries(r@)),
{
    let ghost mv = view_entries(m@);
    proof {
        lemma_view_entries(m@);
    }
    let mut acc: Vec<(String, JsonValue)> = Vec::new();
    let mut i: usize = 0;
    assert(view_entries(acc@) =~= rule_call_items(mv.take(0)));
    while i < m.len()
        invariant
            mv == view_entries(m@),
            mv.len() == m@.len(),
            forall|j: int| 0 <= j < m@.len() ==> #[trigger] mv[j] == (m@[j].0@, view_value(m@[j].1)),
            i <= m@.len(),
            view_entries(acc@) == rule_call_items(mv.take(i as int)),
            sorted_keys(view_entries(acc@)),
        decreases m@.len() - i,
    {
        let ghost before = view_entries(acc@);
        proof {
            lemma_expand_fold_step(mv, |e: (Seq<char>, Json)| expand_call_item(e), i as int);
        }
        let ghost e = mv[i as int];
        let ghost outs = expand_call_item(e);
        let key = &m[i].0;
        let is_call = str_is(key, "from") || str_is(key, "to");
        match &m[i].1 {
            JsonValue::Object(sub) if is_call => {
                let ghost sv = view_entries(sub@);
                proof {
                    lemma_view_entries(sub@);
                    assert(outs == prefixed(e.0, sv));
                }
                let mut j: usize = 0;
                assert(outs.take(0) =~= Seq::<(Seq<char>, Json)>::empty());
                while j < sub.len()
                    invariant
                        sv == view_entries(sub@),
                        sv.len() == sub@.len(),
                        forall|t: int| 0 <= t < sub@.len() ==> #[trigger] sv[t] == (sub@[t].0@, view_value(sub@[t].1)),
                        outs == prefixed(e.0, sv),
                        key@ == e.0,
                        j <= sub@.len(),
                        view_entries(acc@) == insert_all(before, outs.take(j as int)),
                        sorted_keys(view_entries(acc@)),
                    decreases sub@.len() - j,
                {
                    let mut k = key.clone();
                    k.append("_");
                    k.append(sub[j].0.as_str());
                    let v = sub[j].1.deep_copy();
                    proof {
                        assert(outs.take(j + 1) =~= outs.take(j as int).push(outs[j as int]));
                        lemma_insert_all_push(before, outs.take(j as int), outs[j as int]);
                    }
                    object_insert(&mut acc, k, v);
                    j = j + 1;
                }
                assert(outs.take(j as int) =~= outs);
            },
            _ => {
                let k = m[i].0.clone();
                let v = m[i].1.deep_copy();
                object_insert(&mut acc, k, v);
                proof {
                    assert(outs == seq![e]);
                    assert(seq![e] =~= Seq::empty().push(e));
                    lemma_insert_all_push(before, Seq::empty(), e);
                }
            },
        }
        i = i + 1;
    }
    assert(mv.take(i as int) =~= mv);
    acc
}

} // verus!

verus! {

fn same_keys(a: &Vec<(String, JsonValue)>, b: &Vec<(String, JsonValue)>) -> (r: bool)
    ensures
        r == (obj_keys(view_entries(a@)) == obj_keys(view_entries(b@))),
{
    proof {
        lemma_view_entries(a@);
        lemma_view_entries(b@);
    }
    let ghost ka = obj_keys(view_entries(a@));
    let ghost kb = obj_keys(view_entries(b@));
    if a.len() != b.len() {
        assert(ka.len() != kb.len());
        return false;
    }
    let mut i: usize = 0;
    while i < a.len()
        invariant
            a@.len() == b@.len(),
            ka == obj_keys(view_entries(a@)),
            kb == obj_keys(view_entries(b@)),
            ka.len() == a@.len(),
            kb.len() == b@.len(),
            forall|j: int| 0 <= j < a@.len() ==> #[trigger] ka[j] == a@[j].0@,
            forall|j: int| 0 <= j < b@.len() ==> #[trigger] kb[j] == b@[j].0@,
            i <= a@.len(),
            forall|j: int| 0 <= j < i ==> ka[j] == kb[j],
        decreases a@.len() - i,
    {
        if !str_eq(a[i].0.as_str(), b[i].0.as_str()) {
            assert(ka[i as int] != kb[i as int]);
            return false;
        }
        i = i + 1;
    }
    assert(ka =~= kb);
    true
}

pub proof fn lemma_rules_fix_sorted(m: Entries)
    requires
        sorted_keys(m),
    ensures
        sorted_keys(rules_fix(m)),
    decreases entries_size(m),
{
    let n = rules_pass(m);
    lemma_expand_fold_sorted(rule_locations(rule_short_ranges(m)), |e: (Seq<char>, Json)| expand_call_item(e));
    if obj_keys(n) != obj_keys(m) {
        lemma_pass_decreases(m);
        lemma_rules_fix_sorted(n);
    }
}

fn rules_fix_exec(f: Vec<(String, JsonValue)>) -> (r: Vec<(String, JsonValue)>)
    requires
        sorted_keys(view_entries(f@)),
    ensures
        view_entries(r@) == rules_fix(view_entries(f@)),
{
    let ghost fv = view_entries(f@);
    let ghost target = rules_fix(fv);
    let mut cur = f;
    loop
        invariant
            fv == view_entries(f@),
            target == rules_fix(fv),
            sorted_keys(view_entries(cur@)),
            rules_fix(view_entries(cur@)) == target,
        decreases entries_size(view_entries(cur@)),
    {
        let a = rule_short_ranges_exec(&cur);
        let b = rule_locations_exec(&a);
        let next = rule_call_items_exec(&b);
        assert(view_entries(next@) == rules_pass(view_entries(cur@)));
        if same_keys(&next, &cur) {
            assert(rules_fix(view_entries(cur@)) == view_entries(next@));
            return next;
        }
        proof {
            lemma_pass_decreases(view_entries(cur@));
        }
        cur = next;
    }
}

} // verus!

verus! {

pub proof fn lemma_flatten_fields_sorted(m: Entries)
    ensures
        sorted_keys(flatten_fields(m)),
    decreases m.len(),
{
    if m.len() > 0 {
        lemma_flatten_fields_sorted(m.drop_last());
        let acc = flatten_fields(m.drop_last());
        lemma_obj_insert_sorted(acc, snake_case(m.last().0), flatten(m.last().1));
    }
}

pub proof fn lemma_made_objects_sorted(uri: Seq<char>, r: (u64, u64, u64, u64))
    ensures
        sorted_keys(make_short_range(r)),
        sorted_keys(make_location(uri, r)),
{
    let e: Entries = Seq::empty();
    let a = obj_insert(e, "sl"@, num(r.0));
    let b = obj_insert(a, "sc"@, num(r.1));
    let c = obj_insert(b, "el"@, num(r.2));
    lemma_obj_insert_sorted(e, "sl"@, num(r.0));
    lemma_obj_insert_sorted(a, "sc"@, num(r.1));
    lemma_obj_insert_sorted(b, "el"@, num(r.2));
    lemma_obj_insert_sorted(c, "ec"@, num(r.3));
    let a2 = obj_insert(e, "uri"@, Json::Str(uri));
    let b2 = obj_insert(a2, "range_sl"@, num(r.0));
    let c2 = obj_insert(b2, "range_sc"@, num(r.1));
    let d2 = obj_insert(c2, "range_el"@, num(r.2));
    lemma_obj_insert_sorted(e, "uri"@, Json::Str(uri));
    lemma_obj_insert_sorted(a2, "range_sl"@, num(r.0));
    lemma_obj_insert_sorted(b2, "range_sc"@, num(r.1));
    lemma_obj_insert_sorted(c2, "range_el"@, num(r.2));
    lemma_obj_insert_sorted(d2, "range_ec"@, num(r.3));
}

/// The objects that flattening makes have their keys in order.
pub proof fn lemma_flatten_object_sorted(v: Json)
    ensures
        flatten(v) is Object ==> sorted_keys(entries_of(flatten(v))),
{
    match v {
        Json::Object(m) => {
            let f = flatten_fields(m);
            lemma_flatten_fields_sorted(m);
            match raw_range_of(f) {
                Some(r) => {
                    lemma_made_objects_sorted(Seq::empty(), r);
                },
                None => match raw_location_of(f) {
                    Some((uri, r)) => {
                        lemma_made_objects_sorted(uri, r);
                    },
                    None => {
                        lemma_rules_fix_sorted(f);
                    },
                },
            }
        },
        _ => {},
    }
}

pub proof fn lemma_fill_missing_sorted(m: Entries, ks: Seq<Seq<char>>)
    requires
        sorted_keys(m),
    ensures
        sorted_keys(fill_missing(m, ks)),
    decreases ks.len(),
{
    if ks.len() > 0 {
        lemma_fill_missing_sorted(m, ks.drop_last());
        lemma_obj_insert_sorted(fill_missing(m, ks.drop_last()), ks.last(), Json::Null);
    }
}

} // verus!

verus! {

fn is_lsp_key_exec(k: &str) -> (r: bool)
    ensures
        r == is_lsp_key(k@),
{
    str_eq(k, "sl") || str_eq(k, "sc") || str_eq(k, "el") || str_eq(k, "ec") || ends_with_str(k, "_sl")
        || ends_with_str(k, "_sc") || ends_with_str(k, "_el") || ends_with_str(k, "_ec") || ends_with_str(k, "_uri")
        || starts_with_str(k, "from_") || starts_with_str(k, "to_")
}

fn all_objects_exec(items: &Vec<JsonValue>) -> (r: bool)
    ensures
        r == all_objects(view_items(items@)),
{
    proof {
        lemma_view_items(items@);
    }
    let ghost iv = view_items(items@);
    let mut i: usize = 0;
    while i < items.len()
        invariant
            iv == view_items(items@),
            iv.len() == items@.len(),
            forall|j: int| 0 <= j < items@.len() ==> #[trigger] iv[j] == view_value(items@[j]),
            i <= items@.len(),
            forall|j: int| 0 <= j < i ==> #[trigger] iv[j] is Object,
        decreases items@.len() - i,
    {
        match &items[i] {
            JsonValue::Object(_) => {},
            _ => {
                assert(!(iv[i as int] is Object));
                return false;
            },
        }
        i = i + 1;
    }
    true
}

fn lsp_detected_exec(items: &Vec<JsonValue>) -> (r: bool)
    ensures
        r == lsp_detected(view_items(items@)),
{
    proof {
        lemma_view_items(items@);
    }
    let ghost iv = view_items(items@);
    let mut i: usize = 0;
    while i < items.len()
        invariant
            iv == view_items(items@),
            iv.len() == items@.len(),
            forall|j: int| 0 <= j < items@.len() ==> #[trigger] iv[j] == view_value(items@[j]),
            i <= items@.len(),
            forall|j: int| 0 <= j < i ==> !(#[trigger] has_lsp_key(iv[j])),
        decreases items@.len() - i,
    {
        match &items[i] {
            JsonValue::Object(m) => {
                let ghost mv = view_entries(m@);
                proof {
                    lemma_view_entries(m@);
                }
                assert(iv[i as int] == Json::Object(mv));
                let mut j: usize = 0;
                while j < m.len()
                    invariant
                        i < iv.len(),
                        iv == view_items(items@),
                        iv[i as int] == Json::Object(mv),
                        mv == view_entries(m@),
                        mv.len() == m@.len(),
                        forall|t: int| 0 <= t < m@.len() ==> #[trigger] mv[t] == (m@[t].0@, view_value(m@[t].1)),
                        j <= m@.len(),
                        forall|t: int| 0 <= t < j ==> !is_lsp_key(#[trigger] mv[t].0),
                    decreases m@.len() - j,
                {
                    if is_lsp_key_exec(m[j].0.as_str()) {
                        let ghost jj = j as int;
                        assert(0 <= jj < mv.len() && is_lsp_key(mv[jj].0));
                        assert(entries_of(Json::Object(mv)) == mv);
                        assert(has_lsp_key(Json::Object(mv)));
                        assert(has_lsp_key(iv[i as int]));
                        return true;
                    }
                    j = j + 1;
                }
                assert(!has_lsp_key(iv[i as int]));
            },
            _ => {},
        }
        i = i + 1;
    }
    false
}

pub proof fn lemma_all_keys_step(items: Seq<Json>, i: int)
    requires
        0 <= i < items.len(),
    ensures
        all_keys(items.take(i + 1)) == all_keys(items.take(i)) + obj_keys(entries_of(items[i])),
{
    assert(items.take(i + 1).drop_last() =~= items.take(i));
}

/// The objects of an array of LSP objects all get the keys of all of them.
fn normalize_array_keys_exec(items: Vec<JsonValue>) -> (r: Vec<JsonValue>)
    requires
        forall|i: int| 0 <= i < items@.len() ==> (#[trigger] items@[i])@ is Object ==> sorted_keys(entries_of(items@[i]@)),
    ensures
        view_items(r@) == normalize_array_keys(view_items(items@)),
{
    let ghost iv = view_items(items@);
    proof {
        lemma_view_items(items@);
    }
    if items.len() == 0 || !all_objects_exec(&items) || !lsp_detected_exec(&items) {
        return items;
    }
    // Every key of every object, in order.
    let mut keys: Vec<String> = Vec::new();
    let ghost mut kv: Seq<Seq<char>> = Seq::empty();
    let mut i: usize = 0;
    assert(items@.take(0) =~= Seq::<JsonValue>::empty());
    assert(iv.take(0) =~= Seq::<Json>::empty());
    while i < items.len()
        invariant
            iv == view_items(items@),
            iv.len() == items@.len(),
            forall|j: int| 0 <= j < items@.len() ==> #[trigger] iv[j] == view_value(items@[j]),
            i <= items@.len(),
            kv == all_keys(iv.take(i as int)),
            kv.len() == keys@.len(),
            forall|j: int| 0 <= j < kv.len() ==> #[trigger] kv[j] == keys@[j]@,
        decreases items@.len() - i,
    {
        proof {
            lemma_all_keys_step(iv, i as int);
        }
        match &items[i] {
            JsonValue::Object(m) => {
                let ghost mv = view_entries(m@);
                proof {
                    lemma_view_entries(m@);
                    assert(entries_of(iv[i as int]) == mv);
                }
                let ghost k0 = kv;
                let mut j: usize = 0;
                while j < m.len()
                    invariant
                        mv == view_entries(m@),
                        mv.len() == m@.len(),
                        forall|t: int| 0 <= t < m@.len() ==> #[trigger] mv[t] == (m@[t].0@, view_value(m@[t].1)),
                        j <= m@.len(),
                        kv == k0 + obj_keys(mv).take(j as int),
                        kv.len() == keys@.len(),
                        forall|t: int| 0 <= t < kv.len() ==> #[trigger] kv[t] == keys@[t]@,
                    decreases m@.len() - j,
                {
                    keys.push(m[j].0.clone());
                    proof {
                        assert(obj_keys(mv).take(j + 1) =~= obj_keys(mv).take(j as int).push(mv[j as int].0));
                        kv = kv.push(mv[j as int].0);
                    }
                    j = j + 1;
                }
                assert(obj_keys(mv).take(j as int) =~= obj_keys(mv));
            },
            _ => {
                assert(obj_keys(entries_of(iv[i as int])) =~= Seq::<Seq<char>>::empty());
                assert(kv + Seq::<Seq<char>>::empty() =~= kv);
            },
        }
        i = i + 1;
    }
    assert(iv.take(i as int) =~= iv);
    let ghost ks = kv;
    // Fill each object with what it lacks.
    let mut out: Vec<JsonValue> = Vec::new();
    let mut i: usize = 0;
    while i < items.len()
        invariant
            iv == view_items(items@),
            iv.len() == items@.len(),
            forall|j: int| 0 <= j < items@.len() ==> #[trigger] iv[j] == view_value(items@[j]),
            forall|j: int| 0 <= j < items@.len() ==> (#[trigger] items@[j])@ is Object ==> sorted_keys(entries_of(items@[j]@)),
            all_objects(iv),
            ks == all_keys(iv),
            ks.len() == keys@.len(),
            forall|j: int| 0 <= j < ks.len() ==> #[trigger] ks[j] == keys@[j]@,
            i <= items@.len(),
            out@.len() == i,
            forall|j: int| 0 <= j < i ==> (#[trigger] out@[j])@ == Json::Object(fill_missing(entries_of(iv[j]), ks)),
        decreases items@.len() - i,
    {
        assert(iv[i as int] is Object);
        let mut m: Vec<(String, JsonValue)> = match items[i].deep_copy() {
            JsonValue::Object(e) => e,
            _ => Vec::new(),
        };
        let ghost m0 = view_entries(m@);
        assert(m0 == entries_of(iv[i as int]));
        assert(sorted_keys(m0));
        let mut t: usize = 0;
        assert(ks.take(0) =~= Seq::<Seq<char>>::empty());
        while t < keys.len()
            invariant
                ks.len() == keys@.len(),
                forall|j: int| 0 <= j < ks.len() ==> #[trigger] ks[j] == keys@[j]@,
                t <= keys@.len(),
                view_entries(m@) == fill_missing(m0, ks.take(t as int)),
                sorted_keys(view_entries(m@)),
            decreases keys@.len() - t,
        {
            assert(ks.take(t + 1).drop_last() =~= ks.take(t as int));
            assert(ks.take(t + 1).last() == keys@[t as int]@);
            if object_get(&m, keys[t].as_str()).is_none() {
                object_insert(&mut m, keys[t].clone(), JsonValue::Null);
            }
            t = t + 1;
        }
        assert(ks.take(t as int) =~= ks);
        out.push(JsonValue::Object(m));
        i = i + 1;
    }
    proof {
        lemma_view_items(out@);
        assert(view_items(out@) =~= normalize_array_keys(iv));
    }
    out
}

} // verus!

verus! {

pub proof fn lemma_flatten_fields_step(m: Entries, i: int)
    requires
        0 <= i < m.len(),
    ensures
        flatten_fields(m.take(i + 1)) == ({
            let acc = flatten_fields(m.take(i));
            let sk = snake_case(m[i].0);
            if sk == "code_description"@ {
                acc
            } else {
                let fv = flatten(m[i].1);
                if sk == "tags"@ && fv == Json::Array(Seq::empty()) {
                    acc
                } else {
                    obj_insert(acc, sk, fv)
                }
            }
        }),
{
    assert(m.take(i + 1).drop_last() =~= m.take(i));
}

pub proof fn lemma_flatten_items_len(s: Seq<Json>)
    ensures
        flatten_items(s).len() == s.len(),
        forall|i: int| 0 <= i < s.len() ==> #[trigger] flatten_items(s)[i] == flatten(s[i]),
    decreases s.len(),
{
    if s.len() > 0 {
        lemma_flatten_items_len(s.drop_last());
    }
}

fn is_empty_array(v: &JsonValue) -> (r: bool)
    ensures
        r == (v@ == Json::Array(Seq::empty())),
{
    match v {
        JsonValue::Array(a) => {
            proof {
                lemma_view_items(a@);
            }
            if a.len() == 0 {
                assert(view_items(a@) =~= Seq::<Json>::empty());
                true
            } else {
                false
            }
        },
        _ => false,
    }
}

/// The flattened form of an LSP value.
#[verifier::loop_isolation(false)]
pub fn flatten_lsp(v: &JsonValue) -> (r: JsonValue)
    ensures
        r@ == flatten(v@),
    decreases v,
{
    match v {
        JsonValue::Object(m) => {
            let ghost mv = view_entries(m@);
            proof {
                lemma_view_entries(m@);
            }
            let mut acc: Vec<(String, JsonValue)> = Vec::new();
            let mut i: usize = 0;
            assert(mv.take(0) =~= Seq::<(Seq<char>, Json)>::empty());
            assert(view_entries(acc@) =~= Seq::<(Seq<char>, Json)>::empty());
            while i < m.len()
                invariant
                    i <= m@.len(),
                    view_entries(acc@) == flatten_fields(mv.take(i as int)),
                    sorted_keys(view_entries(acc@)),
                decreases m@.len() - i,
            {
                proof {
                    lemma_flatten_fields_step(mv, i as int);
                    assert(decreases_to!(*v => *m));
                    assert(decreases_to!(*m => m@[i as int]));
                    assert(decreases_to!(m@[i as int] => m@[i as int].1));
                }
                let sk = snake_case_exec(m[i].0.as_str());
                if !str_is(&sk, "code_description") {
                    let fv = flatten_lsp(&m[i].1);
                    if !(str_is(&sk, "tags") && is_empty_array(&fv)) {
                        object_insert(&mut acc, sk, fv);
                    }
                }
                i = i + 1;
            }
            assert(mv.take(i as int) =~= mv);
            match raw_range_exec(&acc) {
                Some(rg) => JsonValue::Object(make_short_range_exec(rg)),
                None => match raw_location_exec(&acc) {
                    Some((uri, rg)) => JsonValue::Object(make_location_exec(uri, rg)),
                    None => JsonValue::Object(rules_fix_exec(acc)),
                },
            }
        },
        JsonValue::Array(items) => {
            let ghost iv = view_items(items@);
            proof {
                lemma_view_items(items@);
            }
            let mut out: Vec<JsonValue> = Vec::new();
            let mut i: usize = 0;
            while i < items.len()
                invariant
                    i <= items@.len(),
                    out@.len() == i,
                    forall|j: int| 0 <= j < i ==> (#[trigger] out@[j])@ == flatten(iv[j]),
                    forall|j: int| 0 <= j < i ==> (#[trigger] out@[j])@ is Object ==> sorted_keys(entries_of(out@[j]@)),
                decreases items@.len() - i,
            {
                proof {
                    assert(decreases_to!(*v => *items));
                    assert(decreases_to!(*items => items@[i as int]));
                }
                let f = flatten_lsp(&items[i]);
                proof {
                    lemma_flatten_object_sorted(iv[i as int]);
                }
                out.push(f);
                i = i + 1;
            }
            proof {
                lemma_view_items(out@);
                lemma_flatten_items_len(iv);
                assert(view_items(out@) =~= flatten_items(iv));
            }
            JsonValue::Array(normalize_array_keys_exec(out))
        },
        _ => v.deep_copy(),
    }
}

} // verus!

verus! {

// ---------------------------------------------------------------------------
// Executable side: rendering primitives

fn is_delimiter_exec(c: char) -> (r: bool)
    ensures
        r == is_delimiter(c),
{
    c == ',' || c == ':' || c == '[' || c == ']' || c == '{' || c == '}' || c == '#' || c == '"' || c == '\n'
        || c == '\t' || c == '\r'
}

fn needs_quotes_exec(s: &str) -> (r: bool)
    ensures
        r == needs_quotes(s@),
{
    let cs = chars_of(s);
    if cs.len() == 0 {
        return true;
    }
    if cs[0] == ' ' || cs[cs.len() - 1] == ' ' {
        return true;
    }
    let mut i: usize = 0;
    while i < cs.len()
        invariant
            cs@ == s@,
            i <= cs@.len(),
            forall|j: int| 0 <= j < i ==> !is_delimiter(#[trigger] cs@[j]),
        decreases cs@.len() - i,
    {
        if is_delimiter_exec(cs[i]) {
            assert(is_delimiter(s@[i as int]));
            return true;
        }
        i = i + 1;
    }
    is_float_literal_exec(&cs) || str_eq(s, "true") || str_eq(s, "false") || str_eq(s, "null")
}

fn push_escaped(out: &mut String, c: char)
    ensures
        final(out)@ == old(out)@ + escape_char(c),
{
    if c == '"' {
        push_char(out, '\\');
        push_char(out, '"');
    } else if c == '\\' {
        push_char(out, '\\');
        push_char(out, '\\');
    } else if c == '\n' {
        push_char(out, '\\');
        push_char(out, 'n');
    } else if c == '\r' {
        push_char(out, '\\');
        push_char(out, 'r');
    } else if c == '\t' {
        push_char(out, '\\');
        push_char(out, 't');
    } else if c == '\x08' {
        push_char(out, '\\');
        push_char(out, 'b');
    } else if c == '\x0c' {
        push_char(out, '\\');
        push_char(out, 'f');
    } else {
        push_char(out, c);
    }
    assert(final(out)@ =~= old(out)@ + escape_char(c));
}

/// The string as it stands in TOON: bare when nothing in it could be misread,
/// else in double quotes with escapes.
pub fn quote_string_if_needed(value: &str) -> (r: String)
    ensures
        r@ == quote_if_needed(value@),
{
    if !needs_quotes_exec(value) {
        let mut r = String::new();
        push_str(&mut r, value);
        assert(r@ =~= value@);
        return r;
    }
    let cs = chars_of(value);
    let mut out = String::new();
    push_char(&mut out, '"');
    let mut i: usize = 0;
    assert(cs@.take(0) =~= Seq::<char>::empty());
    while i < cs.len()
        invariant
            cs@ == value@,
            i <= cs@.len(),
            out@ == seq!['"'] + escape_all(cs@.take(i as int)),
        decreases cs@.len() - i,
    {
        assert(cs@.take(i + 1).drop_last() =~= cs@.take(i as int));
        push_escaped(&mut out, cs[i]);
        assert(out@ =~= seq!['"'] + escape_all(cs@.take(i + 1)));
        i = i + 1;
    }
    assert(cs@.take(i as int) =~= cs@);
    push_char(&mut out, '"');
    out
}

fn push_primitive(out: &mut String, v: &JsonValue)
    requires
        is_primitive(v@),
    ensures
        final(out)@ == old(out)@ + primitive_text(v@),
{
    match v {
        JsonValue::Null => push_str(out, "null"),
        JsonValue::Bool(b) => {
            if *b {
                push_str(out, "true");
            } else {
                push_str(out, "false");
            }
        },
        JsonValue::Number(JsonNumber::PosInt(n)) => push_decimal(out, *n),
        JsonValue::Number(JsonNumber::NegInt(n)) => {
            let t = i64_to_text(*n);
            push_str(out, t.as_str());
        },
        JsonValue::Number(JsonNumber::Float(t)) => push_str(out, t.as_str()),
        JsonValue::String(s) => {
            let q = quote_string_if_needed(s.as_str());
            push_str(out, q.as_str());
        },
        _ => {},
    }
}

/// The rendering of a primitive value: `null`, `true`, `false`, a number, or a string as it stands in TOON.
fn primitive_string(v: &JsonValue) -> (r: String)
    requires
        is_primitive(v@),
    ensures
        r@ == primitive_text(v@),
{
    let mut r = String::new();
    push_primitive(&mut r, v);
    assert(r@ =~= primitive_text(v@));
    r
}

pub open spec fn strings_view(v: Seq<String>) -> Seq<Seq<char>> {
    Seq::new(v.len(), |i: int| v[i]@)
}

pub(crate) fn push_join(out: &mut String, parts: &Vec<String>, sep: &str)
    ensures
        final(out)@ == old(out)@ + join(strings_view(parts@), sep@),
{
    let ghost ps = strings_view(parts@);
    let mut i: usize = 0;
    assert(ps.take(0) =~= Seq::<Seq<char>>::empty());
    while i < parts.len()
        invariant
            ps == strings_view(parts@),
            i <= parts@.len(),
            out@ == old(out)@ + join(ps.take(i as int), sep@),
        decreases parts@.len() - i,
    {
        let ghost before = out@;
        if i > 0 {
            push_str(out, sep);
        }
        push_str(out, parts[i].as_str());
        proof {
            let t = ps.take(i + 1);
            assert(t.drop_last() =~= ps.take(i as int));
            assert(t.last() == parts@[i as int]@);
            if i == 0 {
                assert(t.len() == 1);
                assert(join(t, sep@) == t[0]);
                assert(join(ps.take(0), sep@) == Seq::<char>::empty());
            }
        }
        assert(out@ =~= old(out)@ + join(ps.take(i + 1), sep@));
        i = i + 1;
    }
    assert(ps.take(i as int) =~= ps);
}

/// Whether the text is at most `limit` bytes long in UTF-8.
fn utf8_len_at_most(s: &Vec<char>, limit: u64) -> (r: bool)
    ensures
        r == (utf8_len(s@) <= limit),
{
    let mut n: u64 = 0;
    let mut i: usize = 0;
    while i < s.len()
        invariant
            i <= s@.len(),
            n == utf8_len(s@.take(i as int)),
            n <= limit,
        decreases s@.len() - i,
    {
        let u = s[i] as u32;
        let w: u64 = if u < 0x80 { 1 } else if u < 0x800 { 2 } else if u < 0x10000 { 3 } else { 4 };
        assert(s@.take(i + 1).drop_last() =~= s@.take(i as int));
        if w > limit - n {
            proof {
                lemma_utf8_len_prefix(s@, i + 1);
            }
            return false;
        }
        n = n + w;
        i = i + 1;
    }
    assert(s@.take(i as int) =~= s@);
    true
}

pub proof fn lemma_utf8_len_prefix(s: Seq<char>, k: int)
    requires
        0 <= k <= s.len(),
    ensures
        utf8_len(s.take(k)) <= utf8_len(s),
    decreases s.len() - k,
{
    if k < s.len() {
        lemma_utf8_len_prefix(s, k + 1);
        assert(s.take(k + 1).drop_last() =~= s.take(k));
    } else {
        assert(s.take(k) =~= s);
    }
}

} // verus!

verus! {

// ---------------------------------------------------------------------------
// Executable side: rendering structure

fn all_primitive_exec(items: &Vec<JsonValue>) -> (r: bool)
    ensures
        r == all_primitive(view_items(items@)),
{
    proof {
        lemma_view_items(items@);
    }
    let ghost iv = view_items(items@);
    let mut i: usize = 0;
    while i < items.len()
        invariant
            iv == view_items(items@),
            iv.len() == items@.len(),
            forall|j: int| 0 <= j < items@.len() ==> #[trigger] iv[j] == view_value(items@[j]),
            i <= items@.len(),
            forall|j: int| 0 <= j < i ==> is_primitive(#[trigger] iv[j]),
        decreases items@.len() - i,
    {
        match &items[i] {
            JsonValue::Array(_) | JsonValue::Object(_) => {
                assert(!is_primitive(iv[i as int]));
                return false;
            },
            _ => {},
        }
        i = i + 1;
    }
    true
}

fn key_strings(m: &Vec<(String, JsonValue)>) -> (r: Vec<String>)
    ensures
        strings_view(r@) == obj_keys(view_entries(m@)),
{
    proof {
        lemma_view_entries(m@);
    }
    let mut r: Vec<String> = Vec::new();
    let mut i: usize = 0;
    while i < m.len()
        invariant
            i <= m@.len(),
            r@.len() == i,
            forall|j: int| 0 <= j < i ==> (#[trigger] r@[j])@ == m@[j].0@,
        decreases m@.len() - i,
    {
        r.push(m[i].0.clone());
        i = i + 1;
    }
    assert(strings_view(r@) =~= obj_keys(view_entries(m@)));
    r
}

fn entries_all_primitive(m: &Vec<(String, JsonValue)>) -> (r: bool)
    ensures
        r == (forall|q: int| 0 <= q < view_entries(m@).len() ==> is_primitive(#[trigger] view_entries(m@)[q].1)),
{
    proof {
        lemma_view_entries(m@);
    }
    let ghost mv = view_entries(m@);
    let mut t: usize = 0;
    while t < m.len()
        invariant
            mv == view_entries(m@),
            mv.len() == m@.len(),
            forall|q: int| 0 <= q < m@.len() ==> #[trigger] mv[q] == (m@[q].0@, view_value(m@[q].1)),
            t <= m@.len(),
            forall|q: int| 0 <= q < t ==> is_primitive(#[trigger] mv[q].1),
        decreases m@.len() - t,
    {
        if !is_primitive_exec(&m[t].1) {
            assert(!is_primitive(mv[t as int].1));
            return false;
        }
        t = t + 1;
    }
    true
}

fn table_headers_exec(items: &Vec<JsonValue>) -> (r: Option<Vec<String>>)
    ensures
        match r {
            Some(h) => table_headers(view_items(items@)) == Some(strings_view(h@)),
            None => table_headers(view_items(items@)) is None,
        },
{
    proof {
        lemma_view_items(items@);
    }
    let ghost iv = view_items(items@);
    if items.len() == 0 || !all_objects_exec(items) {
        return None;
    }
    let first = match &items[0] {
        JsonValue::Object(m) => m,
        _ => return None,
    };
    assert(entries_of(iv[0]) == view_entries(first@));
    let ghost ks = obj_keys(view_entries(first@));
    let mut i: usize = 0;
    while i < items.len()
        invariant
            iv == view_items(items@),
            iv.len() == items@.len(),
            forall|j: int| 0 <= j < items@.len() ==> #[trigger] iv[j] == view_value(items@[j]),
            items@.len() > 0,
            all_objects(iv),
            ks == obj_keys(entries_of(iv[0])),
            ks == obj_keys(view_entries(first@)),
            i <= items@.len(),
            forall|j: int| 0 <= j < i ==> obj_keys(entries_of(#[trigger] iv[j])) == ks,
            forall|j: int, t: int| 0 <= j < i && 0 <= t < entries_of(iv[j]).len()
                ==> is_primitive(#[trigger] entries_of(iv[j])[t].1),
        decreases items@.len() - i,
    {
        assert(iv[i as int] is Object);
        let m = match &items[i] {
            JsonValue::Object(m) => m,
            _ => return None,
        };
        assert(entries_of(iv[i as int]) == view_entries(m@));
        if !same_keys(m, first) {
            assert(obj_keys(entries_of(iv[i as int])) != ks);
            return None;
        }
        if !entries_all_primitive(m) {
            let ghost q = choose|q: int| 0 <= q < view_entries(m@).len() && !is_primitive(#[trigger] view_entries(m@)[q].1);
            assert(!is_primitive(entries_of(iv[i as int])[q].1));
            return None;
        }
        i = i + 1;
    }
    Some(key_strings(first))
}

fn row_string(m: &Vec<(String, JsonValue)>, headers: &Vec<String>) -> (r: String)
    ensures
        r@ == row_text(view_entries(m@), strings_view(headers@)),
{
    let ghost hv = strings_view(headers@);
    let ghost mv = view_entries(m@);
    let mut parts: Vec<String> = Vec::new();
    let mut j: usize = 0;
    while j < headers.len()
        invariant
            hv == strings_view(headers@),
            mv == view_entries(m@),
            j <= headers@.len(),
            parts@.len() == j,
            forall|q: int| 0 <= q < j ==> (#[trigger] parts@[q])@ == primitive_text(value_or_null(obj_get(mv, hv[q]))),
        decreases headers@.len() - j,
    {
        let text = match object_get(m, headers[j].as_str()) {
            Some(v) => {
                if is_primitive_exec(v) {
                    primitive_string(v)
                } else {
                    String::new()
                }
            },
            None => "null".to_string(),
        };
        parts.push(text);
        j = j + 1;
    }
    let mut r = String::new();
    push_join(&mut r, &parts, ",");
    assert(strings_view(parts@) =~= Seq::new(hv.len(), |q: int| primitive_text(value_or_null(obj_get(mv, hv[q])))));
    assert(r@ =~= row_text(mv, hv));
    r
}

fn is_primitive_exec(v: &JsonValue) -> (r: bool)
    ensures
        r == is_primitive(v@),
{
    match v {
        JsonValue::Array(_) | JsonValue::Object(_) => false,
        _ => true,
    }
}

fn deeper(ind: &String) -> (r: String)
    ensures
        r@ == ind@ + "  "@,
{
    let mut r = ind.clone();
    r.append("  ");
    r
}

pub proof fn lemma_seq_step<A>(s: Seq<A>, i: int)
    requires
        0 <= i < s.len(),
    ensures
        s.take(i + 1).drop_last() == s.take(i),
        s.take(i + 1).last() == s[i],
{
    assert(s.take(i + 1).drop_last() =~= s.take(i));
}


fn push_table_rows(out: &mut String, items: &Vec<JsonValue>, h: &Vec<String>, ind: &String, Ghost(d): Ghost<nat>)
    requires
        ind@ == indent(d),
        all_objects(view_items(items@)),
    ensures
        final(out)@ == old(out)@ + table_rows(view_items(items@), strings_view(h@), d),
{
    proof {
        lemma_view_items(items@);
    }
    let ghost iv = view_items(items@);
    let ghost hv = strings_view(h@);
    let ghost start = out@;
    let mut i: usize = 0;
    while i < items.len()
        invariant
            ind@ == indent(d),
            iv == view_items(items@),
            hv == strings_view(h@),
            iv.len() == items@.len(),
            forall|j: int| 0 <= j < items@.len() ==> #[trigger] iv[j] == view_value(items@[j]),
            all_objects(iv),
            i <= items@.len(),
            out@ == start + table_rows(iv.take(i as int), hv, d),
        decreases items@.len() - i,
    {
        proof {
            lemma_seq_step(iv, i as int);
        }
        assert(iv[i as int] is Object);
        match &items[i] {
            JsonValue::Object(m) => {
                assert(entries_of(iv[i as int]) == view_entries(m@));
                push_str(out, ind.as_str());
                let row = row_string(m, h);
                push_str(out, row.as_str());
                push_str(out, "\n");
            },
            _ => {},
        }
        assert(out@ =~= start + table_rows(iv.take(i + 1), hv, d));
        i = i + 1;
    }
    assert(iv.take(items@.len() as int) =~= iv);
}

fn primitive_strings(items: &Vec<JsonValue>) -> (r: Vec<String>)
    requires
        all_primitive(view_items(items@)),
    ensures
        strings_view(r@) == primitive_texts(view_items(items@)),
{
    proof {
        lemma_view_items(items@);
    }
    let ghost iv = view_items(items@);
    let mut r: Vec<String> = Vec::new();
    let mut i: usize = 0;
    while i < items.len()
        invariant
            iv == view_items(items@),
            iv.len() == items@.len(),
            forall|j: int| 0 <= j < items@.len() ==> #[trigger] iv[j] == view_value(items@[j]),
            all_primitive(iv),
            i <= items@.len(),
            r@.len() == i,
            forall|j: int| 0 <= j < i ==> (#[trigger] r@[j])@ == primitive_text(iv[j]),
        decreases items@.len() - i,
    {
        assert(is_primitive(iv[i as int]));
        let t = primitive_string(&items[i]);
        r.push(t);
        i = i + 1;
    }
    assert(strings_view(r@) =~= primitive_texts(iv));
    r
}

fn push_bullet_lines(out: &mut String, vals: &Vec<String>, ind: &String, Ghost(d): Ghost<nat>)
    requires
        ind@ == indent(d),
    ensures
        final(out)@ == old(out)@ + bullet_lines(strings_view(vals@), d),
{
    let ghost vv = strings_view(vals@);
    let ghost start = out@;
    let mut i: usize = 0;
    while i < vals.len()
        invariant
            ind@ == indent(d),
            vv == strings_view(vals@),
            i <= vals@.len(),
            out@ == start + bullet_lines(vv.take(i as int), d),
        decreases vals@.len() - i,
    {
        proof {
            lemma_seq_step(vv, i as int);
        }
        push_str(out, ind.as_str());
        push_str(out, "- ");
        push_str(out, vals[i].as_str());
        push_str(out, "\n");
        assert(out@ =~= start + bullet_lines(vv.take(i + 1), d));
        i = i + 1;
    }
    assert(vv.take(vals@.len() as int) =~= vv);
}


fn push_table(out: &mut String, items: &Vec<JsonValue>, h: &Vec<String>, ind: &String, Ghost(d): Ghost<nat>)
    requires
        ind@ == indent(d + 1),
        table_headers(view_items(items@)) == Some(strings_view(h@)),
    ensures
        final(out)@ == old(out)@ + table_block(view_items(items@), strings_view(h@), d),
{
    proof {
        lemma_view_items(items@);
    }
    let ghost start = out@;
    push_str(out, "[");
    push_decimal(out, items.len() as u64);
    push_str(out, "]{");
    push_join(out, h, ",");
    push_str(out, "}:\n");
    push_table_rows(out, items, h, ind, Ghost(d + 1));
    assert(out@ =~= start + table_block(view_items(items@), strings_view(h@), d));
}

fn push_primitive_block(out: &mut String, items: &Vec<JsonValue>, ind: &String, Ghost(d): Ghost<nat>)
    requires
        ind@ == indent(d + 1),
        all_primitive(view_items(items@)),
    ensures
        final(out)@ == old(out)@ + primitive_block(view_items(items@), d),
{
    let ghost start = out@;
    let vals = primitive_strings(items);
    let ghost vv = strings_view(vals@);
    let mut inline = String::new();
    push_str(&mut inline, "[");
    push_join(&mut inline, &vals, ",");
    push_str(&mut inline, "]");
    assert(inline@ =~= "["@ + join(vv, ","@) + "]"@);
    let inline_chars = chars_of(inline.as_str());
    if vals.len() <= 8 && utf8_len_at_most(&inline_chars, 80) {
        push_str(out, ": ");
        push_str(out, inline.as_str());
        push_str(out, "\n");
    } else {
        push_str(out, ":\n");
        push_bullet_lines(out, &vals, ind, Ghost(d + 1));
    }
    assert(out@ =~= start + primitive_block(view_items(items@), d));
}

fn emit_array_x(
    out: &mut String,
    name: &str,
    items: &Vec<JsonValue>,
    ind: &String,
    Ghost(d): Ghost<nat>,
    bullet: bool,
)
    requires
        ind@ == indent(d),
    ensures
        final(out)@ == old(out)@ + emit_array(name@, view_items(items@), d, bullet),
    decreases items, 1nat,
{
    proof {
        lemma_view_items(items@);
    }
    let ghost iv = view_items(items@);
    let ghost start = out@;
    let ghost head = indent(d) + bullet_prefix(bullet) + name@;
    push_str(out, ind.as_str());
    if bullet {
        push_str(out, "- ");
    }
    push_str(out, name);
    assert(out@ =~= start + head);
    if items.len() == 0 {
        push_str(out, "[0]:\n");
        assert(out@ =~= start + emit_array(name@, iv, d, bullet));
        return;
    }
    let ind2 = deeper(ind);
    match table_headers_exec(items) {
        Some(h) => {
            push_table(out, items, &h, &ind2, Ghost(d));
            assert(out@ =~= start + emit_array(name@, iv, d, bullet));
        },
        None => {
            if all_primitive_exec(items) {
                push_primitive_block(out, items, &ind2, Ghost(d));
                assert(out@ =~= start + emit_array(name@, iv, d, bullet));
            } else {
                push_str(out, ":\n");
                let ghost mid = out@;
                let mut i: usize = 0;
                while i < items.len()
                    invariant
                        ind2@ == indent(d + 1),
                        iv == view_items(items@),
                        iv.len() == items@.len(),
                        forall|j: int| 0 <= j < items@.len() ==> #[trigger] iv[j] == view_value(items@[j]),
                        i <= items@.len(),
                        out@ == mid + emit_list_items(iv.take(i as int), d + 1),
                    decreases items@.len() - i,
                {
                    proof {
                        lemma_seq_step(iv, i as int);
                        assert(decreases_to!(*items => items@[i as int]));
                    }
                    emit_list_item_x(out, &items[i], &ind2, Ghost(d + 1));
                    assert(out@ =~= mid + emit_list_items(iv.take(i + 1), d + 1));
                    i = i + 1;
                }
                assert(iv.take(items@.len() as int) =~= iv);
                assert(out@ =~= start + emit_array(name@, iv, d, bullet));
            }
        },
    }
}

fn emit_list_item_x(out: &mut String, v: &JsonValue, ind: &String, Ghost(d): Ghost<nat>)
    requires
        ind@ == indent(d),
    ensures
        final(out)@ == old(out)@ + emit_list_item(v@, d),
    decreases v, 0nat,
{
    let ghost start = out@;
    match v {
        JsonValue::Object(m) => {
            emit_object_item_x(out, m, ind, Ghost(d));
        },
        JsonValue::Array(items) => {
            push_str(out, ind.as_str());
            push_str(out, "-\n");
            let ind2 = deeper(ind);
            emit_array_x(out, "items", items, &ind2, Ghost(d + 1), false);
            assert(out@ =~= start + emit_list_item(v@, d));
        },
        _ => {
            push_str(out, ind.as_str());
            push_str(out, "- ");
            push_primitive(out, v);
            push_str(out, "\n");
            assert(out@ =~= start + emit_list_item(v@, d));
        },
    }
}

fn emit_object_item_x(out: &mut String, m: &Vec<(String, JsonValue)>, ind: &String, Ghost(d): Ghost<nat>)
    requires
        ind@ == indent(d),
    ensures
        final(out)@ == old(out)@ + emit_object_item(view_entries(m@), d),
    decreases m, 1nat,
{
    proof {
        lemma_view_entries(m@);
    }
    let ghost mv = view_entries(m@);
    let ghost start = out@;
    if m.len() == 0 {
        push_str(out, ind.as_str());
        push_str(out, "- {}\n");
        assert(out@ =~= start + emit_object_item(mv, d));
        return;
    }
    proof {
        assert(decreases_to!(*m => m@[0]));
        assert(decreases_to!(m@[0] => m@[0].1));
    }
    emit_bulleted_field_x(out, m[0].0.as_str(), &m[0].1, ind, Ghost(d));
    let ghost first = out@;
    let mut i: usize = 1;
    assert(mv.subrange(1, 1) =~= Seq::<(Seq<char>, Json)>::empty());
    while i < m.len()
        invariant
            ind@ == indent(d),
            mv == view_entries(m@),
            mv.len() == m@.len(),
            forall|q: int| 0 <= q < m@.len() ==> #[trigger] mv[q] == (m@[q].0@, view_value(m@[q].1)),
            1 <= i <= m@.len(),
            out@ == first + emit_item_fields(mv.subrange(1, i as int), d),
        decreases m@.len() - i,
    {
        proof {
            assert(mv.subrange(1, i + 1).drop_last() =~= mv.subrange(1, i as int));
            assert(decreases_to!(*m => m@[i as int]));
            assert(decreases_to!(m@[i as int] => m@[i as int].1));
        }
        emit_item_field_x(out, m[i].0.as_str(), &m[i].1, ind, Ghost(d));
        assert(out@ =~= first + emit_item_fields(mv.subrange(1, i + 1), d));
        i = i + 1;
    }
    assert(mv.subrange(1, mv.len() as int) =~= mv.drop_first());
    assert(out@ =~= start + emit_object_item(mv, d));
}

fn emit_item_field_x(out: &mut String, k: &str, v: &JsonValue, ind: &String, Ghost(d): Ghost<nat>)
    requires
        ind@ == indent(d),
    ensures
        final(out)@ == old(out)@ + emit_item_field(k@, v@, d),
    decreases v, 0nat,
{
    let ghost start = out@;
    let ind1 = deeper(ind);
    match v {
        JsonValue::Object(sub) => {
            push_str(out, ind1.as_str());
            push_str(out, k);
            push_str(out, ":\n");
            let ind2 = deeper(&ind1);
            assert(indent(d + 2) =~= indent(d + 1) + "  "@);
            emit_object_x(out, sub, &ind2, Ghost(d + 2));
            assert(out@ =~= start + emit_item_field(k@, v@, d));
        },
        JsonValue::Array(items) => {
            emit_array_x(out, k, items, &ind1, Ghost(d + 1), false);
        },
        _ => {
            push_str(out, ind1.as_str());
            push_str(out, k);
            push_str(out, ": ");
            push_primitive(out, v);
            push_str(out, "\n");
            assert(out@ =~= start + emit_item_field(k@, v@, d));
        },
    }
}

fn emit_bulleted_field_x(out: &mut String, k: &str, v: &JsonValue, ind: &String, Ghost(d): Ghost<nat>)
    requires
        ind@ == indent(d),
    ensures
        final(out)@ == old(out)@ + emit_bulleted_field(k@, v@, d),
    decreases v, 0nat,
{
    let ghost start = out@;
    match v {
        JsonValue::Object(sub) => {
            push_str(out, ind.as_str());
            push_str(out, "- ");
            push_str(out, k);
            push_str(out, ":\n");
            let ind1 = deeper(ind);
            let ind2 = deeper(&ind1);
            assert(indent(d + 2) =~= indent(d + 1) + "  "@);
            emit_object_x(out, sub, &ind2, Ghost(d + 2));
            assert(out@ =~= start + emit_bulleted_field(k@, v@, d));
        },
        JsonValue::Array(items) => {
            emit_array_x(out, k, items, ind, Ghost(d), true);
        },
        _ => {
            push_str(out, ind.as_str());
            push_str(out, "- ");
            push_str(out, k);
            push_str(out, ": ");
            push_primitive(out, v);
            push_str(out, "\n");
            assert(out@ =~= start + emit_bulleted_field(k@, v@, d));
        },
    }
}

fn emit_object_x(out: &mut String, m: &Vec<(String, JsonValue)>, ind: &String, Ghost(d): Ghost<nat>)
    requires
        ind@ == indent(d),
    ensures
        final(out)@ == old(out)@ + emit_object(view_entries(m@), d),
    decreases m, 0nat,
{
    proof {
        lemma_view_entries(m@);
    }
    let ghost mv = view_entries(m@);
    let ghost start = out@;
    let mut i: usize = 0;
    while i < m.len()
        invariant
            ind@ == indent(d),
            mv == view_entries(m@),
            mv.len() == m@.len(),
            forall|q: int| 0 <= q < m@.len() ==> #[trigger] mv[q] == (m@[q].0@, view_value(m@[q].1)),
            i <= m@.len(),
            out@ == start + emit_object(mv.take(i as int), d),
        decreases m@.len() - i,
    {
        proof {
            lemma_seq_step(mv, i as int);
            assert(decreases_to!(*m => m@[i as int]));
            assert(decreases_to!(m@[i as int] => m@[i as int].1));
        }
        emit_field_x(out, m[i].0.as_str(), &m[i].1, ind, Ghost(d));
        assert(out@ =~= start + emit_object(mv.take(i + 1), d));
        i = i + 1;
    }
    assert(mv.take(m@.len() as int) =~= mv);
}

fn emit_field_x(out: &mut String, k: &str, v: &JsonValue, ind: &String, Ghost(d): Ghost<nat>)
    requires
        ind@ == indent(d),
    ensures
        final(out)@ == old(out)@ + emit_field(k@, v@, d),
    decreases v, 0nat,
{
    let ghost start = out@;
    match v {
        JsonValue::Object(sub) => {
            push_str(out, ind.as_str());
            push_str(out, k);
            push_str(out, ":\n");
            let ind1 = deeper(ind);
            emit_object_x(out, sub, &ind1, Ghost(d + 1));
            assert(out@ =~= start + emit_field(k@, v@, d));
        },
        JsonValue::Array(items) => {
            emit_array_x(out, k, items, ind, Ghost(d), false);
        },
        _ => {
            push_str(out, ind.as_str());
            push_str(out, k);
            push_str(out, ": ");
            push_primitive(out, v);
            push_str(out, "\n");
            assert(out@ =~= start + emit_field(k@, v@, d));
        },
    }
}


fn emit_value_x(out: &mut String, v: &JsonValue)
    ensures
        final(out)@ == old(out)@ + emit_value(v@, 0),
{
    let ghost start = out@;
    let ind = String::new();
    assert(ind@ =~= indent(0));
    match v {
        JsonValue::Object(m) => emit_object_x(out, m, &ind, Ghost(0)),
        JsonValue::Array(items) => emit_array_x(out, "items", items, &ind, Ghost(0), false),
        _ => {
            push_primitive(out, v);
            push_str(out, "\n");
            assert(out@ =~= start + emit_value(v@, 0));
        },
    }
}

/// The TOON rendering of a value, with trailing whitespace removed.
pub fn to_toon(v: &JsonValue) -> (r: String)
    ensures
        r@ == toon_text(v@),
{
    let mut out = String::new();
    emit_value_x(&mut out, v);
    assert(out@ =~= emit_value(v@, 0));
    let cs = chars_of(out.as_str());
    let trimmed = trim_end_chars(&cs);
    string_from_chars(&trimmed)
}

/// An array response is put under the root name before rendering, so that
/// the rendering starts with that name.
pub open spec fn wrap_root(root: Seq<char>, f: Json) -> Json {
    if f is Array {
        Json::Object(seq![(root, f)])
    } else {
        f
    }
}

/// The TOON text of an LSP response.
pub open spec fn toon_response(root: Seq<char>, v: Json) -> Seq<char> {
    toon_text(wrap_root(root, flatten(v)))
}

/// The text of an LSP response: pretty JSON, or TOON of the flattened value
/// with an array put under `root_name`.
pub fn format_response(root_name: &str, value: &JsonValue, use_toon: bool) -> (r: String)
    ensures
        r@ == (if use_toon { toon_response(root_name@, value@) } else { pretty_json(value@) }),
{
    if !use_toon {
        return pretty_json_text(value);
    }
    let flattened = flatten_lsp(value);
    let wrapped = match flattened {
        JsonValue::Array(items) => {
            let mut obj: Vec<(String, JsonValue)> = Vec::new();
            obj.push((root_name.to_string(), JsonValue::Array(items)));
            let w = JsonValue::Object(obj);
            proof {
                lemma_view_entries(obj@);
            }
            assert(view_entries(obj@) =~= seq![(root_name@, flatten(value@))]);
            w
        },
        other => other,
    };
    to_toon(&wrapped)
}


/// Filling in missing keys keeps every value the object had, gives `null`
/// under each listed key it lacked, and adds nothing else.
pub proof fn law_fill_missing(m: Entries, ks: Seq<Seq<char>>, q: Seq<char>)
    requires
        sorted_keys(m),
    ensures
        obj_get(fill_missing(m, ks), q) == (match obj_get(m, q) {
            Some(x) => Some(x),
            None => if ks.contains(q) {
                Some(Json::Null)
            } else {
                None
            },
        }),
    decreases ks.len(),
{
    if ks.len() > 0 {
        let d = ks.drop_last();
        law_fill_missing(m, d, q);
        law_fill_missing(m, d, ks.last());
        lemma_fill_missing_sorted(m, d);
        let a = fill_missing(m, d);
        if obj_get(a, ks.last()) is None {
            crate::json::lemma_obj_insert_get(a, ks.last(), Json::Null, q);
        }
        assert(ks.contains(q) <==> (d.contains(q) || ks.last() == q)) by {
            if ks.contains(q) {
                let i = choose|i: int| 0 <= i < ks.len() && ks[i] == q;
                if i < ks.len() - 1 {
                    assert(d[i] == q);
                }
            }
            if d.contains(q) {
                let i = choose|i: int| 0 <= i < d.len() && d[i] == q;
                assert(ks[i] == q);
            }
            if ks.last() == q {
                assert(ks[ks.len() - 1] == q);
            }
        }
    }
}

/// In an array of LSP objects every object ends with every key that any of
/// them has: the values an object had are kept, the keys it lacked hold
/// `null`, and no other key appears.
pub proof fn law_normalized_objects_share_keys(items: Seq<Json>, i: int, q: Seq<char>)
    requires
        items.len() > 0,
        all_objects(items),
        lsp_detected(items),
        forall|j: int| 0 <= j < items.len() ==> sorted_keys(#[trigger] entries_of(items[j])),
        0 <= i < items.len(),
    ensures
        normalize_array_keys(items)[i] is Object,
        obj_get(entries_of(normalize_array_keys(items)[i]), q) == (match obj_get(entries_of(items[i]), q) {
            Some(x) => Some(x),
            None => if all_keys(items).contains(q) {
                Some(Json::Null)
            } else {
                None
            },
        }),
{
    assert(sorted_keys(entries_of(items[i])));
    law_fill_missing(entries_of(items[i]), all_keys(items), q);
}

proof fn lemma_escape_all_plain(s: Seq<char>)
    ensures
        forall|i: int| 0 <= i < escape_all(s).len() ==> #[trigger] escape_all(s)[i] != '\n'
            && escape_all(s)[i] != '\r' && escape_all(s)[i] != '\t',
    decreases s.len(),
{
    if s.len() > 0 {
        lemma_escape_all_plain(s.drop_last());
        let a = escape_all(s.drop_last());
        let e = escape_char(s.last());
        assert forall|i: int| 0 <= i < escape_all(s).len() implies #[trigger] escape_all(s)[i] != '\n'
            && escape_all(s)[i] != '\r' && escape_all(s)[i] != '\t' by {
            if i >= a.len() {
                assert(escape_all(s)[i] == e[i - a.len()]);
            } else {
                assert(escape_all(s)[i] == a[i]);
            }
        }
    }
}

/// An array of objects that all have the same keys, each holding only
/// primitive values, is written as a table: its length and the keys in the
/// header, then one row per object.
pub proof fn law_uniform_objects_make_a_table(name: Seq<char>, items: Seq<Json>, depth: nat, bullet: bool)
    requires
        items.len() > 0,
        all_objects(items),
        forall|i: int| 0 <= i < items.len() ==> obj_keys(entries_of(#[trigger] items[i])) == obj_keys(
            entries_of(items[0]),
        ),
        forall|i: int, j: int| 0 <= i < items.len() && 0 <= j < entries_of(items[i]).len() ==> is_primitive(
            #[trigger] entries_of(items[i])[j].1,
        ),
    ensures
        emit_array(name, items, depth, bullet) == indent(depth) + bullet_prefix(bullet) + name + "["@ + decimal(
            items.len(),
        ) + "]{"@ + join(obj_keys(entries_of(items[0])), ","@) + "}:\n"@ + table_rows(
            items,
            obj_keys(entries_of(items[0])),
            depth + 1,
        ),
{
    assert(table_headers(items) == Some(obj_keys(entries_of(items[0]))));
}

proof fn lemma_contains_itself(p: Seq<char>)
    ensures
        crate::text::contains(p, p),
{
    assert(p.subrange(0, p.len() as int) =~= p);
    assert(crate::text::occurs_at(p, p, 0));
}

proof fn lemma_contains_in_left(a: Seq<char>, b: Seq<char>, p: Seq<char>)
    requires
        crate::text::contains(a, p),
    ensures
        crate::text::contains(a + b, p),
{
    let i = choose|i: int| crate::text::occurs_at(a, p, i);
    assert((a + b).subrange(i, i + p.len()) =~= a.subrange(i, i + p.len()));
    assert(crate::text::occurs_at(a + b, p, i));
}

proof fn lemma_contains_in_right(a: Seq<char>, b: Seq<char>, p: Seq<char>)
    requires
        crate::text::contains(b, p),
    ensures
        crate::text::contains(a + b, p),
{
    let i = choose|i: int| crate::text::occurs_at(b, p, i);
    assert((a + b).subrange(a.len() + i, a.len() + i + p.len()) =~= b.subrange(i, i + p.len()));
    assert(crate::text::occurs_at(a + b, p, a.len() + i));
}

proof fn lemma_item_fields_hold_each_field(m: Entries, depth: nat, j: int)
    requires
        0 <= j < m.len(),
    ensures
        crate::text::contains(emit_item_fields(m, depth), emit_item_field(m[j].0, m[j].1, depth)),
    decreases m.len(),
{
    let rest = m.drop_last();
    if j == m.len() - 1 {
        lemma_contains_itself(emit_item_field(m[j].0, m[j].1, depth));
        lemma_contains_in_right(emit_item_fields(rest, depth), emit_item_field(m[j].0, m[j].1, depth),
            emit_item_field(m[j].0, m[j].1, depth));
    } else {
        lemma_item_fields_hold_each_field(rest, depth, j);
        assert(rest[j] == m[j]);
        lemma_contains_in_left(emit_item_fields(rest, depth), emit_item_field(m.last().0, m.last().1, depth),
            emit_item_field(m[j].0, m[j].1, depth));
    }
}

/// An object that is an item of a list shows every one of its fields: the
/// first after the item's dash, each later one on its own lines one level
/// deeper, a nested object under its key, an array under its key with its
/// count and its rows, a primitive as `key: value`.
pub proof fn law_list_item_shows_every_field(m: Entries, depth: nat, i: int)
    requires
        0 <= i < m.len(),
    ensures
        i == 0 ==> crate::text::contains(
            emit_list_item(Json::Object(m), depth),
            match m[0].1 {
                Json::Object(sub) => indent(depth) + "- "@ + m[0].0 + ":\n"@ + emit_object(sub, depth + 2),
                Json::Array(items) => emit_array(m[0].0, items, depth, true),
                _ => indent(depth) + "- "@ + m[0].0 + ": "@ + primitive_text(m[0].1) + "\n"@,
            },
        ),
        i > 0 ==> crate::text::contains(
            emit_list_item(Json::Object(m), depth),
            match m[i].1 {
                Json::Object(sub) => indent(depth + 1) + m[i].0 + ":\n"@ + emit_object(sub, depth + 2),
                Json::Array(items) => emit_array(m[i].0, items, depth + 1, false),
                _ => indent(depth + 1) + m[i].0 + ": "@ + primitive_text(m[i].1) + "\n"@,
            },
        ),
{
    let first = emit_bulleted_field(m[0].0, m[0].1, depth);
    let rest = emit_item_fields(m.drop_first(), depth);
    assert(emit_list_item(Json::Object(m), depth) == emit_object_item(m, depth));
    assert(emit_object_item(m, depth) == first + rest);
    if i == 0 {
        lemma_contains_itself(first);
        lemma_contains_in_left(first, rest, first);
    } else {
        lemma_item_fields_hold_each_field(m.drop_first(), depth, i - 1);
        assert(m.drop_first()[i - 1] == m[i]);
        lemma_contains_in_right(first, rest, emit_item_field(m[i].0, m[i].1, depth));
    }
}

/// A string as TOON writes it stays on one line: it holds no line feed,
/// carriage return or tab, escaped or not.
pub proof fn law_quoted_text_is_one_line(s: Seq<char>)
    ensures
        forall|i: int| 0 <= i < quote_if_needed(s).len() ==> #[trigger] quote_if_needed(s)[i] != '\n'
            && quote_if_needed(s)[i] != '\r' && quote_if_needed(s)[i] != '\t',
{
    if needs_quotes(s) {
        lemma_escape_all_plain(s);
        let e = escape_all(s);
        assert forall|i: int| 0 <= i < quote_if_needed(s).len() implies #[trigger] quote_if_needed(s)[i] != '\n'
            && quote_if_needed(s)[i] != '\r' && quote_if_needed(s)[i] != '\t' by {
            if 0 < i < e.len() + 1 {
                assert(quote_if_needed(s)[i] == e[i - 1]);
            }
        }
    } else {
        assert forall|i: int| 0 <= i < s.len() implies s[i] != '\n' && s[i] != '\r' && s[i] != '\t' by {
            if s[i] == '\n' || s[i] == '\r' || s[i] == '\t' {
                assert(is_delimiter(s[i]));
            }
        }
    }
}

} // verus!
