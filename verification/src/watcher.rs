//! Changes of source files under a project, as the language server is told
//! of them.
use vstd::prelude::*;

use crate::json::{empty_object, json_u64_value, with_entry, Json, JsonValue};
use crate::json::{insert_each, object_of};
use crate::requests::unsigned;
use crate::text::{ascii_lower, ascii_lower_seq, chars_of, push_decimal, push_str, to_ascii_lower, decimal};
use crate::toon::{join, push_join, strings_view};
use crate::uri::{file_url, url_of_file};

verus! {

/// A file that changed, and whether it still exists.
pub struct FileEvent {
    pub path: String,
    pub exists: bool,
}

/// The last component of a path, as `Path::file_name` gives it.
pub uninterp spec fn file_name(path: Seq<char>) -> Option<Seq<char>>;

/// Whether two paths are equal component by component (`Path`'s `==`).
pub uninterp spec fn paths_equal(a: Seq<char>, b: Seq<char>) -> bool;

/// The path relative to `base`, as `Path::strip_prefix` gives it, where
/// `base` is a prefix of it component by component.
pub uninterp spec fn relative_path(path: Seq<char>, base: Seq<char>) -> Option<Seq<char>>;

/// Calls `Path::file_name`: the result is `file_name` of the path.
#[verifier::external_body]
pub(crate) fn path_file_name(path: &str) -> (r: Option<String>)
    ensures
        match r {
            Some(n) => file_name(path@) == Some(n@),
            None => file_name(path@) is None,
        },
{
    std::path::Path::new(path).file_name().map(|n| n.to_string_lossy().to_string())
}

/// Calls `Path`'s `==`: the result is `paths_equal` of the two paths, and
/// the same text is the same path.
#[verifier::external_body]
fn same_path(a: &str, b: &str) -> (r: bool)
    ensures
        r == paths_equal(a@, b@),
        a@ == b@ ==> r,
{
    std::path::Path::new(a) == std::path::Path::new(b)
}

/// Calls `Path::strip_prefix`: the result is `relative_path` of the paths.
#[verifier::external_body]
pub(crate) fn strip_path_prefix(path: &str, base: &str) -> (r: Option<String>)
    ensures
        match r {
            Some(p) => relative_path(path@, base@) == Some(p@),
            None => relative_path(path@, base@) is None,
        },
{
    match std::path::Path::new(path).strip_prefix(base) {
        Ok(p) => Some(p.display().to_string()),
        Err(_) => None,
    }
}

/// The last position of `c` in `s`.
pub open spec fn last_index(s: Seq<char>, c: char) -> Option<int>
    decreases s.len(),
{
    if s.len() == 0 {
        None
    } else if s.last() == c {
        Some(s.len() - 1)
    } else {
        last_index(s.drop_last(), c)
    }
}

/// The extension of a file name (`Path::extension`): what follows its last
/// dot, where that dot is not its first character; `..` has none.
pub open spec fn name_extension(name: Seq<char>) -> Option<Seq<char>> {
    if name == ".."@ {
        None
    } else {
        match last_index(name, '.') {
            Some(i) => if i > 0 {
                Some(name.skip(i + 1))
            } else {
                None
            },
            None => None,
        }
    }
}

pub open spec fn path_extension(path: Seq<char>) -> Option<Seq<char>> {
    match file_name(path) {
        Some(n) => name_extension(n),
        None => None,
    }
}

/// Source files of 1C: `.bsl` and `.os`, in any case.
pub open spec fn is_source_file(path: Seq<char>) -> bool {
    match path_extension(path) {
        Some(e) => ascii_lower_seq(e) == "bsl"@ || ascii_lower_seq(e) == "os"@,
        None => false,
    }
}

fn last_dot(s: &Vec<char>) -> (r: Option<usize>)
    ensures
        match r {
            Some(i) => last_index(s@, '.') == Some(i as int) && i < s@.len(),
            None => last_index(s@, '.') is None,
        },
{
    let mut n = s.len();
    assert(s@.take(n as int) =~= s@);
    while n > 0
        invariant
            n <= s@.len(),
            last_index(s@.take(n as int), '.') == last_index(s@, '.'),
        decreases n,
    {
        assert(s@.take(n as int).last() == s@[n - 1]);
        assert(s@.take(n as int).drop_last() =~= s@.take(n - 1));
        if s[n - 1] == '.' {
            return Some(n - 1);
        }
        n = n - 1;
    }
    None
}

pub(crate) fn extension_text(name: &Vec<char>) -> (r: Option<Vec<char>>)
    ensures
        match r {
            Some(e) => name_extension(name@) == Some(e@) && e@.len() + 2 <= name@.len(),
            None => name_extension(name@) is None,
        },
{
    proof {
        reveal_strlit("..");
    }
    if name.len() == 2 && name[0] == '.' && name[1] == '.' {
        assert(name@ =~= ".."@);
        return None;
    }
    assert(name@ != ".."@);
    match last_dot(name) {
        Some(i) => {
            if i == 0 {
                return None;
            }
            let mut e: Vec<char> = Vec::new();
            let mut k = i + 1;
            while k < name.len()
                invariant
                    i < k <= name@.len(),
                    e@ == name@.subrange(i + 1, k as int),
                decreases name@.len() - k,
            {
                e.push(name[k]);
                k = k + 1;
                assert(e@ =~= name@.subrange(i + 1, k as int));
            }
            assert(e@ =~= name@.skip(i + 1));
            Some(e)
        },
        None => None,
    }
}

fn lowered_is(e: &Vec<char>, word: &str) -> (r: bool)
    ensures
        r == (ascii_lower_seq(e@) == word@),
{
    let w = chars_of(word);
    if e.len() != w.len() {
        assert(ascii_lower_seq(e@).len() != word@.len());
        return false;
    }
    let mut i: usize = 0;
    while i < e.len()
        invariant
            e@.len() == w@.len(),
            w@ == word@,
            i <= e@.len(),
            forall|j: int| 0 <= j < i ==> ascii_lower(e@[j]) == w@[j],
        decreases e@.len() - i,
    {
        if to_ascii_lower(e[i]) != w[i] {
            assert(ascii_lower_seq(e@)[i as int] != word@[i as int]);
            return false;
        }
        i = i + 1;
    }
    assert(ascii_lower_seq(e@) =~= word@);
    true
}

pub fn is_bsl_file(path: &str) -> (r: bool)
    ensures
        r == is_source_file(path@),
{
    let name = match path_file_name(path) {
        Some(n) => n,
        None => return false,
    };
    match extension_text(&chars_of(name.as_str())) {
        Some(e) => lowered_is(&e, "bsl") || lowered_is(&e, "os"),
        None => false,
    }
}

pub open spec fn seen_before(seen: Seq<Seq<char>>, p: Seq<char>) -> bool {
    exists|i: int| 0 <= i < seen.len() && (#[trigger] seen[i] == p || paths_equal(seen[i], p))
}

/// The change the server is told of: the document's URI and its type,
/// 2 (changed) or 3 (deleted).
pub open spec fn change_model(uri: Seq<char>, exists: bool) -> Json {
    object_of(seq![("uri"@, Json::Str(uri)), ("type"@, unsigned(if exists { 2 } else { 3 }))])
}

/// The source files among the events, each path once (its first event),
/// with what was seen so far.
pub open spec fn watch_fold(events: Seq<(Seq<char>, bool)>) -> (Seq<Seq<char>>, Seq<Json>)
    decreases events.len(),
{
    if events.len() == 0 {
        (Seq::empty(), Seq::empty())
    } else {
        let (seen, out) = watch_fold(events.drop_last());
        let (p, exists) = events.last();
        if !is_source_file(p) || seen_before(seen, p) {
            (seen, out)
        } else {
            match file_url(p) {
                Some(u) => (seen.push(p), out.push(change_model(u, exists))),
                None => (seen.push(p), out),
            }
        }
    }
}

/// A batch of events tells the server of each source file once: the paths
/// it keeps are source files, no two of them are the same text or the same
/// path, and there
/// are no more changes than paths nor more paths than events.
pub proof fn law_each_file_changes_once(events: Seq<(Seq<char>, bool)>)
    ensures
        forall|i: int, j: int| 0 <= i < j < watch_fold(events).0.len() ==> #[trigger] watch_fold(events).0[i]
            != #[trigger] watch_fold(events).0[j] && !paths_equal(watch_fold(events).0[i], watch_fold(events).0[j]),
        forall|i: int| 0 <= i < watch_fold(events).0.len() ==> is_source_file(#[trigger] watch_fold(events).0[i]),
        watch_fold(events).1.len() <= watch_fold(events).0.len() <= events.len(),
    decreases events.len(),
{
    if events.len() > 0 {
        let rest = events.drop_last();
        law_each_file_changes_once(rest);
        let (seen, out) = watch_fold(rest);
        let (p, exists) = events.last();
        if !(!is_source_file(p) || seen_before(seen, p)) {
            let s2 = watch_fold(events).0;
            assert(s2 == seen.push(p));
            assert forall|i: int, j: int| 0 <= i < j < s2.len() implies #[trigger] s2[i] != #[trigger] s2[j]
                && !paths_equal(s2[i], s2[j]) by {
                if j == seen.len() {
                    assert(s2[i] == seen[i]);
                    assert(!(seen[i] == p || paths_equal(seen[i], p)));
                } else {
                    assert(s2[i] == seen[i] && s2[j] == seen[j]);
                }
            }
            assert forall|i: int| 0 <= i < s2.len() implies is_source_file(#[trigger] s2[i]) by {
                if i < seen.len() {
                    assert(s2[i] == seen[i]);
                }
            }
        }
    }
}

pub open spec fn events_view(events: Seq<FileEvent>) -> Seq<(Seq<char>, bool)> {
    Seq::new(events.len(), |i: int| (events[i].path@, events[i].exists))
}

fn seen_contains(seen: &Vec<String>, p: &str) -> (r: bool)
    ensures
        r == seen_before(strings_view(seen@), p@),
{
    let mut i: usize = 0;
    while i < seen.len()
        invariant
            i <= seen@.len(),
            forall|j: int| 0 <= j < i ==> !(#[trigger] strings_view(seen@)[j] == p@ || paths_equal(
                strings_view(seen@)[j],
                p@,
            )),
        decreases seen@.len() - i,
    {
        if same_path(seen[i].as_str(), p) {
            assert(paths_equal(strings_view(seen@)[i as int], p@));
            return true;
        }
        assert(strings_view(seen@)[i as int] == seen@[i as int]@);
        i = i + 1;
    }
    false
}

fn change_value(uri: &str, exists: bool) -> (r: JsonValue)
    ensures
        r@ == change_model(uri@, exists),
{
    let t: u64 = if exists { 2 } else { 3 };
    let m = with_entry(empty_object(), "uri", JsonValue::String(uri.to_string()));
    let m = with_entry(m, "type", json_u64_value(t));
    proof {
        reveal_with_fuel(insert_each, 3);
    }
    JsonValue::Object(m)
}

/// The `workspace/didChangeWatchedFiles` changes for a batch of events:
/// source files only, each path once, those without a file URL left out.
pub fn map_events(events: &Vec<FileEvent>) -> (r: Vec<JsonValue>)
    ensures
        crate::json::view_items(r@) == watch_fold(events_view(events@)).1,
{
    let ghost ev = events_view(events@);
    let mut seen: Vec<String> = Vec::new();
    let mut changes: Vec<JsonValue> = Vec::new();
    let mut i: usize = 0;
    proof {
        crate::json::lemma_view_items(changes@);
        assert(ev.take(0) =~= Seq::<(Seq<char>, bool)>::empty());
    }
    while i < events.len()
        invariant
            ev == events_view(events@),
            i <= events@.len(),
            watch_fold(ev.take(i as int)) == (strings_view(seen@), crate::json::view_items(changes@)),
        decreases events@.len() - i,
    {
        proof {
            assert(ev.take(i + 1).drop_last() =~= ev.take(i as int));
            assert(ev.take(i + 1).last() == ev[i as int]);
        }
        let e = &events[i];
        if is_bsl_file(e.path.as_str()) && !seen_contains(&seen, e.path.as_str()) {
            let ghost sb = seen@;
            seen.push(e.path.clone());
            assert(strings_view(seen@) =~= strings_view(sb).push(e.path@));
            match url_of_file(e.path.as_str()) {
                Some(u) => {
                    let ghost cb = changes@;
                    changes.push(change_value(u.as_str(), e.exists));
                    proof {
                        crate::json::lemma_view_items(changes@);
                        crate::json::lemma_view_items(cb);
                        assert(crate::json::view_items(changes@) =~= crate::json::view_items(cb).push(
                            change_model(u@, e.exists),
                        ));
                    }
                },
                None => {},
            }
        }
        i = i + 1;
    }
    assert(ev.take(events@.len() as int) =~= ev);
    changes
}

/// The parts of the summary: each source file once, relative to the root
/// where it lies under it, with whether it changed or was deleted.
pub open spec fn summary_fold(events: Seq<(Seq<char>, bool)>, root: Seq<char>) -> (Seq<Seq<char>>, Seq<Seq<char>>)
    decreases events.len(),
{
    if events.len() == 0 {
        (Seq::empty(), Seq::empty())
    } else {
        let (seen, parts) = summary_fold(events.drop_last(), root);
        let (p, exists) = events.last();
        if !is_source_file(p) || seen_before(seen, p) {
            (seen, parts)
        } else {
            let rel = match relative_path(p, root) {
                Some(r) => r,
                None => p,
            };
            let label = if exists { "changed"@ } else { "deleted"@ };
            (seen.push(p), parts.push(rel + " ("@ + label + ")"@))
        }
    }
}

/// The summary written to the log: up to five parts, then how many more.
pub open spec fn change_summary(events: Seq<(Seq<char>, bool)>, root: Seq<char>) -> Seq<char> {
    let parts = summary_fold(events, root).1;
    if parts.len() <= 5 {
        join(parts, ", "@)
    } else {
        join(parts.take(5), ", "@) + ", ... и ещё "@ + decimal((parts.len() - 5) as nat)
    }
}

pub fn build_change_summary(events: &Vec<FileEvent>, root: &str) -> (r: String)
    ensures
        r@ == change_summary(events_view(events@), root@),
{
    let ghost ev = events_view(events@);
    let mut seen: Vec<String> = Vec::new();
    let mut parts: Vec<String> = Vec::new();
    let mut i: usize = 0;
    assert(ev.take(0) =~= Seq::<(Seq<char>, bool)>::empty());
    while i < events.len()
        invariant
            ev == events_view(events@),
            i <= events@.len(),
            parts@.len() <= i,
            summary_fold(ev.take(i as int), root@) == (strings_view(seen@), strings_view(parts@)),
        decreases events@.len() - i,
    {
        proof {
            assert(ev.take(i + 1).drop_last() =~= ev.take(i as int));
            assert(ev.take(i + 1).last() == ev[i as int]);
        }
        let e = &events[i];
        if is_bsl_file(e.path.as_str()) && !seen_contains(&seen, e.path.as_str()) {
            let ghost sb = seen@;
            let ghost pb = parts@;
            seen.push(e.path.clone());
            let mut part = match strip_path_prefix(e.path.as_str(), root) {
                Some(r) => r,
                None => e.path.clone(),
            };
            push_str(&mut part, " (");
            push_str(&mut part, if e.exists { "changed" } else { "deleted" });
            push_str(&mut part, ")");
            parts.push(part);
            assert(strings_view(seen@) =~= strings_view(sb).push(e.path@));
            assert(strings_view(parts@) =~= strings_view(pb).push(parts@.last()@));
        }
        i = i + 1;
    }
    assert(ev.take(events@.len() as int) =~= ev);
    let mut out = String::new();
    if parts.len() <= 5 {
        push_join(&mut out, &parts, ", ");
    } else {
        let mut first: Vec<String> = Vec::new();
        let mut k: usize = 0;
        while k < 5
            invariant
                k <= 5,
                parts@.len() > 5,
                first@.len() == k,
                forall|j: int| 0 <= j < k ==> #[trigger] first@[j] == parts@[j],
            decreases 5 - k,
        {
            first.push(parts[k].clone());
            k = k + 1;
        }
        assert(strings_view(first@) =~= strings_view(parts@).take(5));
        push_join(&mut out, &first, ", ");
        push_str(&mut out, ", ... и ещё ");
        push_decimal(&mut out, (parts.len() - 5) as u64);
    }
    out
}

} // verus!
