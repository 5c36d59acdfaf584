//! Browsing directories to pick a project's root or the server's jar.
use vstd::prelude::*;

use crate::json::{compare_keys, key_lt, lemma_key_lt_irreflexive, lemma_key_lt_total, lemma_key_lt_transitive};
use crate::paths::{parent_path, path_parent};
use crate::project::{clean_path, without_win_prefix};
use crate::text::{ascii_lower, ascii_lower_seq, chars_of, to_ascii_lower};
use crate::watcher::{extension_text, file_name, name_extension, path_extension, path_file_name};

verus! {

/// What to list: a directory (the home directory where none is given),
/// whether files are shown besides directories, and the extension the
/// files must have.
pub struct BrowseRequest {
    pub path: Option<String>,
    pub show_files: bool,
    pub extension: Option<String>,
}

/// One entry of a listed directory.
pub struct BrowseEntry {
    pub name: String,
    pub is_dir: bool,
}

/// A listed directory: where it is, its parent, and its entries.
pub struct BrowseResponse {
    pub current: String,
    pub parent: Option<String>,
    pub entries: Vec<BrowseEntry>,
}

/// The path to list: the one asked for without the extended-length
/// prefix, or the home directory where none or an empty one is asked for.
pub open spec fn start_path(path: Option<Seq<char>>, home: Seq<char>) -> Seq<char> {
    match path {
        Some(p) => if p.len() > 0 {
            without_win_prefix(p)
        } else {
            home
        },
        None => home,
    }
}

pub fn browse_start(path: Option<&str>, home: &str) -> (r: String)
    ensures
        r@ == start_path(
            match path {
                Some(p) => Some(p@),
                None => None,
            },
            home@,
        ),
{
    match path {
        Some(p) => {
            if chars_of(p).len() > 0 {
                clean_path(p)
            } else {
                home.to_string()
            }
        },
        None => home.to_string(),
    }
}

/// Whether two texts are equal when ASCII letters are compared without case
/// (`str::eq_ignore_ascii_case`).
pub open spec fn eq_ignore_ascii_case(a: Seq<char>, b: Seq<char>) -> bool {
    ascii_lower_seq(a) == ascii_lower_seq(b)
}

fn eq_ignore_case_exec(a: &Vec<char>, b: &Vec<char>) -> (r: bool)
    ensures
        r == eq_ignore_ascii_case(a@, b@),
{
    if a.len() != b.len() {
        assert(ascii_lower_seq(a@).len() != ascii_lower_seq(b@).len());
        return false;
    }
    let mut i: usize = 0;
    while i < a.len()
        invariant
            a@.len() == b@.len(),
            i <= a@.len(),
            forall|j: int| 0 <= j < i ==> ascii_lower(a@[j]) == ascii_lower(b@[j]),
        decreases a@.len() - i,
    {
        if to_ascii_lower(a[i]) != to_ascii_lower(b[i]) {
            assert(ascii_lower_seq(a@)[i as int] != ascii_lower_seq(b@)[i as int]);
            return false;
        }
        i = i + 1;
    }
    assert(ascii_lower_seq(a@) =~= ascii_lower_seq(b@));
    true
}

/// Hidden entries are left out; files only where asked for, and then only
/// with the extension asked for, if any (compared without ASCII case; a file
/// without extension has the empty one).
pub open spec fn shows_entry(name: Seq<char>, is_dir: bool, show_files: bool, extension: Option<Seq<char>>) -> bool {
    &&& !(name.len() > 0 && name[0] == '.')
    &&& (is_dir || show_files)
    &&& (is_dir || match extension {
        Some(e) => eq_ignore_ascii_case(
            match path_extension(name) {
                Some(x) => x,
                None => Seq::empty(),
            },
            e,
        ),
        None => true,
    })
}

pub fn shows_entry_exec(name: &str, is_dir: bool, show_files: bool, extension: Option<&str>) -> (r: bool)
    ensures
        r == shows_entry(
            name@,
            is_dir,
            show_files,
            match extension {
                Some(e) => Some(e@),
                None => None,
            },
        ),
{
    let cs = chars_of(name);
    if cs.len() > 0 && cs[0] == '.' {
        return false;
    }
    if !is_dir && !show_files {
        return false;
    }
    if is_dir {
        return true;
    }
    match extension {
        None => true,
        Some(e) => {
            let file_ext: Vec<char> = match path_file_name(name) {
                Some(n) => match extension_text(&chars_of(n.as_str())) {
                    Some(x) => x,
                    None => Vec::new(),
                },
                None => Vec::new(),
            };
            proof {
                assert(file_ext@ == (match path_extension(name@) {
                    Some(x) => x,
                    None => Seq::<char>::empty(),
                }));
            }
            eq_ignore_case_exec(&file_ext, &chars_of(e))
        },
    }
}

/// The text lower-cased as `str::to_lowercase` does (Unicode case mapping).
pub uninterp spec fn lowercase(s: Seq<char>) -> Seq<char>;

/// Calls `str::to_lowercase`: the result is `lowercase` of the text.
#[verifier::external_body]
fn to_lowercase_text(s: &str) -> (r: String)
    ensures
        r@ == lowercase(s@),
{
    s.to_lowercase()
}

/// Directories come before files; within each, names by their lower-cased
/// text.
pub open spec fn entry_before(a: (bool, Seq<char>), b: (bool, Seq<char>)) -> bool {
    (a.0 && !b.0) || (a.0 == b.0 && key_lt(a.1, b.1))
}

/// The sort is stable: entries that neither comes before keep their order.
pub open spec fn listed_before(keys: Seq<(bool, Seq<char>)>, i: int, j: int) -> bool {
    entry_before(keys[i], keys[j]) || (keys[i] == keys[j] && i < j)
}

pub open spec fn is_listing_order(keys: Seq<(bool, Seq<char>)>, order: Seq<int>) -> bool {
    &&& order.len() == keys.len()
    &&& forall|q: int| 0 <= q < order.len() ==> 0 <= #[trigger] order[q] < keys.len()
    &&& forall|q: int, t: int| 0 <= q < t < order.len() ==> listed_before(keys, #[trigger] order[q], #[trigger] order[t])
    &&& forall|x: int| 0 <= x < keys.len() ==> #[trigger] crate::logging::lists(order, x)
}

proof fn lemma_entry_before_trans(a: (bool, Seq<char>), b: (bool, Seq<char>), c: (bool, Seq<char>))
    requires
        entry_before(a, b),
        entry_before(b, c) || b == c,
    ensures
        entry_before(a, c),
{
    if b != c && a.0 == b.0 && b.0 == c.0 {
        lemma_key_lt_transitive(a.1, b.1, c.1);
    }
}

proof fn lemma_not_before(a: (bool, Seq<char>), b: (bool, Seq<char>))
    requires
        !entry_before(a, b),
    ensures
        entry_before(b, a) || a == b,
{
    lemma_key_lt_total(a.1, b.1);
}

fn entry_before_exec(a_dir: bool, a: &String, b_dir: bool, b: &String) -> (r: bool)
    ensures
        r == entry_before((a_dir, a@), (b_dir, b@)),
{
    (a_dir && !b_dir) || (a_dir == b_dir && compare_keys(a.as_str(), b.as_str()) < 0)
}

pub open spec fn usizes(v: Seq<usize>) -> Seq<int> {
    crate::logging::usizes(v)
}

/// The positions of the entries in listing order.
fn listing_order(dirs: &Vec<bool>, lowered: &Vec<String>) -> (r: Vec<usize>)
    requires
        dirs@.len() == lowered@.len(),
    ensures
        is_listing_order(
            Seq::new(dirs@.len(), |i: int| (dirs@[i], lowered@[i]@)),
            crate::logging::usizes(r@),
        ),
{
    let ghost keys = Seq::new(dirs@.len(), |i: int| (dirs@[i], lowered@[i]@));
    let mut out: Vec<usize> = Vec::new();
    let mut i: usize = 0;
    while i < dirs.len()
        invariant
            dirs@.len() == lowered@.len(),
            keys == Seq::new(dirs@.len(), |i: int| (dirs@[i], lowered@[i]@)),
            i <= keys.len(),
            out@.len() == i,
            forall|q: int| 0 <= q < out@.len() ==> #[trigger] out@[q] < i,
            forall|q: int, t: int| 0 <= q < t < out@.len() ==> listed_before(keys, #[trigger] out@[q] as int, #[trigger] out@[t] as int),
            forall|x: int| 0 <= x < i ==> #[trigger] crate::logging::lists(crate::logging::usizes(out@), x),
        decreases keys.len() - i,
    {
        let mut p: usize = 0;
        while p < out.len() && !entry_before_exec(dirs[i], &lowered[i], dirs[out[p]], &lowered[out[p]])
            invariant
                dirs@.len() == lowered@.len(),
                keys == Seq::new(dirs@.len(), |i: int| (dirs@[i], lowered@[i]@)),
                p <= out@.len(),
                i < keys.len(),
                forall|q: int| 0 <= q < out@.len() ==> #[trigger] out@[q] < i,
                forall|q: int| 0 <= q < p ==> !entry_before(keys[i as int], keys[#[trigger] out@[q] as int]),
            decreases out@.len() - p,
        {
            p = p + 1;
        }
        let ghost before = out@;
        out.insert(p, i);
        proof {
            assert(out@ == before.insert(p as int, i));
            assert forall|q: int, t: int| 0 <= q < t < out@.len() implies listed_before(
                keys,
                #[trigger] out@[q] as int,
                #[trigger] out@[t] as int,
            ) by {
                if t < p {
                    assert(out@[q] == before[q] && out@[t] == before[t]);
                } else if t == p {
                    assert(out@[q] == before[q]);
                    lemma_not_before(keys[i as int], keys[before[q] as int]);
                } else if q == p {
                    assert(out@[t] == before[t - 1]);
                    if t - 1 > p {
                        assert(listed_before(keys, before[p as int] as int, before[t - 1] as int));
                        lemma_entry_before_trans(keys[i as int], keys[before[p as int] as int], keys[before[t - 1] as int]);
                    }
                } else if q < p {
                    assert(out@[q] == before[q] && out@[t] == before[t - 1]);
                } else {
                    assert(out@[q] == before[q - 1] && out@[t] == before[t - 1]);
                }
            }
            assert forall|x: int| 0 <= x < i + 1 implies #[trigger] crate::logging::lists(crate::logging::usizes(out@), x) by {
                if x == i {
                    assert(crate::logging::usizes(out@)[p as int] == x);
                } else {
                    assert(crate::logging::lists(crate::logging::usizes(before), x));
                    let q0 = choose|q: int| 0 <= q < crate::logging::usizes(before).len() && crate::logging::usizes(before)[q] == x;
                    if q0 < p {
                        assert(crate::logging::usizes(out@)[q0] == x);
                    } else {
                        assert(crate::logging::usizes(out@)[q0 + 1] == x);
                    }
                }
            }
        }
        i = i + 1;
    }
    out
}

pub open spec fn shown_positions(entries: Seq<(Seq<char>, bool)>, show_files: bool, extension: Option<Seq<char>>) -> Seq<int>
    decreases entries.len(),
{
    if entries.len() == 0 {
        Seq::empty()
    } else {
        let rest = shown_positions(entries.drop_last(), show_files, extension);
        if shows_entry(entries.last().0, entries.last().1, show_files, extension) {
            rest.push(entries.len() - 1)
        } else {
            rest
        }
    }
}

pub open spec fn entries_view(entries: Seq<(String, bool)>) -> Seq<(Seq<char>, bool)> {
    Seq::new(entries.len(), |i: int| (entries[i].0@, entries[i].1))
}

/// What the listing order compares of the shown entries.
pub open spec fn listing_keys(ev: Seq<(Seq<char>, bool)>, shown: Seq<int>) -> Seq<(bool, Seq<char>)> {
    Seq::new(shown.len(), |k: int| (ev[shown[k]].1, lowercase(ev[shown[k]].0)))
}

pub open spec fn opt_view(o: Option<&str>) -> Option<Seq<char>> {
    match o {
        Some(e) => Some(e@),
        None => None,
    }
}

/// `listed` is the listing of `entries`: the entries shown, in listing
/// order.
pub open spec fn is_listing(
    listed: Seq<BrowseEntry>,
    entries: Seq<(String, bool)>,
    show_files: bool,
    extension: Option<Seq<char>>,
) -> bool {
    let ev = entries_view(entries);
    let shown = shown_positions(ev, show_files, extension);
    let keys = listing_keys(ev, shown);
    exists|order: Seq<int>| #![trigger is_listing_order(keys, order)] is_listing_order(keys, order)
        && listed.len() == order.len()
        && forall|q: int| 0 <= q < order.len() ==> (#[trigger] listed[q]).name@ == ev[shown[order[q]]].0
            && listed[q].is_dir == ev[shown[order[q]]].1
}

/// The entries of a directory as listed: those shown, in listing order.
pub fn list_entries(entries: Vec<(String, bool)>, show_files: bool, extension: Option<&str>) -> (r: Vec<BrowseEntry>)
    ensures
        is_listing(r@, entries@, show_files, opt_view(extension)),
{
    let ghost ev = entries_view(entries@);
    let ghost ext = opt_view(extension);
    let mut kept: Vec<(String, bool)> = Vec::new();
    let mut dirs: Vec<bool> = Vec::new();
    let mut lowered: Vec<String> = Vec::new();
    let mut i: usize = 0;
    let ghost mut sp: Seq<int> = Seq::empty();
    assert(ev.take(0) =~= Seq::<(Seq<char>, bool)>::empty());
    while i < entries.len()
        invariant
            ev == entries_view(entries@),
            ext == opt_view(extension),
            i <= entries@.len(),
            sp == shown_positions(ev.take(i as int), show_files, ext),
            kept@.len() == sp.len(),
            dirs@.len() == kept@.len(),
            lowered@.len() == kept@.len(),
            forall|k: int| 0 <= k < sp.len() ==> 0 <= #[trigger] sp[k] < i,
            forall|k: int| 0 <= k < kept@.len() ==> (#[trigger] kept@[k]).0@ == ev[sp[k]].0 && kept@[k].1 == ev[sp[k]].1
                && dirs@[k] == ev[sp[k]].1 && lowered@[k]@ == lowercase(ev[sp[k]].0),
        decreases entries@.len() - i,
    {
        assert(ev.take(i + 1).drop_last() =~= ev.take(i as int));
        assert(ev.take(i + 1).last() == ev[i as int]);
        let name = &entries[i].0;
        let is_dir = entries[i].1;
        if shows_entry_exec(name.as_str(), is_dir, show_files, extension) {
            kept.push((name.clone(), is_dir));
            dirs.push(is_dir);
            lowered.push(to_lowercase_text(name.as_str()));
            proof {
                sp = sp.push(i as int);
            }
        }
        i = i + 1;
    }
    assert(ev.take(entries@.len() as int) =~= ev);
    let order = listing_order(&dirs, &lowered);
    let ghost shown = shown_positions(ev, show_files, ext);
    assert(shown == sp);
    let ghost keys = listing_keys(ev, shown);
    assert forall|k: int| 0 <= k < keys.len() implies #[trigger] keys[k] == (dirs@[k], lowered@[k]@) by {
        assert(kept@[k].0@ == ev[sp[k]].0);
    }
    assert(keys =~= Seq::new(dirs@.len(), |k: int| (dirs@[k], lowered@[k]@)));
    let mut out: Vec<BrowseEntry> = Vec::new();
    let mut q: usize = 0;
    while q < order.len()
        invariant
            is_listing_order(keys, crate::logging::usizes(order@)),
            kept@.len() == keys.len(),
            keys.len() == shown.len(),
            forall|k: int| 0 <= k < kept@.len() ==> (#[trigger] kept@[k]).0@ == ev[shown[k]].0 && kept@[k].1
                == ev[shown[k]].1,
            forall|k: int| 0 <= k < shown.len() ==> 0 <= #[trigger] shown[k] < ev.len(),
            q <= order@.len(),
            out@.len() == q,
            forall|t: int| 0 <= t < q ==> (#[trigger] out@[t]).name@ == ev[shown[order@[t] as int]].0
                && out@[t].is_dir == ev[shown[order@[t] as int]].1,
        decreases order@.len() - q,
    {
        assert(crate::logging::usizes(order@)[q as int] == order@[q as int] as int);
        let k = order[q];
        out.push(BrowseEntry { name: kept[k].0.clone(), is_dir: kept[k].1 });
        q = q + 1;
    }
    proof {
        let o = crate::logging::usizes(order@);
        assert forall|t: int| 0 <= t < o.len() implies (#[trigger] out@[t]).name@ == ev[shown[o[t]]].0
            && out@[t].is_dir == ev[shown[o[t]]].1 by {
            assert(o[t] == order@[t] as int);
        }
        assert(is_listing_order(keys, o));
        assert(is_listing_order(keys, o) && out@.len() == o.len() && forall|t: int| 0 <= t < o.len() ==> (
        #[trigger] out@[t]).name@ == ev[shown[o[t]]].0 && out@[t].is_dir == ev[shown[o[t]]].1);
    }
    out
}

/// The answer for a listed directory: the directory, its parent without the
/// extended-length prefix (none at a root), and the listing of its entries.
pub fn browse_listing(current: String, entries: Vec<(String, bool)>, show_files: bool, extension: Option<&str>) -> (r: BrowseResponse)
    ensures
        r.current == current,
        match parent_path(current@) {
            Some(p) => r.parent matches Some(q) && q@ == without_win_prefix(p),
            None => r.parent is None,
        },
        is_listing(r.entries@, entries@, show_files, opt_view(extension)),
{
    let parent = match path_parent(current.as_str()) {
        Some(p) => Some(clean_path(p.as_str())),
        None => None,
    };
    let listed = list_entries(entries, show_files, extension);
    BrowseResponse { current, parent, entries: listed }
}

} // verus!
