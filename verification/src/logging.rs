//! Names and upkeep of the log files: one log per project, rotated when it
//! grows too large, old files removed when the directory does.
use vstd::prelude::*;

use crate::text::{chars_of, ends_with, ends_with_str, push_str, starts_with, starts_with_str, str_eq};
use crate::toon::strings_view;
use crate::watcher::{last_index, name_extension};

verus! {

/// A log file is rotated once it would grow past 10 MiB.
pub const MAX_FILE_BYTES: u64 = 10485760;

/// Old log files are removed while the directory holds more than 100 MiB.
pub const MAX_TOTAL_BYTES: u64 = 104857600;

pub open spec fn log_prefix(project_id: Seq<char>) -> Seq<char> {
    "project-"@ + project_id
}

pub fn project_log_prefix(project_id: &str) -> (r: String)
    ensures
        r@ == log_prefix(project_id@),
{
    let mut r = "project-".to_string();
    push_str(&mut r, project_id);
    r
}

/// The name of a project's current log file.
pub fn project_log_file_name(project_id: &str) -> (r: String)
    ensures
        r@ == log_prefix(project_id@) + ".log"@,
{
    let mut r = project_log_prefix(project_id);
    push_str(&mut r, ".log");
    r
}

/// The path of `name` inside `dir`, as `Path::join` gives it.
pub uninterp spec fn joined_path(dir: Seq<char>, name: Seq<char>) -> Seq<char>;

/// Calls `Path::join`: the result is `joined_path` of the two.
#[verifier::external_body]
pub(crate) fn join_path(dir: &str, name: &str) -> (r: String)
    ensures
        r@ == joined_path(dir@, name@),
{
    std::path::Path::new(dir).join(name).to_string_lossy().to_string()
}

/// The path of a project's current log file.
pub fn project_log_path(logs_dir: &str, project_id: &str) -> (r: String)
    ensures
        r@ == joined_path(logs_dir@, log_prefix(project_id@) + ".log"@),
{
    let name = project_log_file_name(project_id);
    join_path(logs_dir, name.as_str())
}

/// The files that belong to a project's log: its current file and its
/// rotated ones.
pub open spec fn is_project_log(name: Seq<char>, project_id: Seq<char>) -> bool {
    let prefix = log_prefix(project_id);
    name == prefix + ".log"@ || (starts_with(name, prefix + "-"@) && ends_with(name, ".log"@))
}

pub fn is_project_log_file(name: &str, project_id: &str) -> (r: bool)
    ensures
        r == is_project_log(name@, project_id@),
{
    let current = project_log_file_name(project_id);
    let mut rotated = project_log_prefix(project_id);
    push_str(&mut rotated, "-");
    str_eq(name, current.as_str()) || (starts_with_str(name, rotated.as_str()) && ends_with_str(name, ".log"))
}

/// A file of `size` bytes that is written `incoming` more is rotated first
/// when it would pass the limit.
pub open spec fn rotation_due(size: u64, incoming: u64) -> bool {
    size + incoming > MAX_FILE_BYTES
}

pub fn needs_rotation(size: u64, incoming: u64) -> (r: bool)
    ensures
        r == rotation_due(size, incoming),
{
    size > MAX_FILE_BYTES || incoming > MAX_FILE_BYTES - size
}

/// The file name without its extension (`Path::file_stem`): all of it where
/// it has no extension.
pub open spec fn name_stem(name: Seq<char>) -> Seq<char> {
    match name_extension(name) {
        Some(e) => name.take(name.len() - e.len() - 1),
        None => name,
    }
}

/// A project's log is rotated before it is written once it has grown past
/// the limit.
pub fn log_too_large(len: u64) -> (r: bool)
    ensures
        r == (len > MAX_FILE_BYTES),
{
    len > MAX_FILE_BYTES
}

/// The name a log file is renamed to when rotated: its stem, the time
/// stamp and its extension, `log` standing in for a missing part.
pub open spec fn rotated_name(name: Option<Seq<char>>, stamp: Seq<char>) -> Seq<char> {
    let stem = match name {
        Some(n) => name_stem(n),
        None => "log"@,
    };
    let ext = match name {
        Some(n) => match name_extension(n) {
            Some(e) => e,
            None => "log"@,
        },
        None => "log"@,
    };
    stem + "-"@ + stamp + "."@ + ext
}

pub fn rotated_file_name(name: Option<&str>, stamp: &str) -> (r: String)
    ensures
        r@ == rotated_name(
            match name {
                Some(n) => Some(n@),
                None => None,
            },
            stamp@,
        ),
{
    let mut r = String::new();
    match name {
        Some(n) => {
            let cs = chars_of(n);
            let ext = crate::watcher::extension_text(&cs);
            match ext {
                Some(e) => {
                    let stem_len = cs.len() - e.len() - 1;
                    let mut k: usize = 0;
                    while k < stem_len
                        invariant
                            stem_len <= cs@.len(),
                            k <= stem_len,
                            r@ == cs@.take(k as int),
                        decreases stem_len - k,
                    {
                        crate::text::push_char(&mut r, cs[k]);
                        k = k + 1;
                        assert(r@ =~= cs@.take(k as int));
                    }
                    push_str(&mut r, "-");
                    push_str(&mut r, stamp);
                    push_str(&mut r, ".");
                    crate::text::push_chars(&mut r, &e);
                    assert(r@ =~= rotated_name(Some(n@), stamp@));
                },
                None => {
                    push_str(&mut r, n);
                    push_str(&mut r, "-");
                    push_str(&mut r, stamp);
                    push_str(&mut r, ".log");
                    assert(r@ =~= rotated_name(Some(n@), stamp@)) by {
                        reveal_strlit("log");
                        reveal_strlit(".");
                        reveal_strlit(".log");
                    }
                },
            }
        },
        None => {
            push_str(&mut r, "log-");
            push_str(&mut r, stamp);
            push_str(&mut r, ".log");
            assert(r@ =~= "log"@ + "-"@ + stamp@ + "."@ + "log"@) by {
                reveal_strlit("log-");
                reveal_strlit("log");
                reveal_strlit("-");
                reveal_strlit(".");
                reveal_strlit(".log");
            }
        },
    }
    r
}

/// The lines of a text as `str::lines` gives them: split after each line
/// feed, without the line feed and a carriage return before it; the last
/// line may lack its line feed.
pub open spec fn line_fold(s: Seq<char>) -> (Seq<Seq<char>>, Seq<char>)
    decreases s.len(),
{
    if s.len() == 0 {
        (Seq::empty(), Seq::empty())
    } else {
        let (done, cur) = line_fold(s.drop_last());
        if s.last() == '\n' {
            (done.push(strip_cr(cur)), Seq::empty())
        } else {
            (done, cur.push(s.last()))
        }
    }
}

pub open spec fn strip_cr(line: Seq<char>) -> Seq<char> {
    if line.len() > 0 && line.last() == '\r' {
        line.drop_last()
    } else {
        line
    }
}

pub open spec fn text_lines(s: Seq<char>) -> Seq<Seq<char>> {
    let (done, cur) = line_fold(s);
    if cur.len() > 0 {
        done.push(cur)
    } else {
        done
    }
}

/// The last `tail` lines of a log (all of them where there are fewer).
pub open spec fn last_lines(s: Seq<char>, tail: nat) -> Seq<Seq<char>> {
    let lines = text_lines(s);
    if lines.len() > tail {
        lines.skip(lines.len() - tail)
    } else {
        lines
    }
}

fn string_of(cs: &Vec<char>) -> (r: String)
    ensures
        r@ == cs@,
{
    crate::text::string_from_chars(cs)
}

/// The lines of a text (`str::lines`).
pub fn split_lines(content: &str) -> (r: Vec<String>)
    ensures
        strings_view(r@) == text_lines(content@),
{
    let cs = chars_of(content);
    let mut lines: Vec<String> = Vec::new();
    let mut cur: Vec<char> = Vec::new();
    let mut i: usize = 0;
    assert(cs@.take(0) =~= Seq::<char>::empty());
    while i < cs.len()
        invariant
            cs@ == content@,
            i <= cs@.len(),
            line_fold(cs@.take(i as int)) == (strings_view(lines@), cur@),
        decreases cs@.len() - i,
    {
        assert(cs@.take(i + 1).drop_last() =~= cs@.take(i as int));
        assert(cs@.take(i + 1).last() == cs@[i as int]);
        if cs[i] == '\n' {
            if cur.len() > 0 && cur[cur.len() - 1] == '\r' {
                cur.pop();
            }
            let ghost lb = lines@;
            lines.push(string_of(&cur));
            assert(strings_view(lines@) =~= strings_view(lb).push(lines@.last()@));
            cur = Vec::new();
        } else {
            cur.push(cs[i]);
        }
        i = i + 1;
    }
    assert(cs@.take(cs@.len() as int) =~= cs@);
    if cur.len() > 0 {
        let ghost lb = lines@;
        lines.push(string_of(&cur));
        assert(strings_view(lines@) =~= strings_view(lb).push(cur@));
    }
    lines
}

pub fn tail_lines(content: &str, tail: usize) -> (r: Vec<String>)
    ensures
        strings_view(r@) == last_lines(content@, tail as nat),
{
    let lines = split_lines(content);
    if lines.len() > tail {
        let skip = lines.len() - tail;
        let mut out: Vec<String> = Vec::new();
        let mut k = skip;
        while k < lines.len()
            invariant
                skip <= k <= lines@.len(),
                out@.len() == k - skip,
                forall|j: int| 0 <= j < out@.len() ==> #[trigger] out@[j] == lines@[skip + j],
            decreases lines@.len() - k,
        {
            out.push(lines[k].clone());
            k = k + 1;
        }
        assert(strings_view(out@) =~= strings_view(lines@).skip(skip as int));
        out
    } else {
        lines
    }
}


/// A file of the logs directory: its name, when it was last modified (as a
/// count of nanoseconds since the Unix epoch; `None` where unknown) and its
/// size.
pub struct LogFile {
    pub name: String,
    pub modified: Option<u64>,
    pub len: u64,
}

/// Times are ordered with an unknown time first.
pub open spec fn time_before(a: Option<u64>, b: Option<u64>) -> bool {
    match (a, b) {
        (None, Some(_)) => true,
        (Some(x), Some(y)) => x < y,
        _ => false,
    }
}

/// Files come by modification time, files of the same time in the order
/// they were listed: a stable sort.
pub open spec fn comes_before(keys: Seq<Option<u64>>, i: int, j: int) -> bool {
    time_before(keys[i], keys[j]) || (keys[i] == keys[j] && i < j)
}

/// `order` lists every position of `keys` once, sorted stably by time.
pub open spec fn is_stable_order(keys: Seq<Option<u64>>, order: Seq<int>) -> bool {
    &&& order.len() == keys.len()
    &&& forall|q: int| 0 <= q < order.len() ==> 0 <= #[trigger] order[q] < keys.len()
    &&& forall|q: int, t: int| 0 <= q < t < order.len() ==> comes_before(keys, #[trigger] order[q], #[trigger] order[t])
    &&& forall|x: int| 0 <= x < keys.len() ==> #[trigger] lists(order, x)
}

pub open spec fn lists(order: Seq<int>, x: int) -> bool {
    exists|q: int| 0 <= q < order.len() && order[q] == x
}

pub open spec fn usizes(v: Seq<usize>) -> Seq<int> {
    Seq::new(v.len(), |i: int| v[i] as int)
}

fn time_before_exec(a: Option<u64>, b: Option<u64>) -> (r: bool)
    ensures
        r == time_before(a, b),
{
    match (a, b) {
        (None, Some(_)) => true,
        (Some(x), Some(y)) => x < y,
        _ => false,
    }
}

/// The positions of `keys` in stable order by time.
pub fn stable_order(keys: &Vec<Option<u64>>) -> (r: Vec<usize>)
    ensures
        is_stable_order(keys@, usizes(r@)),
{
    let mut out: Vec<usize> = Vec::new();
    let mut i: usize = 0;
    while i < keys.len()
        invariant
            i <= keys@.len(),
            out@.len() == i,
            forall|q: int| 0 <= q < out@.len() ==> #[trigger] out@[q] < i,
            forall|q: int, t: int| 0 <= q < t < out@.len() ==> comes_before(keys@, #[trigger] out@[q] as int, #[trigger] out@[t] as int),
            forall|x: int| 0 <= x < i ==> #[trigger] lists(usizes(out@), x),
        decreases keys@.len() - i,
    {
        let mut p: usize = 0;
        while p < out.len() && !time_before_exec(keys[i], keys[out[p]])
            invariant
                p <= out@.len(),
                i < keys@.len(),
                forall|q: int| 0 <= q < out@.len() ==> #[trigger] out@[q] < i,
                forall|q: int| 0 <= q < p ==> !time_before(keys@[i as int], keys@[#[trigger] out@[q] as int]),
            decreases out@.len() - p,
        {
            p = p + 1;
        }
        let ghost before = out@;
        out.insert(p, i);
        proof {
            assert(out@ == before.insert(p as int, i));
            assert forall|q: int, t: int| 0 <= q < t < out@.len() implies comes_before(
                keys@,
                #[trigger] out@[q] as int,
                #[trigger] out@[t] as int,
            ) by {
                if t < p {
                    assert(out@[q] == before[q] && out@[t] == before[t]);
                } else if t == p {
                    assert(out@[q] == before[q]);
                    assert(!time_before(keys@[i as int], keys@[before[q] as int]));
                } else if q == p {
                    assert(out@[t] == before[t - 1]);
                    assert(time_before(keys@[i as int], keys@[before[p as int] as int]));
                    if t - 1 > p {
                        assert(comes_before(keys@, before[p as int] as int, before[t - 1] as int));
                    }
                } else if q < p {
                    assert(out@[q] == before[q] && out@[t] == before[t - 1]);
                } else {
                    assert(out@[q] == before[q - 1] && out@[t] == before[t - 1]);
                }
            }
            assert forall|x: int| 0 <= x < i + 1 implies #[trigger] lists(usizes(out@), x) by {
                if x == i {
                    assert(usizes(out@)[p as int] == x);
                } else {
                    assert(lists(usizes(before), x));
                    let q0 = choose|q: int| 0 <= q < usizes(before).len() && usizes(before)[q] == x;
                    if q0 < p {
                        assert(usizes(out@)[q0] == x);
                    } else {
                        assert(usizes(out@)[q0 + 1] == x);
                    }
                }
            }
        }
        i = i + 1;
    }
    out
}

pub open spec fn file_keys(files: Seq<LogFile>) -> Seq<Option<u64>> {
    Seq::new(files.len(), |i: int| files[i].modified)
}

pub open spec fn total_len(files: Seq<LogFile>) -> int
    decreases files.len(),
{
    if files.len() == 0 {
        0
    } else {
        total_len(files.drop_last()) + files.last().len
    }
}

/// The files removed, oldest first, while the directory holds more than
/// the limit; the server's own log is kept.
pub open spec fn removals(files: Seq<LogFile>, order: Seq<int>, total: int) -> Seq<int>
    decreases order.len(),
{
    if order.len() == 0 || total <= MAX_TOTAL_BYTES {
        Seq::empty()
    } else if files[order[0]].name@ == "server.log"@ {
        removals(files, order.drop_first(), total)
    } else {
        seq![order[0]] + removals(files, order.drop_first(), total - files[order[0]].len)
    }
}

/// Which files of the logs directory to remove, in the order they are
/// removed.
pub fn cleanup_plan(files: &Vec<LogFile>) -> (r: Vec<usize>)
    ensures
        exists|order: Seq<int>| is_stable_order(file_keys(files@), order) && usizes(r@) == removals(files@, order, total_len(files@)),
{
    let mut total: u128 = 0;
    let mut k: usize = 0;
    assert(files@.take(0) =~= Seq::<LogFile>::empty());
    while k < files.len()
        invariant
            k <= files@.len(),
            total == total_len(files@.take(k as int)),
            total <= k * 0x1_0000_0000_0000_0000,
        decreases files@.len() - k,
    {
        assert(files@.take(k + 1).drop_last() =~= files@.take(k as int));
        total = total + files[k].len as u128;
        k = k + 1;
    }
    assert(files@.take(files@.len() as int) =~= files@);
    let mut keys: Vec<Option<u64>> = Vec::new();
    let mut j: usize = 0;
    while j < files.len()
        invariant
            j <= files@.len(),
            keys@ == file_keys(files@).take(j as int),
        decreases files@.len() - j,
    {
        keys.push(files[j].modified);
        j = j + 1;
        assert(keys@ =~= file_keys(files@).take(j as int));
    }
    assert(keys@ =~= file_keys(files@));
    let order = stable_order(&keys);
    let ghost ov = usizes(order@);
    let mut out: Vec<usize> = Vec::new();
    let mut q: usize = 0;
    assert(ov.skip(0) =~= ov);
    assert(usizes(out@) + removals(files@, ov, total as int) =~= removals(files@, ov, total as int));
    while q < order.len() && total > MAX_TOTAL_BYTES as u128
        invariant
            is_stable_order(file_keys(files@), ov),
            ov == usizes(order@),
            q <= order@.len(),
            removals(files@, ov, total_len(files@)) == usizes(out@) + removals(files@, ov.skip(q as int), total as int),
        decreases order@.len() - q,
    {
        assert(ov.skip(q as int).drop_first() =~= ov.skip(q + 1));
        assert(ov.skip(q as int)[0] == order@[q as int] as int);
        let idx = order[q];
        if !str_eq(files[idx].name.as_str(), "server.log") {
            let ghost ob = usizes(out@);
            out.push(idx);
            assert(usizes(out@) =~= ob + seq![idx as int]);
            assert(ob + (seq![idx as int] + removals(files@, ov.skip(q + 1), total - files@[idx as int].len))
                =~= usizes(out@) + removals(files@, ov.skip(q + 1), total - files@[idx as int].len));
            total = if total >= files[idx].len as u128 { total - files[idx].len as u128 } else { 0 };
        }
        q = q + 1;
    }
    proof {
        if q == order@.len() {
            assert(ov.skip(q as int).len() == 0);
        }
        assert(usizes(out@) + Seq::<int>::empty() =~= usizes(out@));
        assert(is_stable_order(file_keys(files@), ov) && usizes(out@) == removals(files@, ov, total_len(files@)));
    }
    out
}

/// The total size of the files at the positions `idx`.
pub open spec fn size_of_files(files: Seq<LogFile>, idx: Seq<int>) -> int
    decreases idx.len(),
{
    if idx.len() == 0 {
        0
    } else {
        files[idx[0]].len + size_of_files(files, idx.drop_first())
    }
}

/// The cleanup never removes the server's own log, and it removes enough:
/// what stays of `total` is within the limit, unless every file it passed
/// over is the server's log or already removed.
pub proof fn law_cleanup_fits_limit(files: Seq<LogFile>, order: Seq<int>, total: int)
    requires
        forall|q: int| 0 <= q < order.len() ==> 0 <= #[trigger] order[q] < files.len(),
    ensures
        forall|k: int| 0 <= k < removals(files, order, total).len()
            ==> files[#[trigger] removals(files, order, total)[k]].name@ != "server.log"@,
        total - size_of_files(files, removals(files, order, total)) <= MAX_TOTAL_BYTES || forall|q: int|
            0 <= q < order.len() ==> files[#[trigger] order[q]].name@ == "server.log"@
                || removals(files, order, total).contains(order[q]),
    decreases order.len(),
{
    if order.len() == 0 || total <= MAX_TOTAL_BYTES {
    } else {
        let rest = order.drop_first();
        if files[order[0]].name@ == "server.log"@ {
            law_cleanup_fits_limit(files, rest, total);
            assert forall|q: int| 0 <= q < order.len() && !(files[#[trigger] order[q]].name@ == "server.log"@)
                && total - size_of_files(files, removals(files, order, total)) > MAX_TOTAL_BYTES
                implies removals(files, order, total).contains(order[q]) by {
                assert(order[q] == rest[q - 1]);
            }
        } else {
            let len0 = files[order[0]].len;
            law_cleanup_fits_limit(files, rest, total - len0);
            let rm = removals(files, order, total);
            let tail = removals(files, rest, total - len0);
            assert(rm == seq![order[0]] + tail);
            assert(rm.drop_first() =~= tail);
            assert(size_of_files(files, rm) == len0 + size_of_files(files, tail));
            assert forall|k: int| 0 <= k < rm.len() implies files[#[trigger] rm[k]].name@ != "server.log"@ by {
                if k > 0 {
                    assert(rm[k] == tail[k - 1]);
                }
            }
            assert forall|q: int| 0 <= q < order.len() && !(files[#[trigger] order[q]].name@ == "server.log"@)
                && total - size_of_files(files, rm) > MAX_TOTAL_BYTES
                implies rm.contains(order[q]) by {
                if q == 0 {
                    assert(rm[0] == order[0]);
                } else {
                    assert(order[q] == rest[q - 1]);
                    assert(tail.contains(rest[q - 1]));
                    let k = choose|k: int| 0 <= k < tail.len() && tail[k] == rest[q - 1];
                    assert(rm[k + 1] == tail[k]);
                }
            }
        }
    }
}

} // verus!
