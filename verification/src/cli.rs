//! What the command-line client reads and sends.
use vstd::prelude::*;

use crate::json::{empty_object, get_str, json_get, json_str, json_u64_value, with_entry, Json, JsonValue};
use crate::logging::{split_lines, text_lines};
use crate::json::{insert_each, object_of};
use crate::project::{strip_all, trim_start_matches};
use crate::requests::unsigned;
use crate::text::{chars_of, push_str, starts_with, string_from_chars, trim, trim_chars};
use crate::watcher::{relative_path, strip_path_prefix};

verus! {

/// A value without surrounding double quotes (`str::trim_matches('"')`).
pub open spec fn unquoted(s: Seq<char>) -> Seq<char>
    decreases s.len(),
{
    if s.len() > 0 && s[0] == '"' {
        unquoted(s.drop_first())
    } else if s.len() > 0 && s.last() == '"' {
        unquoted(s.drop_last())
    } else {
        s
    }
}

/// The `PROJECT_ID=` value of a line of `.env`, once trimmed and unquoted,
/// where it is not empty; blank lines and comments have none.
pub open spec fn line_project_id(line: Seq<char>) -> Option<Seq<char>> {
    let t = trim(line);
    if t.len() == 0 || t[0] == '#' || !starts_with(t, "PROJECT_ID="@) {
        None
    } else {
        let v = unquoted(trim(t.skip(11)));
        if v.len() > 0 {
            Some(v)
        } else {
            None
        }
    }
}

/// The project of the first line of `.env` that gives one.
pub open spec fn first_project_id(lines: Seq<Seq<char>>) -> Option<Seq<char>>
    decreases lines.len(),
{
    if lines.len() == 0 {
        None
    } else {
        match line_project_id(lines[0]) {
            Some(v) => Some(v),
            None => first_project_id(lines.drop_first()),
        }
    }
}

fn unquote(cs: &Vec<char>) -> (r: Vec<char>)
    ensures
        r@ == unquoted(cs@),
{
    let mut a: usize = 0;
    let mut b: usize = cs.len();
    assert(cs@.subrange(0, cs@.len() as int) =~= cs@);
    while a < b && (cs[a] == '"' || cs[b - 1] == '"')
        invariant
            a <= b <= cs@.len(),
            unquoted(cs@.subrange(a as int, b as int)) == unquoted(cs@),
        decreases b - a,
    {
        let ghost s = cs@.subrange(a as int, b as int);
        if cs[a] == '"' {
            assert(s.drop_first() =~= cs@.subrange(a + 1, b as int));
            a = a + 1;
        } else {
            assert(s[0] != '"');
            assert(s.drop_last() =~= cs@.subrange(a as int, b - 1));
            b = b - 1;
        }
    }
    let mut r: Vec<char> = Vec::new();
    let mut k = a;
    while k < b
        invariant
            a <= k <= b <= cs@.len(),
            r@ == cs@.subrange(a as int, k as int),
        decreases b - k,
    {
        r.push(cs[k]);
        k = k + 1;
        assert(r@ =~= cs@.subrange(a as int, k as int));
    }
    r
}

fn line_project_id_exec(line: &str) -> (r: Option<String>)
    ensures
        match r {
            Some(v) => line_project_id(line@) == Some(v@),
            None => line_project_id(line@) is None,
        },
{
    let t = trim_chars(&chars_of(line));
    let prefix = chars_of("PROJECT_ID=");
    proof {
        reveal_strlit("PROJECT_ID=");
    }
    if t.len() == 0 || t[0] == '#' || !crate::text::starts_with_chars(&t, &prefix) {
        return None;
    }
    let mut rest: Vec<char> = Vec::new();
    let mut i: usize = 11;
    while i < t.len()
        invariant
            11 <= i <= t@.len(),
            rest@ == t@.subrange(11, i as int),
        decreases t@.len() - i,
    {
        rest.push(t[i]);
        i = i + 1;
        assert(rest@ =~= t@.subrange(11, i as int));
    }
    assert(rest@ =~= t@.skip(11));
    let v = unquote(&trim_chars(&rest));
    if v.len() > 0 {
        Some(string_from_chars(&v))
    } else {
        None
    }
}

/// The project of a `.env` file's content.
pub fn parse_project_id(content: &str) -> (r: Option<String>)
    ensures
        match r {
            Some(v) => first_project_id(text_lines(content@)) == Some(v@),
            None => first_project_id(text_lines(content@)) is None,
        },
{
    let lines = split_lines(content);
    let ghost lv = crate::toon::strings_view(lines@);
    let mut i: usize = 0;
    assert(lv.skip(0) =~= lv);
    while i < lines.len()
        invariant
            lv == crate::toon::strings_view(lines@),
            lv == text_lines(content@),
            i <= lines@.len(),
            first_project_id(lv) == first_project_id(lv.skip(i as int)),
        decreases lines@.len() - i,
    {
        assert(lv.skip(i as int)[0] == lines@[i as int]@);
        assert(lv.skip(i as int).drop_first() =~= lv.skip(i + 1));
        match line_project_id_exec(lines[i].as_str()) {
            Some(v) => {
                assert(lv.skip(i as int).len() > 0);
                assert(first_project_id(lv.skip(i as int)) == Some(v@));
                return Some(v);
            },
            None => {},
        }
        i = i + 1;
    }
    None
}

/// The message of an error answer: its `error` text, or the fallback.
pub fn extract_error_message(value: &JsonValue, fallback: &str) -> (r: String)
    ensures
        r@ == (match json_str(json_get(value@, "error"@)) {
            Some(e) => e,
            None => fallback@,
        }),
{
    match get_str(value, "error") {
        Some(e) => e.clone(),
        None => fallback.to_string(),
    }
}

/// Whether a path is absolute, as `Path::is_absolute` tells.
pub uninterp spec fn absolute_path(path: Seq<char>) -> bool;

/// Calls `Path::is_absolute`: the result is `absolute_path` of the path.
#[verifier::external_body]
pub(crate) fn is_absolute(path: &str) -> (r: bool)
    ensures
        r == absolute_path(path@),
{
    std::path::Path::new(path).is_absolute()
}


/// A file path as the server wants it: relative to the current directory
/// where it is an absolute path under it, else without leading `./`.
pub open spec fn cli_file_path(path: Seq<char>, current_dir: Option<Seq<char>>) -> Seq<char> {
    let rel = match current_dir {
        Some(d) => if absolute_path(path) {
            relative_path(path, d)
        } else {
            None
        },
        None => None,
    };
    match rel {
        Some(r) => r,
        None => strip_all(path, "./"@),
    }
}

pub fn normalize_cli_file_path(path: &str, current_dir: Option<&str>) -> (r: String)
    ensures
        r@ == cli_file_path(
            path@,
            match current_dir {
                Some(d) => Some(d@),
                None => None,
            },
        ),
{
    if is_absolute(path) {
        match current_dir {
            Some(d) => match strip_path_prefix(path, d) {
                Some(rel) => return rel,
                None => {},
            },
            None => {},
        }
    }
    let cs = chars_of(path);
    string_from_chars(&trim_start_matches(&cs, "./"))
}

/// What the client says when the server cannot be reached.
pub fn connection_error(connect_url: &str) -> (r: String)
    ensures
        r@ == "Не удалось подключиться к серверу "@ + connect_url@
            + ". Проверьте, что сервер запущен и доступен по сети."@,
{
    let mut m = "Не удалось подключиться к серверу ".to_string();
    push_str(&mut m, connect_url);
    push_str(&mut m, ". Проверьте, что сервер запущен и доступен по сети.");
    m
}

/// The address of a project's endpoint of the server's API.
pub fn api_url(connect_url: &str, project_id: &str, endpoint: &str) -> (r: String)
    ensures
        r@ == connect_url@ + "/api/projects/"@ + project_id@ + "/"@ + endpoint@,
{
    let mut u = connect_url.to_string();
    push_str(&mut u, "/api/projects/");
    push_str(&mut u, project_id);
    push_str(&mut u, "/");
    push_str(&mut u, endpoint);
    u
}

/// The body of a request about a file.
pub fn file_request_body(file_path: &str) -> (r: JsonValue)
    ensures
        r@ == object_of(seq![("file_path"@, Json::Str(file_path@))]),
{
    let m = with_entry(empty_object(), "file_path", JsonValue::String(file_path.to_string()));
    proof {
        reveal_with_fuel(insert_each, 2);
    }
    JsonValue::Object(m)
}

/// The body of a request about a position in a file.
pub fn position_request_body(file_path: &str, line: u32, character: u32) -> (r: JsonValue)
    ensures
        r@ == object_of(
            seq![("file_path"@, Json::Str(file_path@)), ("line"@, unsigned(line)), ("character"@, unsigned(character))],
        ),
{
    let m = with_entry(empty_object(), "file_path", JsonValue::String(file_path.to_string()));
    let m = with_entry(m, "line", json_u64_value(line as u64));
    let m = with_entry(m, "character", json_u64_value(character as u64));
    proof {
        reveal_with_fuel(insert_each, 4);
    }
    JsonValue::Object(m)
}

/// The body of a search of symbols.
pub fn query_request_body(query: &str) -> (r: JsonValue)
    ensures
        r@ == object_of(seq![("query"@, Json::Str(query@))]),
{
    let m = with_entry(empty_object(), "query", JsonValue::String(query.to_string()));
    proof {
        reveal_with_fuel(insert_each, 2);
    }
    JsonValue::Object(m)
}

/// The entries of a `PATH` value, split at `sep`.
pub open spec fn path_entries(path_var: Seq<char>, sep: char) -> Seq<Seq<char>>
    decreases path_var.len(),
{
    if path_var.len() == 0 {
        seq![Seq::empty()]
    } else {
        let rest = path_entries(path_var.drop_last(), sep);
        if path_var.last() == sep {
            rest.push(Seq::empty())
        } else {
            rest.update(rest.len() - 1, rest.last().push(path_var.last()))
        }
    }
}

pub proof fn lemma_path_entries_nonempty(path_var: Seq<char>, sep: char)
    ensures
        path_entries(path_var, sep).len() > 0,
    decreases path_var.len(),
{
    if path_var.len() > 0 {
        lemma_path_entries_nonempty(path_var.drop_last(), sep);
    }
}

/// Whether `dir` is one of the entries of a `PATH` value.
pub fn path_var_contains(path_var: &str, sep: char, dir: &str) -> (r: bool)
    ensures
        r == path_entries(path_var@, sep).contains(dir@),
{
    let cs = chars_of(path_var);
    let mut entries: Vec<Vec<char>> = Vec::new();
    entries.push(Vec::new());
    let mut i: usize = 0;
    assert(cs@.take(0) =~= Seq::<char>::empty());
    while i < cs.len()
        invariant
            i <= cs@.len(),
            entries@.len() > 0,
            Seq::new(entries@.len(), |j: int| entries@[j]@) == path_entries(cs@.take(i as int), sep),
        decreases cs@.len() - i,
    {
        assert(cs@.take(i + 1).drop_last() =~= cs@.take(i as int));
        let ghost before = Seq::new(entries@.len(), |j: int| entries@[j]@);
        if cs[i] == sep {
            entries.push(Vec::new());
            assert(Seq::new(entries@.len(), |j: int| entries@[j]@) =~= before.push(Seq::empty()));
        } else {
            let last = entries.len() - 1;
            let mut cur = entries.pop().unwrap();
            cur.push(cs[i]);
            entries.push(cur);
            assert(Seq::new(entries@.len(), |j: int| entries@[j]@) =~= before.update(
                before.len() - 1,
                before.last().push(cs@[i as int]),
            ));
        }
        i = i + 1;
    }
    assert(cs@.take(cs@.len() as int) =~= cs@);
    let ghost ev = Seq::new(entries@.len(), |j: int| entries@[j]@);
    let d = chars_of(dir);
    let mut k: usize = 0;
    while k < entries.len()
        invariant
            ev == Seq::new(entries@.len(), |j: int| entries@[j]@),
            ev == path_entries(path_var@, sep),
            d@ == dir@,
            k <= entries@.len(),
            forall|j: int| 0 <= j < k ==> ev[j] != dir@,
        decreases entries@.len() - k,
    {
        if crate::text::str_eq(string_from_chars(&entries[k]).as_str(), dir) {
            assert(ev[k as int] == dir@);
            return true;
        }
        k = k + 1;
    }
    false
}

} // verus!
