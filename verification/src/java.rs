//! Reading the version that `java -version` reports.
use vstd::prelude::*;

use crate::models::JavaCheckResult;
use crate::text::{chars_of, parse_unsigned, parse_unsigned_exec, push_str, string_from_chars};

verus! {

/// The first position at or after `from` that holds `c`.
pub open spec fn find_char(s: Seq<char>, c: char, from: int) -> Option<int>
    decreases s.len() - from,
{
    if from < 0 || from >= s.len() {
        None
    } else if s[from] == c {
        Some(from)
    } else {
        find_char(s, c, from + 1)
    }
}

/// The text between the first two double quotes.
pub open spec fn quoted_version(s: Seq<char>) -> Option<Seq<char>> {
    match find_char(s, '"', 0) {
        Some(i) => match find_char(s, '"', i + 1) {
            Some(j) => Some(s.subrange(i + 1, j)),
            None => None,
        },
        None => None,
    }
}

proof fn lemma_find_char_bounds(s: Seq<char>, c: char, from: int)
    ensures
        match find_char(s, c, from) {
            Some(i) => from <= i < s.len() && s[i] == c && 0 <= from
                && forall|k: int| from <= k < i ==> s[k] != c,
            None => forall|k: int| from <= k < s.len() && 0 <= from ==> s[k] != c,
        },
    decreases s.len() - from,
{
    if from >= 0 && from < s.len() && s[from] != c {
        lemma_find_char_bounds(s, c, from + 1);
    }
}

fn find_char_exec(s: &Vec<char>, c: char, from: usize) -> (r: Option<usize>)
    ensures
        match r {
            Some(i) => find_char(s@, c, from as int) == Some(i as int),
            None => find_char(s@, c, from as int) is None,
        },
{
    let mut i = from;
    while i < s.len()
        invariant
            from <= i,
            find_char(s@, c, from as int) == find_char(s@, c, i as int),
        decreases s@.len() - i,
    {
        if s[i] == c {
            return Some(i);
        }
        i = i + 1;
    }
    None
}

/// The version in the output of `java -version`: the text between the first
/// two double quotes.
pub fn extract_java_version(output: &str) -> (r: Option<String>)
    ensures
        match r {
            Some(v) => quoted_version(output@) == Some(v@),
            None => quoted_version(output@) is None,
        },
{
    let cs = chars_of(output);
    let start = match find_char_exec(&cs, '"', 0) {
        Some(i) => i,
        None => return None,
    };
    proof {
        lemma_find_char_bounds(cs@, '"', 0);
    }
    let end = match find_char_exec(&cs, '"', start + 1) {
        Some(j) => j,
        None => return None,
    };
    proof {
        lemma_find_char_bounds(cs@, '"', start + 1);
    }
    let mut part: Vec<char> = Vec::new();
    let mut k = start + 1;
    while k < end
        invariant
            start + 1 <= k <= end,
            end < cs@.len(),
            part@ == cs@.subrange(start + 1, k as int),
        decreases end - k,
    {
        part.push(cs[k]);
        k = k + 1;
        assert(part@ =~= cs@.subrange(start + 1, k as int));
    }
    Some(string_from_chars(&part))
}

/// What `str::parse::<u32>` gives.
pub open spec fn parse_u32(s: Seq<char>) -> Option<u32> {
    match parse_unsigned(s, u32::MAX as u64) {
        Some(v) => Some(v as u32),
        None => None,
    }
}

pub fn parse_u32_exec(s: &Vec<char>) -> (r: Option<u32>)
    ensures
        r == parse_u32(s@),
{
    match parse_unsigned_exec(s, 4294967295) {
        Some(v) => Some(v as u32),
        None => None,
    }
}

/// The text before the first `.`, and after it up to the next `.` if any.
pub open spec fn first_segment(s: Seq<char>) -> Seq<char> {
    match find_char(s, '.', 0) {
        Some(i) => s.take(i),
        None => s,
    }
}

pub open spec fn second_segment(s: Seq<char>) -> Option<Seq<char>> {
    match find_char(s, '.', 0) {
        Some(i) => Some(first_segment(s.skip(i + 1))),
        None => None,
    }
}

/// The major version: the first dot-separated part, or the second where the
/// first is `1` (as in `1.8.0_392`).
pub open spec fn major_version(v: Seq<char>) -> Option<u32> {
    if first_segment(v) == "1"@ {
        match second_segment(v) {
            Some(t) => parse_u32(t),
            None => None,
        }
    } else {
        parse_u32(first_segment(v))
    }
}

fn take_until_dot(s: &Vec<char>, from: usize) -> (r: Vec<char>)
    requires
        from <= s@.len(),
    ensures
        r@ == first_segment(s@.skip(from as int)),
{
    let ghost t = s@.skip(from as int);
    proof {
        lemma_find_char_bounds(t, '.', 0);
    }
    let mut r: Vec<char> = Vec::new();
    let mut i = from;
    while i < s.len() && s[i] != '.'
        invariant
            from <= i <= s@.len(),
            t == s@.skip(from as int),
            r@ == t.take(i - from),
            forall|q: int| 0 <= q < i - from ==> t[q] != '.',
        decreases s@.len() - i,
    {
        r.push(s[i]);
        i = i + 1;
        assert(r@ =~= t.take(i - from));
    }
    proof {
        if i < s@.len() {
            assert(find_char(t, '.', 0) == Some((i - from) as int)) by {
                lemma_find_char_from_clear(t, '.', (i - from) as int);
            }
        } else {
            assert(find_char(t, '.', 0) is None) by {
                lemma_find_char_from_clear(t, '.', (i - from) as int);
            }
            assert(t.take(i - from) =~= t);
        }
    }
    r
}

proof fn lemma_find_char_from_clear(s: Seq<char>, c: char, k: int)
    requires
        0 <= k <= s.len(),
        forall|q: int| 0 <= q < k ==> s[q] != c,
    ensures
        find_char(s, c, 0) == find_char(s, c, k),
    decreases k,
{
    if k > 0 {
        lemma_find_char_from_clear(s, c, k - 1);
        lemma_find_char_step(s, c, k - 1);
    }
}

proof fn lemma_find_char_step(s: Seq<char>, c: char, k: int)
    requires
        0 <= k < s.len(),
        s[k] != c,
    ensures
        find_char(s, c, k) == find_char(s, c, k + 1),
{
}

pub fn java_major_version(version: &str) -> (r: Option<u32>)
    ensures
        r == major_version(version@),
{
    let cs = chars_of(version);
    assert(cs@.skip(0) =~= cs@);
    let first = take_until_dot(&cs, 0);
    if first.len() == 1 && first[0] == '1' {
        assert(first@ =~= "1"@) by {
            reveal_strlit("1");
        }
        proof {
            lemma_find_char_bounds(cs@, '.', 0);
        }
        if first.len() < cs.len() {
            assert(find_char(cs@, '.', 0) == Some(first@.len() as int)) by {
                assert(first@ == first_segment(cs@));
            }
            let second = take_until_dot(&cs, first.len() + 1);
            parse_u32_exec(&second)
        } else {
            assert(find_char(cs@, '.', 0) is None);
            None
        }
    } else {
        assert(first@ != "1"@) by {
            reveal_strlit("1");
        }
        parse_u32_exec(&first)
    }
}

/// What the check finds from the output of `java -version`, or from the
/// error that kept it from running: Java counts as usable from version 17.
pub open spec fn java_ok(raw: Seq<char>) -> bool {
    match quoted_version(raw) {
        Some(v) => match major_version(v) {
            Some(m) => m >= 17,
            None => false,
        },
        None => false,
    }
}

/// The result of the check from what `java -version` wrote on its two
/// streams, or from the error that kept it from running.
pub fn java_check_result(outcome: Result<(String, String), String>) -> (r: JavaCheckResult)
    ensures
        match outcome {
            Ok((out, err)) => {
                &&& r.found
                &&& r.raw_output@ == out@ + err@
                &&& match r.version {
                    Some(v) => quoted_version(out@ + err@) == Some(v@),
                    None => quoted_version(out@ + err@) is None,
                }
                &&& r.ok == java_ok(out@ + err@)
                &&& match quoted_version(out@ + err@) {
                    Some(v) => match major_version(v) {
                        Some(m) => r.ok == (m >= 17),
                        None => !r.ok,
                    },
                    None => !r.ok,
                }
            },
            Err(e) => !r.found && r.version is None && r.raw_output@ == e@ && !r.ok,
        },
{
    match outcome {
        Ok((out, err)) => {
            let mut raw = String::new();
            push_str(&mut raw, out.as_str());
            push_str(&mut raw, err.as_str());
            let version = extract_java_version(raw.as_str());
            let ok = match &version {
                Some(v) => match java_major_version(v.as_str()) {
                    Some(major) => major >= 17,
                    None => false,
                },
                None => false,
            };
            JavaCheckResult { found: true, version, raw_output: raw, ok }
        },
        Err(e) => JavaCheckResult { found: false, version: None, raw_output: e, ok: false },
    }
}

/// Java is usable exactly when the version `java -version` prints has a
/// major number of at least 17; output without a readable version is not.
pub proof fn law_java_usable_from_17(raw: Seq<char>)
    ensures
        forall|v: Seq<char>, m: u32| quoted_version(raw) == Some(v) && major_version(v) == Some(m)
            ==> (java_ok(raw) <==> m >= 17),
        quoted_version(raw) is None ==> !java_ok(raw),
        forall|v: Seq<char>| quoted_version(raw) == Some(v) && major_version(v) is None ==> !java_ok(raw),
{
}

} // verus!
