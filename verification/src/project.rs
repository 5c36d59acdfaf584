//! Checking and normalising what a user gives for a project, and the text
//! the service shows about it.
use vstd::prelude::*;

use crate::error::ServiceError;
use crate::json::{get_str, json_get, json_str, Json, JsonValue};
use crate::json_text::{json_parse, parse_json};
use crate::models::{ProjectStatus, ProjectUpsert, StoredProject};
use crate::text::{
    chars_of, contains, contains_str, push_char, push_str, starts_with, starts_with_chars, string_from_chars,
    trim, trim_chars, trim_str, str_eq,
};

verus! {

/// `s` with every leading occurrence of `p` removed (`str::trim_start_matches`).
pub open spec fn strip_all(s: Seq<char>, p: Seq<char>) -> Seq<char>
    decreases s.len(),
{
    if p.len() > 0 && starts_with(s, p) {
        strip_all(s.skip(p.len() as int), p)
    } else {
        s
    }
}

pub fn trim_start_matches(s: &Vec<char>, p: &str) -> (r: Vec<char>)
    ensures
        r@ == strip_all(s@, p@),
{
    let pc = chars_of(p);
    let mut cur: Vec<char> = s.clone();
    assert(cur@ == s@);
    while pc.len() > 0 && starts_with_chars(&cur, &pc)
        invariant
            pc@ == p@,
            strip_all(cur@, p@) == strip_all(s@, p@),
        decreases cur@.len(),
    {
        let mut next: Vec<char> = Vec::new();
        let mut i = pc.len();
        while i < cur.len()
            invariant
                pc@.len() <= i <= cur@.len(),
                next@ == cur@.subrange(pc@.len() as int, i as int),
            decreases cur@.len() - i,
        {
            next.push(cur[i]);
            i = i + 1;
            assert(next@ =~= cur@.subrange(pc@.len() as int, i as int));
        }
        assert(next@ =~= cur@.skip(pc@.len() as int));
        cur = next;
    }
    cur
}

/// The name of a project: the given name without surrounding whitespace,
/// which must not be empty.
pub fn validate_name(name: &str) -> (r: Result<String, ServiceError>)
    ensures
        match r {
            Ok(n) => n@ == trim(name@) && trim(name@).len() > 0,
            Err(e) => trim(name@).len() == 0 && e is InvalidRequest
                && e.text() == "Имя проекта не должно быть пустым."@,
        },
{
    let trimmed = trim_chars(&chars_of(name));
    if trimmed.len() == 0 {
        return Err(ServiceError::InvalidRequest("Имя проекта не должно быть пустым.".to_string()));
    }
    Ok(string_from_chars(&trimmed))
}

/// The root path as given, without surrounding whitespace, which must not be
/// empty.
pub fn root_path_input(path: &str) -> (r: Result<String, ServiceError>)
    ensures
        match r {
            Ok(p) => p@ == trim(path@) && trim(path@).len() > 0,
            Err(e) => trim(path@).len() == 0 && e is InvalidRequest && e.text() == "Корневой путь не указан."@,
        },
{
    let trimmed = trim_chars(&chars_of(path));
    if trimmed.len() == 0 {
        return Err(ServiceError::InvalidRequest("Корневой путь не указан.".to_string()));
    }
    Ok(string_from_chars(&trimmed))
}

/// The prefix `\\?\` that Windows puts before extended-length paths.
pub open spec fn win_prefix() -> Seq<char> {
    seq!['\\', '\\', '?', '\\']
}

/// The path without the extended-length prefix, if it has one.
pub open spec fn without_win_prefix(p: Seq<char>) -> Seq<char> {
    if starts_with(p, win_prefix()) {
        p.skip(4)
    } else {
        p
    }
}

pub fn clean_path(path: &str) -> (r: String)
    ensures
        r@ == without_win_prefix(path@),
{
    let cs = chars_of(path);
    let prefix: Vec<char> = vec!['\\', '\\', '?', '\\'];
    assert(prefix@ =~= win_prefix());
    if starts_with_chars(&cs, &prefix) {
        let mut rest: Vec<char> = Vec::new();
        let mut i: usize = 4;
        while i < cs.len()
            invariant
                4 <= i <= cs@.len(),
                rest@ == cs@.subrange(4, i as int),
            decreases cs@.len() - i,
        {
            rest.push(cs[i]);
            i = i + 1;
            assert(rest@ =~= cs@.subrange(4, i as int));
        }
        assert(rest@ =~= cs@.skip(4));
        string_from_chars(&rest)
    } else {
        string_from_chars(&cs)
    }
}

/// The root path of a project: the trimmed path as the file system resolves
/// it (`canonical`, `None` where it cannot), without the extended-length
/// prefix, which must name a directory (`is_dir`, asked of that path).
pub fn canonical_root_result(trimmed: &str, canonical: Option<String>, is_dir: bool) -> (r: Result<String, ServiceError>)
    ensures
        match canonical {
            None => r matches Err(e) && e is InvalidRequest
                && e.text() == "Корневой путь не найден: "@ + trimmed@,
            Some(c) => if is_dir {
                r matches Ok(p) && p@ == without_win_prefix(c@)
            } else {
                r matches Err(e) && e is InvalidRequest
                    && e.text() == "Корневой путь не является каталогом: "@ + trimmed@
            },
        },
{
    match canonical {
        None => {
            let mut m = "Корневой путь не найден: ".to_string();
            push_str(&mut m, trimmed);
            Err(ServiceError::InvalidRequest(m))
        },
        Some(c) => {
            if is_dir {
                Ok(clean_path(c.as_str()))
            } else {
                let mut m = "Корневой путь не является каталогом: ".to_string();
                push_str(&mut m, trimmed);
                Err(ServiceError::InvalidRequest(m))
            }
        },
    }
}

/// What the user reads for each status.
pub open spec fn status_label(s: ProjectStatus) -> Seq<char> {
    match s {
        ProjectStatus::Stopped => "остановлен"@,
        ProjectStatus::Starting => "запускается"@,
        ProjectStatus::WarmingUp => "прогревается"@,
        ProjectStatus::Ready => "готов"@,
        ProjectStatus::Error(_) => "ошибка"@,
    }
}

pub fn project_status_label(status: &ProjectStatus) -> (r: &'static str)
    ensures
        r@ == status_label(*status),
{
    match status {
        ProjectStatus::Stopped => "остановлен",
        ProjectStatus::Starting => "запускается",
        ProjectStatus::WarmingUp => "прогревается",
        ProjectStatus::Ready => "готов",
        ProjectStatus::Error(_) => "ошибка",
    }
}

/// The reason a database write failed, as the user reads it: the prefixes
/// the database layer adds are dropped, and three well-known failures are
/// put in words.
pub open spec fn persist_reason(reason: Seq<char>) -> Seq<char> {
    let r = trim(
        strip_all(
            strip_all(trim(strip_all(trim(reason), "error returned from database:"@)), "failed to insert project:"@),
            "failed to update project:"@,
        ),
    );
    if contains(r, "database is locked"@) {
        "база данных занята другим процессом"@
    } else if contains(r, "unable to open database file"@) {
        "не удалось открыть файл базы данных"@
    } else if contains(r, "disk I/O error"@) {
        "ошибка ввода-вывода при работе с базой данных"@
    } else if r.len() == 0 {
        "неизвестная ошибка"@
    } else {
        r
    }
}

pub fn normalize_project_persist_reason(reason: &str) -> (r: String)
    ensures
        r@ == persist_reason(reason@),
{
    let a = trim_chars(&chars_of(reason));
    let b = trim_start_matches(&a, "error returned from database:");
    let c = trim_chars(&b);
    let d = trim_start_matches(&c, "failed to insert project:");
    let e = trim_start_matches(&d, "failed to update project:");
    let f = trim_chars(&e);
    let text = string_from_chars(&f);
    if contains_str(text.as_str(), "database is locked") {
        return "база данных занята другим процессом".to_string();
    }
    if contains_str(text.as_str(), "unable to open database file") {
        return "не удалось открыть файл базы данных".to_string();
    }
    if contains_str(text.as_str(), "disk I/O error") {
        return "ошибка ввода-вывода при работе с базой данных".to_string();
    }
    if f.len() == 0 {
        return "неизвестная ошибка".to_string();
    }
    text
}

/// The error a failed database write is answered with: a clash of root paths
/// in words, else the fallback and the reason of the innermost cause.
pub open spec fn persist_error_text(text: Seq<char>, cause: Seq<char>, fallback: Seq<char>) -> Seq<char> {
    if contains(text, "UNIQUE constraint failed: projects.root_path"@) {
        "Проект с таким корневым путем уже существует."@
    } else {
        fallback + " Причина: "@ + persist_reason(cause)
    }
}

/// `text` is the error as displayed, `cause` its innermost cause.
pub fn map_project_persist_error(text: &str, cause: &str, fallback: &str) -> (r: ServiceError)
    ensures
        r is InvalidRequest,
        r.text() == persist_error_text(text@, cause@, fallback@),
{
    if contains_str(text, "UNIQUE constraint failed: projects.root_path") {
        return ServiceError::InvalidRequest("Проект с таким корневым путем уже существует.".to_string());
    }
    let reason = normalize_project_persist_reason(cause);
    let mut m = fallback.to_string();
    push_str(&mut m, " Причина: ");
    push_str(&mut m, reason.as_str());
    ServiceError::InvalidRequest(m)
}

pub fn map_create_project_error(text: &str, cause: &str) -> (r: ServiceError)
    ensures
        r is InvalidRequest,
        r.text() == persist_error_text(text@, cause@, "Не удалось создать проект."@),
{
    map_project_persist_error(text, cause, "Не удалось создать проект.")
}

pub fn map_update_project_error(text: &str, cause: &str) -> (r: ServiceError)
    ensures
        r is InvalidRequest,
        r.text() == persist_error_text(text@, cause@, "Не удалось обновить проект."@),
{
    map_project_persist_error(text, cause, "Не удалось обновить проект.")
}

/// The path with every backslash turned into a slash.
pub open spec fn slashes(s: Seq<char>) -> Seq<char> {
    Seq::new(s.len(), |i: int| if s[i] == '\\' { '/' } else { s[i] })
}

pub fn normalize_slashes(path: &str) -> (r: String)
    ensures
        r@ == slashes(path@),
{
    let cs = chars_of(path);
    let mut r = String::new();
    let mut i: usize = 0;
    while i < cs.len()
        invariant
            i <= cs@.len(),
            r@ == slashes(cs@.take(i as int)),
        decreases cs@.len() - i,
    {
        let c = if cs[i] == '\\' { '/' } else { cs[i] };
        push_char(&mut r, c);
        i = i + 1;
        assert(r@ =~= slashes(cs@.take(i as int)));
    }
    assert(cs@.take(cs@.len() as int) =~= cs@);
    r
}


/// The configuration the language server gets when the user gave none.
pub const DEFAULT_BSL_CONFIG: &'static str = "{\n  \"$schema\": \"https://1c-syntax.github.io/bsl-language-server/configuration/schema.json\",\n  \"language\": \"ru\",\n  \"diagnostics\": {\n    \"computeTrigger\": \"onType\",\n    \"minimumLSPDiagnosticLevel\": \"Warning\",\n    \"parameters\": {\n      \"MethodSize\": false\n    }\n  }\n}";

/// The configuration in effect: the user's, or the default where the user's
/// is blank.
pub fn effective_bsl_config(user_config: &str) -> (r: &str)
    ensures
        r@ == (if trim(user_config@).len() == 0 { DEFAULT_BSL_CONFIG@ } else { user_config@ }),
{
    let t = trim_chars(&chars_of(user_config));
    if t.len() == 0 {
        DEFAULT_BSL_CONFIG
    } else {
        user_config
    }
}

/// `diagnostics.computeTrigger` of a configuration, where it is a string.
pub open spec fn compute_trigger(v: Json) -> Option<Seq<char>> {
    match json_get(v, "diagnostics"@) {
        Some(d) => json_str(json_get(d, "computeTrigger"@)),
        None => None,
    }
}

pub open spec fn trigger_tail() -> Seq<char> {
    " Без этого диагностики не будут обновляться после редактирования файлов."@
}

/// The verdict on a parsed configuration: it must ask for diagnostics on
/// typing (`computeTrigger` = `onType`).
pub open spec fn bsl_config_verdict_spec(parsed: Result<Json, Seq<char>>) -> Result<(), Seq<char>> {
    match parsed {
        Err(e) => Err("Конфигурация BSL содержит невалидный JSON: "@ + e),
        Ok(v) => match compute_trigger(v) {
            Some(t) => if t == "onType"@ {
                Ok(())
            } else {
                Err("diagnostics.computeTrigger = \""@ + t + "\", требуется \"onType\"."@ + trigger_tail())
            },
            None => Err("В конфигурации BSL отсутствует diagnostics.computeTrigger = \"onType\"."@ + trigger_tail()),
        },
    }
}

pub open spec fn verdict_matches(r: Result<(), ServiceError>, v: Result<(), Seq<char>>) -> bool {
    match v {
        Ok(()) => r is Ok,
        Err(m) => r matches Err(e) && e is InvalidRequest && e.text() == m,
    }
}

/// The verdict on what parsing the configuration gave.
pub fn bsl_config_verdict(parsed: &Result<JsonValue, String>) -> (r: Result<(), ServiceError>)
    ensures
        verdict_matches(
            r,
            bsl_config_verdict_spec(
                match parsed {
                    Ok(v) => Ok(v@),
                    Err(e) => Err(e@),
                },
            ),
        ),
{
    match parsed {
        Err(e) => {
            let mut m = "Конфигурация BSL содержит невалидный JSON: ".to_string();
            push_str(&mut m, e.as_str());
            Err(ServiceError::InvalidRequest(m))
        },
        Ok(v) => {
            let trigger = match v.get("diagnostics") {
                Some(d) => get_str(d, "computeTrigger"),
                None => None,
            };
            match trigger {
                Some(t) => {
                    if str_eq(t.as_str(), "onType") {
                        Ok(())
                    } else {
                        let mut m = "diagnostics.computeTrigger = \"".to_string();
                        push_str(&mut m, t.as_str());
                        push_str(&mut m, "\", требуется \"onType\".");
                        push_str(&mut m, " Без этого диагностики не будут обновляться после редактирования файлов.");
                        Err(ServiceError::InvalidRequest(m))
                    }
                },
                None => {
                    let mut m = "В конфигурации BSL отсутствует diagnostics.computeTrigger = \"onType\".".to_string();
                    push_str(&mut m, " Без этого диагностики не будут обновляться после редактирования файлов.");
                    Err(ServiceError::InvalidRequest(m))
                },
            }
        },
    }
}

/// A blank configuration is accepted (the default is used at start); any
/// other must parse as JSON and ask for diagnostics on typing.
pub fn validate_bsl_config(config: &str) -> (r: Result<(), ServiceError>)
    ensures
        trim(config@).len() == 0 ==> r is Ok,
        trim(config@).len() > 0 ==> verdict_matches(r, bsl_config_verdict_spec(json_parse(trim(config@)))),
{
    let t = trim_chars(&chars_of(config));
    if t.len() == 0 {
        return Ok(());
    }
    let text = string_from_chars(&t);
    let parsed = parse_json(text.as_str());
    bsl_config_verdict(&parsed)
}


/// Whether `path` lies under `base`, component by component, as
/// `Path::starts_with` tells.
pub uninterp spec fn path_under(path: Seq<char>, base: Seq<char>) -> bool;

/// Calls `Path::starts_with`: the result is `path_under` of the paths.
#[verifier::external_body]
fn path_starts_with(path: &str, base: &str) -> (r: bool)
    ensures
        r == path_under(path@, base@),
{
    std::path::Path::new(path).starts_with(base)
}

/// A file is asked for by a path relative to the project's root.
pub fn check_relative_file_path(path: &str) -> (r: Result<(), ServiceError>)
    ensures
        crate::cli::absolute_path(path@) ==> (r matches Err(e) && e is InvalidRequest && e.text()
            == "Путь к файлу должен быть относительным относительно корня проекта."@),
        !crate::cli::absolute_path(path@) ==> r is Ok,
{
    if crate::cli::is_absolute(path) {
        return Err(ServiceError::InvalidRequest(
            "Путь к файлу должен быть относительным относительно корня проекта.".to_string(),
        ));
    }
    Ok(())
}

/// The resolved file must lie under the BSL root; both are taken without
/// the extended-length prefix.
pub fn check_within_root(absolute: &str, root: &str) -> (r: Result<String, ServiceError>)
    ensures
        path_under(without_win_prefix(absolute@), without_win_prefix(root@)) ==> (r matches Ok(p) && p@
            == without_win_prefix(absolute@)),
        !path_under(without_win_prefix(absolute@), without_win_prefix(root@)) ==> (r matches Err(e) && e is InvalidRequest
            && e.text() == "Путь к файлу выходит за пределы корня BSL."@),
{
    let a = clean_path(absolute);
    let b = clean_path(root);
    if !path_starts_with(a.as_str(), b.as_str()) {
        return Err(ServiceError::InvalidRequest("Путь к файлу выходит за пределы корня BSL.".to_string()));
    }
    Ok(a)
}

/// The error for an id no project has.
pub fn project_not_found(id: &str) -> (r: ServiceError)
    ensures
        r is NotFound,
        r.text() == "Проект с id "@ + id@ + " не найден."@,
{
    let mut m = "Проект с id ".to_string();
    push_str(&mut m, id);
    push_str(&mut m, " не найден.");
    ServiceError::NotFound(m)
}

/// A new project under `id`, created at `now`: the checked name and roots,
/// and the rest of the request with its JVM arguments trimmed.
pub fn new_project(
    id: String,
    name: String,
    root_path: String,
    project_root_path: String,
    input: &ProjectUpsert,
    now: String,
) -> (r: StoredProject)
    ensures
        r.id == id,
        r.name == name,
        r.root_path == root_path,
        r.project_root_path == project_root_path,
        r.jvm_args@ == trim(input.jvm_args@),
        r.bsl_config@ == input.bsl_config@,
        r.debug == input.debug,
        r.created_at@ == now@,
        r.updated_at@ == now@,
{
    StoredProject {
        id,
        name,
        root_path,
        project_root_path,
        jvm_args: trim_str(input.jvm_args.as_str()),
        bsl_config: input.bsl_config.clone(),
        debug: input.debug,
        created_at: now.clone(),
        updated_at: now,
    }
}

} // verus!
