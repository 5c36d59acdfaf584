//! What the web page shows for a project: the words and the badge for its
//! status, and its indexing bar.
use vstd::prelude::*;

use crate::browse::BrowseRequest;
use crate::models::{IndexingProgress, ProjectSnapshot, ProjectStatusInfo};
use crate::text::{chars_of, push_str, str_eq};

verus! {

/// The words for a reported status; any other status is unknown.
pub open spec fn status_words(status: Seq<char>) -> Seq<char> {
    if status == "ready"@ {
        "Готов"@
    } else if status == "warming_up"@ {
        "Прогревается"@
    } else if status == "starting"@ {
        "Запускается"@
    } else if status == "error"@ {
        "Ошибка"@
    } else if status == "stopped"@ {
        "Остановлен"@
    } else {
        "Неизвестно"@
    }
}

pub fn status_label(status: &str) -> (r: &'static str)
    ensures
        r@ == status_words(status@),
{
    if str_eq(status, "ready") {
        "Готов"
    } else if str_eq(status, "warming_up") {
        "Прогревается"
    } else if str_eq(status, "starting") {
        "Запускается"
    } else if str_eq(status, "error") {
        "Ошибка"
    } else if str_eq(status, "stopped") {
        "Остановлен"
    } else {
        "Неизвестно"
    }
}

/// The style of the badge for a reported status.
pub open spec fn badge_style(status: Seq<char>) -> Seq<char> {
    if status == "ready"@ {
        "badge badge-success badge-outline"@
    } else if status == "warming_up"@ || status == "starting"@ {
        "badge badge-warning badge-outline"@
    } else if status == "error"@ {
        "badge badge-error badge-outline"@
    } else {
        "badge badge-ghost"@
    }
}

pub fn badge_class(status: &str) -> (r: &'static str)
    ensures
        r@ == badge_style(status@),
{
    if str_eq(status, "ready") {
        "badge badge-success badge-outline"
    } else if str_eq(status, "warming_up") || str_eq(status, "starting") {
        "badge badge-warning badge-outline"
    } else if str_eq(status, "error") {
        "badge badge-error badge-outline"
    } else {
        "badge badge-ghost"
    }
}

/// The indexing bar: the percentage (zero when none is known) and the
/// message, or a note that nothing is being indexed.
pub fn progress_bar(progress: &IndexingProgress) -> (r: (u32, String))
    ensures
        r.0 == match progress.percentage {
            Some(p) => p,
            None => 0u32,
        },
        r.1@ == match progress.message {
            Some(m) => m@,
            None => "Нет активной задачи индексации"@,
        },
{
    let value = match progress.percentage {
        Some(p) => p,
        None => 0,
    };
    let text = match &progress.message {
        Some(m) => m.clone(),
        None => "Нет активной задачи индексации".to_string(),
    };
    (value, text)
}

/// How many log lines the page keeps.
pub const PROJECT_LOG_LINES_LIMIT: usize = 1000;

/// The last `PROJECT_LOG_LINES_LIMIT` of `lines`.
pub open spec fn kept_lines(lines: Seq<String>) -> Seq<String> {
    if lines.len() > PROJECT_LOG_LINES_LIMIT {
        lines.skip(lines.len() - PROJECT_LOG_LINES_LIMIT)
    } else {
        lines
    }
}

/// A log line arrives: it goes last, and the oldest lines are dropped
/// beyond the limit.
pub fn push_log_line(lines: &mut Vec<String>, line: String)
    requires
        old(lines)@.len() < usize::MAX,
    ensures
        final(lines)@ == kept_lines(old(lines)@.push(line)),
        final(lines)@.last() == line,
        old(lines)@.len() <= PROJECT_LOG_LINES_LIMIT ==> final(lines)@.len() <= PROJECT_LOG_LINES_LIMIT,
{
    let ghost all = old(lines)@.push(line);
    lines.push(line);
    if lines.len() > PROJECT_LOG_LINES_LIMIT {
        let extra = lines.len() - PROJECT_LOG_LINES_LIMIT;
        let mut k: usize = 0;
        while k < extra
            invariant
                all.len() > PROJECT_LOG_LINES_LIMIT,
                extra == all.len() - PROJECT_LOG_LINES_LIMIT,
                k <= extra,
                lines@ == all.skip(k as int),
            decreases extra - k,
        {
            lines.remove(0);
            k = k + 1;
            assert(lines@ =~= all.skip(k as int));
        }
    }
}

/// A log line of the project `id` arrives: it is kept only while that
/// project is the one selected, and then at most the limit of lines stays.
pub fn on_log_line(lines: &mut Vec<String>, selected: Option<&str>, id: &str, line: String)
    requires
        old(lines)@.len() < usize::MAX,
    ensures
        (selected matches Some(s) && s@ == id@) ==> final(lines)@ == kept_lines(old(lines)@.push(line)),
        !(selected matches Some(s) && s@ == id@) ==> final(lines)@ == old(lines)@,
        old(lines)@.len() <= PROJECT_LOG_LINES_LIMIT ==> final(lines)@.len() <= PROJECT_LOG_LINES_LIMIT,
{
    match selected {
        Some(s) => {
            if str_eq(s, id) {
                push_log_line(lines, line);
            }
        },
        None => {},
    }
}

/// `i` is the first position of the project `id` in the list.
pub open spec fn first_with_id(list: Seq<ProjectSnapshot>, id: Seq<char>, i: int) -> bool {
    &&& 0 <= i < list.len()
    &&& list[i].project.id@ == id
    &&& forall|j: int| 0 <= j < i ==> (#[trigger] list[j]).project.id@ != id
}

/// No project of the list is `id`.
pub open spec fn lacks_id(list: Seq<ProjectSnapshot>, id: Seq<char>) -> bool {
    forall|j: int| 0 <= j < list.len() ==> (#[trigger] list[j]).project.id@ != id
}

fn find_project(list: &Vec<ProjectSnapshot>, id: &str) -> (r: Option<usize>)
    ensures
        match r {
            Some(i) => first_with_id(list@, id@, i as int),
            None => lacks_id(list@, id@),
        },
{
    let mut i: usize = 0;
    while i < list.len()
        invariant
            i <= list@.len(),
            forall|j: int| 0 <= j < i ==> (#[trigger] list@[j]).project.id@ != id@,
        decreases list@.len() - i,
    {
        if str_eq(list[i].project.id.as_str(), id) {
            return Some(i);
        }
        i = i + 1;
    }
    None
}

/// A status arrives for the project `id`: the first project of the list
/// with that id takes it; the rest of the list stays.
pub fn set_project_status(list: &mut Vec<ProjectSnapshot>, id: &str, status: ProjectStatusInfo)
    ensures
        final(list)@.len() == old(list)@.len(),
        forall|i: int| #[trigger] first_with_id(old(list)@, id@, i) ==> {
            &&& final(list)@[i].status == status
            &&& final(list)@[i].project == old(list)@[i].project
            &&& final(list)@[i].progress == old(list)@[i].progress
            &&& forall|k: int| 0 <= k < old(list)@.len() && k != i ==> final(list)@[k] == old(list)@[k]
        },
        lacks_id(old(list)@, id@) ==> final(list)@ == old(list)@,
{
    let ghost before = list@;
    match find_project(list, id) {
        Some(i) => {
            let mut p = list.remove(i);
            p.status = status;
            list.insert(i, p);
            proof {
                assert forall|j: int| #[trigger] first_with_id(before, id@, j) implies j == i as int by {
                    if j < i as int {
                        assert(before[j].project.id@ != id@);
                    } else if j > i as int {
                        assert(before[i as int].project.id@ != id@);
                    }
                }
                assert forall|k: int| 0 <= k < before.len() && k != i as int implies list@[k] == before[k] by {
                    if k < i as int {
                        assert(list@[k] == before.remove(i as int)[k]);
                    } else {
                        assert(list@[k] == before.remove(i as int)[k - 1]);
                    }
                }
            }
        },
        None => {},
    }
}

/// A progress arrives for the project `id`: the first project of the list
/// with that id takes it; the rest of the list stays.
pub fn set_project_progress(list: &mut Vec<ProjectSnapshot>, id: &str, progress: IndexingProgress)
    ensures
        final(list)@.len() == old(list)@.len(),
        forall|i: int| #[trigger] first_with_id(old(list)@, id@, i) ==> {
            &&& final(list)@[i].progress == progress
            &&& final(list)@[i].project == old(list)@[i].project
            &&& final(list)@[i].status == old(list)@[i].status
            &&& forall|k: int| 0 <= k < old(list)@.len() && k != i ==> final(list)@[k] == old(list)@[k]
        },
        lacks_id(old(list)@, id@) ==> final(list)@ == old(list)@,
{
    let ghost before = list@;
    match find_project(list, id) {
        Some(i) => {
            let mut p = list.remove(i);
            p.progress = progress;
            list.insert(i, p);
            proof {
                assert forall|j: int| #[trigger] first_with_id(before, id@, j) implies j == i as int by {
                    if j < i as int {
                        assert(before[j].project.id@ != id@);
                    } else if j > i as int {
                        assert(before[i as int].project.id@ != id@);
                    }
                }
                assert forall|k: int| 0 <= k < before.len() && k != i as int implies list@[k] == before[k] by {
                    if k < i as int {
                        assert(list@[k] == before.remove(i as int)[k]);
                    } else {
                        assert(list@[k] == before.remove(i as int)[k - 1]);
                    }
                }
            }
        },
        None => {},
    }
}

/// The notice shown when a project becomes ready: its name, where the
/// list has the project and the name is not empty.
pub open spec fn ready_notice_text(list: Seq<ProjectSnapshot>, id: Seq<char>, status: Seq<char>) -> Option<Seq<char>> {
    if status == "ready"@ && exists|i: int| first_with_id(list, id, i) {
        let i = choose|i: int| first_with_id(list, id, i);
        if list[i].project.name@.len() > 0 {
            Some("Проект \""@ + list[i].project.name@ + "\" запустился"@)
        } else {
            None
        }
    } else {
        None
    }
}

pub fn ready_notice(list: &Vec<ProjectSnapshot>, id: &str, status: &ProjectStatusInfo) -> (r: Option<String>)
    ensures
        opt_seq(r) == ready_notice_text(list@, id@, status.status@),
{
    if !str_eq(status.status.as_str(), "ready") {
        return None;
    }
    match find_project(list, id) {
        Some(i) => {
            proof {
                assert forall|j: int| #[trigger] first_with_id(list@, id@, j) implies j == i as int by {
                    if j < i as int {
                        assert(list@[j].project.id@ != id@);
                    } else if j > i as int {
                        assert(list@[i as int].project.id@ != id@);
                    }
                }
                assert(first_with_id(list@, id@, i as int));
            }
            let name = &list[i].project.name;
            if chars_of(name.as_str()).len() == 0 {
                None
            } else {
                let mut m = "Проект \"".to_string();
                push_str(&mut m, name.as_str());
                push_str(&mut m, "\" запустился");
                Some(m)
            }
        },
        None => None,
    }
}

pub open spec fn opt_seq(o: Option<String>) -> Option<Seq<char>> {
    match o {
        Some(s) => Some(s@),
        None => None,
    }
}

/// What the directory picker picks: a directory, or a file with the given
/// extension.
#[derive(PartialEq, Eq, Structural, Clone, Copy, Debug)]
pub enum BrowseMode {
    Directory,
    File,
}

/// The listing the picker asks for: files are shown only when a file is
/// picked.
pub fn browse_request(path: Option<String>, mode: BrowseMode, extension: Option<String>) -> (r: BrowseRequest)
    ensures
        r.path == path,
        r.show_files == (mode == BrowseMode::File),
        r.extension == extension,
{
    BrowseRequest { path, show_files: mode == BrowseMode::File, extension }
}

/// `dir` ends with a path separator.
pub open spec fn ends_with_separator(dir: Seq<char>) -> bool {
    dir.len() > 0 && (dir.last() == '/' || dir.last() == '\\')
}

/// The path of an entry of the listed directory `dir`.
pub open spec fn entry_path_text(dir: Seq<char>, name: Seq<char>) -> Seq<char> {
    if ends_with_separator(dir) {
        dir + name
    } else {
        dir + "/"@ + name
    }
}

pub fn entry_path(dir: &str, name: &str) -> (r: String)
    ensures
        r@ == entry_path_text(dir@, name@),
{
    let cs = chars_of(dir);
    let mut r = dir.to_string();
    let n = cs.len();
    if !(n > 0 && (cs[n - 1] == '/' || cs[n - 1] == '\\')) {
        push_str(&mut r, "/");
    }
    push_str(&mut r, name);
    proof {
        reveal_strlit("/");
    }
    r
}

} // verus!
