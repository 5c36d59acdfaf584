//! The running state of a project: its status, the indexing progress the
//! language server reports, the diagnostics it published and the documents
//! opened in it.
use vstd::prelude::*;

use crate::assoc::{
    assoc_find, assoc_get, assoc_remove, assoc_set, lemma_assoc_put_get, lemma_assoc_without_get,
};
use crate::error::ServiceError;
use crate::json::{get_str, json_get, json_str, json_u64, lemma_view_items, Json, JsonValue};
use crate::uri::{parse_url, url_parse};
use crate::models::{
    copy_text, no_progress, opt_text, IndexingProgress, ProgressModel, ProjectSnapshot, ProjectStatus,
    ProjectStatusInfo, ProjectUpsert, StatusModel, StoredProject,
};
use crate::project::{project_status_label, status_label};
use crate::text::{contains, contains_str, push_str, str_eq, trim, trim_str};

verus! {

/// The `kind` of a progress value, or the empty text.
pub open spec fn progress_kind(value: Json) -> Seq<char> {
    match json_str(json_get(value, "kind"@)) {
        Some(k) => k,
        None => ""@,
    }
}

/// The `value` of `$/progress` parameters, or `null`.
pub open spec fn event_value(params: Json) -> Json {
    match json_get(params, "value"@) {
        Some(v) => v,
        None => Json::Null,
    }
}

/// The `token` of `$/progress` parameters, where it is a string.
pub open spec fn event_token(params: Json) -> Option<Seq<char>> {
    json_str(json_get(params, "token"@))
}

pub open spec fn percentage_of(value: Json) -> Option<u32> {
    match json_u64(json_get(value, "percentage"@)) {
        Some(n) => Some(#[verifier::truncate] (n as u32)),
        None => None,
    }
}

/// The progress after one reported value: `begin` starts it with its title,
/// `report` updates what it carries, `end` stops it at 100% with its message.
pub open spec fn applied(p: ProgressModel, value: Json) -> ProgressModel {
    let kind = progress_kind(value);
    if kind == "begin"@ {
        ProgressModel {
            active: true,
            percentage: percentage_of(value),
            message: json_str(json_get(value, "title"@)),
            ..p
        }
    } else if kind == "report"@ {
        ProgressModel {
            active: true,
            percentage: match percentage_of(value) {
                Some(n) => Some(n),
                None => p.percentage,
            },
            message: match json_str(json_get(value, "message"@)) {
                Some(m) => Some(m),
                None => p.message,
            },
            ..p
        }
    } else if kind == "end"@ {
        ProgressModel {
            active: false,
            percentage: Some(100),
            message: json_str(json_get(value, "message"@)),
            ..p
        }
    } else {
        p
    }
}

/// The main progress token after a value of this kind arrives: a `report`
/// while none is current makes its token the main one.
pub open spec fn adopted_token(current: Option<Seq<char>>, kind: Seq<char>, token: Option<Seq<char>>) -> Option<Seq<char>> {
    if kind == "report"@ && current is None {
        token
    } else {
        current
    }
}

/// A value is ignored unless it belongs to the main progress: a `begin`
/// counts only while no main token is current, `report` and `end` only from
/// the main token, any other kind never.
pub open spec fn is_dominated(current: Option<Seq<char>>, kind: Seq<char>, token: Option<Seq<char>>) -> bool {
    if kind == "begin"@ {
        current is Some
    } else if kind == "report"@ || kind == "end"@ {
        adopted_token(current, kind, token) != token
    } else {
        true
    }
}

/// The text the language server ends its indexing with.
pub open spec fn says_context_ready(text: Seq<char>) -> bool {
    contains(text, "Наполнение контекста завершено"@) || contains(text, "Context populated"@)
}

pub open spec fn end_message(value: Json) -> Seq<char> {
    match json_str(json_get(value, "message"@)) {
        Some(m) => m,
        None => ""@,
    }
}

/// What progress handling reads and changes of a project.
pub struct TrackerModel {
    pub status: StatusModel,
    pub progress: ProgressModel,
    pub token: Option<Seq<char>>,
}

/// One `$/progress` notification applied to a project.
pub open spec fn progress_step(m: TrackerModel, params: Json) -> TrackerModel {
    let value = event_value(params);
    let kind = progress_kind(value);
    let token = event_token(params);
    let adopted = adopted_token(m.token, kind, token);
    if is_dominated(m.token, kind, token) {
        TrackerModel { token: adopted, ..m }
    } else {
        let ready = kind == "end"@ && says_context_ready(end_message(value)) && m.status is WarmingUp;
        TrackerModel {
            status: if ready { StatusModel::Ready } else { m.status },
            progress: applied(m.progress, value),
            token: if kind == "end"@ { None } else { adopted },
        }
    }
}

/// What a progress notification is reported as: the new progress, and the
/// new status where the project became ready.
pub struct ProgressOutcome {
    pub progress: Option<IndexingProgress>,
    pub status: Option<ProjectStatusInfo>,
}

/// The running state of a project.
pub struct ProjectState {
    pub config: StoredProject,
    pub status: ProjectStatus,
    /// The last published diagnostics of each document, by URI.
    pub diagnostics: Vec<(String, JsonValue)>,
    /// The version of each opened document, by the path it was asked for.
    pub opened_files: Vec<(String, u32)>,
    pub progress: IndexingProgress,
    /// The token of the main progress, the one that sends `report` values.
    pub progress_token: Option<String>,
}

pub open spec fn ready_error_text(s: ProjectStatus) -> Seq<char> {
    "Проект еще не готов. Текущий статус: "@ + status_label(s) + "."@
}

fn same_token(a: &Option<String>, b: &Option<String>) -> (r: bool)
    ensures
        r == (opt_text(*a) == opt_text(*b)),
{
    match (a, b) {
        (Some(x), Some(y)) => str_eq(x.as_str(), y.as_str()),
        (None, None) => true,
        _ => false,
    }
}

/// The progress after one reported value.
pub fn apply_progress_value(progress: &mut IndexingProgress, value: &JsonValue)
    ensures
        final(progress)@ == applied(old(progress)@, value@),
{
    let kind: &str = match get_str(value, "kind") {
        Some(k) => k.as_str(),
        None => "",
    };
    assert(kind@ == progress_kind(value@));
    let percentage: Option<u32> = match value.get("percentage") {
        Some(p) => match p.as_u64() {
            Some(n) => Some(#[verifier::truncate] (n as u32)),
            None => None,
        },
        None => None,
    };
    assert(percentage == percentage_of(value@));
    if str_eq(kind, "begin") {
        progress.active = true;
        progress.percentage = percentage;
        progress.message = match get_str(value, "title") {
            Some(t) => Some(t.clone()),
            None => None,
        };
    } else if str_eq(kind, "report") {
        progress.active = true;
        if let Some(n) = percentage {
            progress.percentage = Some(n);
        }
        if let Some(m) = get_str(value, "message") {
            progress.message = Some(m.clone());
        }
    } else if str_eq(kind, "end") {
        progress.active = false;
        progress.message = match get_str(value, "message") {
            Some(m) => Some(m.clone()),
            None => None,
        };
        progress.percentage = Some(100);
    }
}

impl ProjectState {
    pub open spec fn tracker(&self) -> TrackerModel {
        TrackerModel { status: self.status@, progress: self.progress@, token: opt_text(self.progress_token) }
    }

    /// A stopped project with nothing reported yet.
    pub fn from_config(config: StoredProject) -> (r: ProjectState)
        ensures
            r.config == config,
            r.status@ == StatusModel::Stopped,
            r.diagnostics@.len() == 0,
            r.opened_files@.len() == 0,
            r.progress@ == no_progress(),
            r.progress_token is None,
    {
        ProjectState {
            config,
            status: ProjectStatus::Stopped,
            diagnostics: Vec::new(),
            opened_files: Vec::new(),
            progress: IndexingProgress::default(),
            progress_token: None,
        }
    }

    /// The projects as the service loads them: each stopped, with nothing
    /// reported yet, in the order given.
    pub fn load_states(stored: Vec<StoredProject>) -> (r: Vec<ProjectState>)
        ensures
            r@.len() == stored@.len(),
            forall|i: int| 0 <= i < r@.len() ==> {
                &&& (#[trigger] r@[i]).config == stored@[i]
                &&& r@[i].status@ == StatusModel::Stopped
                &&& r@[i].progress@ == no_progress()
                &&& r@[i].diagnostics@.len() == 0
                &&& r@[i].opened_files@.len() == 0
                &&& r@[i].progress_token is None
            },
    {
        let ghost orig = stored@;
        let mut rest = stored;
        let mut out: Vec<ProjectState> = Vec::new();
        while rest.len() > 0
            invariant
                out@.len() + rest@.len() == orig.len(),
                rest@ == orig.skip(out@.len() as int),
                forall|i: int| 0 <= i < out@.len() ==> {
                    &&& (#[trigger] out@[i]).config == orig[i]
                    &&& out@[i].status@ == StatusModel::Stopped
                    &&& out@[i].progress@ == no_progress()
                    &&& out@[i].diagnostics@.len() == 0
                    &&& out@[i].opened_files@.len() == 0
                    &&& out@[i].progress_token is None
                },
            decreases rest@.len(),
        {
            let ghost k = out@.len() as int;
            let p = rest.remove(0);
            assert(p == orig[k]);
            out.push(ProjectState::from_config(p));
            assert(rest@ =~= orig.skip(k + 1));
        }
        out
    }

    /// The project, its status and its progress, as reported.
    pub fn snapshot(&self) -> (r: ProjectSnapshot)
        ensures
            r.project.id@ == self.config.id@,
            r.project.name@ == self.config.name@,
            r.project.root_path@ == self.config.root_path@,
            r.project.project_root_path@ == self.config.project_root_path@,
            r.project.jvm_args@ == self.config.jvm_args@,
            r.project.bsl_config@ == self.config.bsl_config@,
            r.project.debug == self.config.debug,
            r.project.created_at@ == self.config.created_at@,
            r.project.updated_at@ == self.config.updated_at@,
            r.status.status@ == crate::models::status_name(self.status),
            opt_text(r.status.error) == crate::models::status_error(self.status),
            r.progress@ == self.progress@,
    {
        ProjectSnapshot { project: self.config.copy(), status: self.status.info(), progress: self.progress.copy() }
    }

    /// Starting is refused unless the project is stopped; else the project
    /// is starting, with no progress, diagnostics or opened documents.
    pub fn begin_start(&mut self) -> (r: Result<(), ServiceError>)
        ensures
            old(self).status is Stopped ==> {
                &&& r is Ok
                &&& final(self).status@ == StatusModel::Starting
                &&& final(self).progress@ == no_progress()
                &&& final(self).diagnostics@.len() == 0
                &&& final(self).opened_files@.len() == 0
                &&& final(self).progress_token == old(self).progress_token
                &&& final(self).config == old(self).config
            },
            !(old(self).status is Stopped) ==> {
                &&& r matches Err(e) && e is InvalidRequest && e.text() == "Проект уже запущен."@
                &&& *final(self) == *old(self)
            },
    {
        if !self.status.is_stopped() {
            return Err(ServiceError::InvalidRequest("Проект уже запущен.".to_string()));
        }
        self.status = ProjectStatus::Starting;
        self.progress = IndexingProgress::default();
        self.diagnostics = Vec::new();
        self.opened_files = Vec::new();
        Ok(())
    }

    /// The project failed with this message.
    pub fn fail(&mut self, message: &str)
        ensures
            final(self).status@ == StatusModel::Error(message@),
            final(self).config == old(self).config,
            final(self).diagnostics == old(self).diagnostics,
            final(self).opened_files == old(self).opened_files,
            final(self).progress == old(self).progress,
            final(self).progress_token == old(self).progress_token,
    {
        self.status = ProjectStatus::Error(message.to_string());
    }

    /// The language server runs and indexes.
    pub fn mark_warming_up(&mut self)
        ensures
            final(self).status@ == StatusModel::WarmingUp,
            final(self).config == old(self).config,
            final(self).diagnostics == old(self).diagnostics,
            final(self).opened_files == old(self).opened_files,
            final(self).progress == old(self).progress,
            final(self).progress_token == old(self).progress_token,
    {
        self.status = ProjectStatus::WarmingUp;
    }

    /// The project was stopped: nothing of the server's session is kept.
    pub fn reset_stopped(&mut self)
        ensures
            final(self).status@ == StatusModel::Stopped,
            final(self).diagnostics@.len() == 0,
            final(self).opened_files@.len() == 0,
            final(self).progress@ == no_progress(),
            final(self).config == old(self).config,
            final(self).progress_token == old(self).progress_token,
    {
        self.status = ProjectStatus::Stopped;
        self.diagnostics = Vec::new();
        self.opened_files = Vec::new();
        self.progress = IndexingProgress::default();
    }

    /// The server process ended: opened documents are forgotten; a project
    /// not already stopped is stopped after a clean exit and failed after
    /// another, and that new status is reported.
    pub fn on_process_exit(&mut self, success: bool, exit_status: &str) -> (r: Option<ProjectStatusInfo>)
        ensures
            final(self).opened_files@.len() == 0,
            final(self).config == old(self).config,
            final(self).diagnostics == old(self).diagnostics,
            final(self).progress == old(self).progress,
            final(self).progress_token == old(self).progress_token,
            old(self).status is Stopped ==> r is None && final(self).status@ == old(self).status@,
            !(old(self).status is Stopped) && success ==> final(self).status@ == StatusModel::Stopped,
            !(old(self).status is Stopped) && !success ==> final(self).status@ == StatusModel::Error(
                "LSP-процесс завершился с ошибкой: "@ + exit_status@,
            ),
            !(old(self).status is Stopped) ==> (r matches Some(info) && info.status@
                == crate::models::status_name(final(self).status) && opt_text(info.error)
                == crate::models::status_error(final(self).status)),
    {
        self.opened_files = Vec::new();
        if self.status.is_stopped() {
            return None;
        }
        if success {
            self.status = ProjectStatus::Stopped;
        } else {
            let mut m = "LSP-процесс завершился с ошибкой: ".to_string();
            push_str(&mut m, exit_status);
            self.status = ProjectStatus::Error(m);
        }
        Some(self.status.info())
    }

    /// A `$/progress` notification: the main progress is followed, others
    /// are ignored; the end of indexing makes a warming-up project ready.
    pub fn on_progress(&mut self, params: &JsonValue) -> (r: ProgressOutcome)
        ensures
            final(self).tracker() == progress_step(old(self).tracker(), params@),
            final(self).config == old(self).config,
            final(self).diagnostics == old(self).diagnostics,
            final(self).opened_files == old(self).opened_files,
            ({
                let value = event_value(params@);
                let kind = progress_kind(value);
                let dominated = is_dominated(opt_text(old(self).progress_token), kind, event_token(params@));
                &&& (r.progress is Some <==> !dominated)
                &&& (r.progress matches Some(p) ==> p@ == final(self).progress@)
                &&& (r.status is Some <==> (!dominated && kind == "end"@ && says_context_ready(end_message(value))
                    && old(self).status is WarmingUp))
                &&& (r.status matches Some(info) ==> info.status@ == "ready"@ && info.error is None)
            }),
    {
        let token: Option<String> = match get_str(params, "token") {
            Some(t) => Some(t.clone()),
            None => None,
        };
        let null = JsonValue::Null;
        let value: &JsonValue = match params.get("value") {
            Some(v) => v,
            None => &null,
        };
        assert(value@ == event_value(params@));
        assert(opt_text(token) == event_token(params@));
        proof {
            reveal_strlit("begin");
            reveal_strlit("report");
            reveal_strlit("end");
        }
        let kind: &str = match get_str(value, "kind") {
            Some(k) => k.as_str(),
            None => "",
        };
        assert(kind@ == progress_kind(value@));
        let dominated = if str_eq(kind, "begin") {
            self.progress_token.is_some()
        } else if str_eq(kind, "report") {
            if self.progress_token.is_none() {
                self.progress_token = match &token {
                    Some(t) => Some(t.clone()),
                    None => None,
                };
            }
            !same_token(&self.progress_token, &token)
        } else if str_eq(kind, "end") {
            !same_token(&self.progress_token, &token)
        } else {
            true
        };
        if dominated {
            return ProgressOutcome { progress: None, status: None };
        }
        apply_progress_value(&mut self.progress, value);
        if str_eq(kind, "end") {
            self.progress_token = None;
        }
        let progress = Some(self.progress.copy());
        let message: &str = match get_str(value, "message") {
            Some(m) => m.as_str(),
            None => "",
        };
        assert(message@ == end_message(value@));
        let is_context_ready = str_eq(kind, "end") && (contains_str(message, "Наполнение контекста завершено")
            || contains_str(message, "Context populated"));
        let warming = match self.status {
            ProjectStatus::WarmingUp => true,
            _ => false,
        };
        if is_context_ready && warming {
            self.status = ProjectStatus::Ready;
            return ProgressOutcome { progress, status: Some(self.status.info()) };
        }
        ProgressOutcome { progress, status: None }
    }

    /// A line the server wrote on its error stream: the end of indexing makes
    /// a warming-up project ready, and that is reported.
    pub fn on_stderr_line(&mut self, line: &str) -> (r: Option<ProjectStatusInfo>)
        ensures
            final(self).config == old(self).config,
            final(self).diagnostics == old(self).diagnostics,
            final(self).opened_files == old(self).opened_files,
            final(self).progress == old(self).progress,
            final(self).progress_token == old(self).progress_token,
            (says_context_ready(line@) && old(self).status is WarmingUp) ==> (final(self).status@ == StatusModel::Ready
                && (r matches Some(info) && info.status@ == "ready"@ && info.error is None)),
            !(says_context_ready(line@) && old(self).status is WarmingUp) ==> final(self).status == old(self).status
                && r is None,
    {
        let ready = contains_str(line, "Наполнение контекста завершено") || contains_str(line, "Context populated");
        let warming = match self.status {
            ProjectStatus::WarmingUp => true,
            _ => false,
        };
        if ready && warming {
            self.status = ProjectStatus::Ready;
            return Some(self.status.info());
        }
        None
    }
}


/// The diagnostics held for a document, by their model.
pub open spec fn diag_view(s: Seq<(String, JsonValue)>, uri: Seq<char>) -> Option<Json> {
    match assoc_get(s, uri) {
        Some(v) => Some(v@),
        None => None,
    }
}

/// How many diagnostics a `publishDiagnostics` notification carries.
pub open spec fn diagnostics_count(params: Json) -> nat {
    match json_get(params, "diagnostics"@) {
        Some(Json::Array(items)) => items.len(),
        _ => 0,
    }
}

/// The URI a document is known under: the text as `url::Url` prints it once
/// parsed, or the text itself where it does not parse.
pub open spec fn normalized_uri(raw: Seq<char>) -> Seq<char> {
    match url_parse(raw) {
        Some(u) => u,
        None => raw,
    }
}

fn diagnostics_len(params: &JsonValue) -> (r: usize)
    ensures
        r == diagnostics_count(params@),
{
    match params.get("diagnostics") {
        Some(JsonValue::Array(items)) => {
            proof {
                lemma_view_items(items@);
            }
            items.len()
        },
        _ => 0,
    }
}

impl ProjectState {
    /// A `textDocument/publishDiagnostics` notification: its parameters are
    /// kept under the document's URI, and the URI and the number of
    /// diagnostics are reported. Without a URI nothing changes.
    pub fn on_publish_diagnostics(&mut self, params: &JsonValue) -> (r: Option<(String, usize)>)
        ensures
            final(self).config == old(self).config,
            final(self).status == old(self).status,
            final(self).opened_files == old(self).opened_files,
            final(self).progress == old(self).progress,
            final(self).progress_token == old(self).progress_token,
            match json_str(json_get(params@, "uri"@)) {
                None => r is None && final(self).diagnostics == old(self).diagnostics,
                Some(raw) => r matches Some((uri, count)) && uri@ == normalized_uri(raw) && count
                    == diagnostics_count(params@) && forall|q: Seq<char>| #[trigger]
                    diag_view(final(self).diagnostics@, q) == (if q == uri@ {
                        Some(params@)
                    } else {
                        diag_view(old(self).diagnostics@, q)
                    }),
            },
    {
        let raw = match get_str(params, "uri") {
            Some(u) => u,
            None => return None,
        };
        let uri = match parse_url(raw.as_str()) {
            Some(u) => u,
            None => raw.clone(),
        };
        let count = diagnostics_len(params);
        let ghost before = self.diagnostics@;
        let kept = params.deep_copy();
        let key = uri.clone();
        assoc_set(&mut self.diagnostics, key, kept);
        proof {
            assert forall|q: Seq<char>| #[trigger] diag_view(self.diagnostics@, q) == (if q == uri@ {
                Some(params@)
            } else {
                diag_view(before, q)
            }) by {
                lemma_assoc_put_get(before, key, kept, q);
            }
        }
        Some((uri, count))
    }

    /// The diagnostics last published for a document.
    pub fn diagnostics_for(&self, uri: &str) -> (r: Option<JsonValue>)
        ensures
            match r {
                Some(v) => diag_view(self.diagnostics@, uri@) == Some(v@),
                None => diag_view(self.diagnostics@, uri@) is None,
            },
    {
        match assoc_find(&self.diagnostics, uri) {
            Some(i) => Some(self.diagnostics[i].1.deep_copy()),
            None => None,
        }
    }

    /// Requests are answered only while the server runs.
    pub fn check_running(&self) -> (r: Result<(), ServiceError>)
        ensures
            (self.status is Ready || self.status is WarmingUp) ==> r is Ok,
            !(self.status is Ready || self.status is WarmingUp) ==> (r matches Err(e) && e is ProjectNotReady
                && e.text() == ready_error_text(self.status)),
    {
        if self.status.is_running() {
            return Ok(());
        }
        let mut m = "Проект еще не готов. Текущий статус: ".to_string();
        push_str(&mut m, project_status_label(&self.status));
        push_str(&mut m, ".");
        Err(ServiceError::ProjectNotReady(m))
    }

    /// A project is edited only while it is stopped.
    pub fn check_editable(&self) -> (r: Result<(), ServiceError>)
        ensures
            self.status is Stopped ==> r is Ok,
            !(self.status is Stopped) ==> (r matches Err(e) && e is InvalidRequest
                && e.text() == "Чтобы изменить проект, сначала остановите его."@),
    {
        if self.status.is_stopped() {
            Ok(())
        } else {
            Err(ServiceError::InvalidRequest("Чтобы изменить проект, сначала остановите его.".to_string()))
        }
    }

    /// A project is removed only while it is stopped.
    pub fn check_removable(&self) -> (r: Result<(), ServiceError>)
        ensures
            self.status is Stopped ==> r is Ok,
            !(self.status is Stopped) ==> (r matches Err(e) && e is InvalidRequest
                && e.text() == "Нельзя удалить запущенный проект. Сначала остановите его."@),
    {
        if self.status.is_stopped() {
            Ok(())
        } else {
            Err(ServiceError::InvalidRequest("Нельзя удалить запущенный проект. Сначала остановите его.".to_string()))
        }
    }

    /// The project takes the checked name and roots and the rest of the
    /// request (its JVM arguments trimmed), and the time of the change; its
    /// id, creation time and running state stay.
    pub fn apply_update(
        &mut self,
        name: String,
        root_path: String,
        project_root_path: String,
        input: &ProjectUpsert,
        updated_at: String,
    )
        ensures
            final(self).config.id == old(self).config.id,
            final(self).config.created_at == old(self).config.created_at,
            final(self).config.name == name,
            final(self).config.root_path == root_path,
            final(self).config.project_root_path == project_root_path,
            final(self).config.jvm_args@ == trim(input.jvm_args@),
            final(self).config.bsl_config@ == input.bsl_config@,
            final(self).config.debug == input.debug,
            final(self).config.updated_at == updated_at,
            final(self).status == old(self).status,
            final(self).diagnostics == old(self).diagnostics,
            final(self).opened_files == old(self).opened_files,
            final(self).progress == old(self).progress,
            final(self).progress_token == old(self).progress_token,
    {
        self.config.name = name;
        self.config.root_path = root_path;
        self.config.project_root_path = project_root_path;
        self.config.jvm_args = trim_str(input.jvm_args.as_str());
        self.config.bsl_config = input.bsl_config.clone();
        self.config.debug = input.debug;
        self.config.updated_at = updated_at;
    }

    /// The version of a document opened under this path, if it was opened.
    pub fn opened_version(&self, path: &str) -> (r: Option<u32>)
        ensures
            r == assoc_get(self.opened_files@, path@),
    {
        match assoc_find(&self.opened_files, path) {
            Some(i) => Some(self.opened_files[i].1),
            None => None,
        }
    }

    /// A document was opened: its version is 1.
    pub fn record_opened(&mut self, path: &str)
        ensures
            forall|q: Seq<char>| #[trigger] assoc_get(final(self).opened_files@, q) == (if q == path@ {
                Some(1u32)
            } else {
                assoc_get(old(self).opened_files@, q)
            }),
            final(self).config == old(self).config,
            final(self).status == old(self).status,
            final(self).diagnostics == old(self).diagnostics,
            final(self).progress == old(self).progress,
            final(self).progress_token == old(self).progress_token,
    {
        let ghost before = self.opened_files@;
        let key = path.to_string();
        assoc_set(&mut self.opened_files, key, 1);
        proof {
            assert forall|q: Seq<char>| #[trigger] assoc_get(self.opened_files@, q) == (if q == path@ {
                Some(1u32)
            } else {
                assoc_get(before, q)
            }) by {
                lemma_assoc_put_get(before, key, 1u32, q);
            }
        }
    }

    /// A document opened at version `prev` is sent again: its version goes
    /// up by one and the diagnostics held for its URI are dropped until the
    /// server publishes new ones.
    pub fn record_changed(&mut self, path: &str, uri: &str, prev: u32) -> (r: u32)
        requires
            prev < u32::MAX,
        ensures
            r == prev + 1,
            forall|q: Seq<char>| #[trigger] assoc_get(final(self).opened_files@, q) == (if q == path@ {
                Some(r)
            } else {
                assoc_get(old(self).opened_files@, q)
            }),
            forall|q: Seq<char>| #[trigger] diag_view(final(self).diagnostics@, q) == (if q == uri@ {
                None
            } else {
                diag_view(old(self).diagnostics@, q)
            }),
            final(self).config == old(self).config,
            final(self).status == old(self).status,
            final(self).progress == old(self).progress,
            final(self).progress_token == old(self).progress_token,
    {
        let ghost diags = self.diagnostics@;
        assoc_remove(&mut self.diagnostics, uri);
        proof {
            assert forall|q: Seq<char>| #[trigger] diag_view(self.diagnostics@, q) == (if q == uri@ {
                None
            } else {
                diag_view(diags, q)
            }) by {
                lemma_assoc_without_get(diags, uri@, q);
            }
        }
        let version = prev + 1;
        let ghost before = self.opened_files@;
        let key = path.to_string();
        assoc_set(&mut self.opened_files, key, version);
        proof {
            assert forall|q: Seq<char>| #[trigger] assoc_get(self.opened_files@, q) == (if q == path@ {
                Some(version)
            } else {
                assoc_get(before, q)
            }) by {
                lemma_assoc_put_get(before, key, version, q);
            }
        }
        version
    }
}


proof fn lemma_kinds_differ()
    ensures
        "begin"@ != "report"@,
        "begin"@ != "end"@,
        "report"@ != "end"@,
{
    reveal_strlit("begin");
    reveal_strlit("report");
    reveal_strlit("end");
    assert("begin"@.len() == 5 && "report"@.len() == 6 && "end"@.len() == 3);
}

/// While a main progress is followed, a new `begin` changes nothing.
pub proof fn law_begin_ignored_while_following(m: TrackerModel, params: Json)
    requires
        m.token is Some,
        progress_kind(event_value(params)) == "begin"@,
    ensures
        progress_step(m, params) == m,
{
}

/// `report` and `end` values of another token than the main one change
/// nothing while a main progress is followed.
pub proof fn law_other_token_ignored(m: TrackerModel, params: Json)
    requires
        m.token is Some,
        event_token(params) != m.token,
        progress_kind(event_value(params)) == "report"@ || progress_kind(event_value(params)) == "end"@,
    ensures
        progress_step(m, params) == m,
{
    lemma_kinds_differ();
}

/// The first `report` while no progress is followed makes its token the
/// main one, and its values are taken.
pub proof fn law_report_adopts_token(m: TrackerModel, params: Json)
    requires
        m.token is None,
        progress_kind(event_value(params)) == "report"@,
    ensures
        progress_step(m, params).token == event_token(params),
        progress_step(m, params).progress == applied(m.progress, event_value(params)),
{
    lemma_kinds_differ();
}

/// The `end` of the main progress stops following it: the progress is
/// inactive at 100%.
pub proof fn law_main_end_finishes(m: TrackerModel, params: Json)
    requires
        m.token is Some,
        event_token(params) == m.token,
        progress_kind(event_value(params)) == "end"@,
    ensures
        progress_step(m, params).token is None,
        !progress_step(m, params).progress.active,
        progress_step(m, params).progress.percentage == Some(100u32),
{
    lemma_kinds_differ();
}

/// Progress only ever makes a project ready, and only a warming-up one.
pub proof fn law_ready_only_from_warming_up(m: TrackerModel, params: Json)
    ensures
        progress_step(m, params).status == m.status || (m.status is WarmingUp && progress_step(
            m,
            params,
        ).status is Ready),
{
}

/// Diagnostics published for a document are the ones read back for it,
/// until the next publication; those of other documents stay as they were.
pub proof fn law_published_diagnostics_read_back(
    held: Seq<(String, JsonValue)>,
    uri: String,
    params: JsonValue,
    q: Seq<char>,
)
    ensures
        diag_view(crate::assoc::assoc_put(held, uri, params), q) == (if q == uri@ {
            Some(params@)
        } else {
            diag_view(held, q)
        }),
{
    lemma_assoc_put_get(held, uri, params, q);
}

/// A project as the service loads it reports itself stopped, with no
/// error and no indexing progress.
pub proof fn law_loaded_project_reports_stopped(s: ProjectState)
    requires
        s.status@ == StatusModel::Stopped,
        s.progress@ == no_progress(),
    ensures
        crate::models::status_name(s.status) == "stopped"@,
        crate::models::status_error(s.status) is None,
        s.progress@ == no_progress(),
{
    match s.status {
        ProjectStatus::Stopped => {},
        _ => {},
    }
}

/// What a progress value does to the progress: `begin` starts it with its
/// title and percentage; `report` keeps it running and replaces only what
/// it carries, so a report without a message keeps the message and one
/// without a percentage keeps the percentage; `end` stops it at 100% with
/// its message; any other value changes nothing. File counts never change.
pub proof fn law_progress_values(p: ProgressModel, value: Json)
    ensures
        applied(p, value).files_done == p.files_done,
        applied(p, value).files_total == p.files_total,
        json_str(json_get(value, "kind"@)) == Some("begin"@) ==> {
            &&& applied(p, value).active
            &&& applied(p, value).message == json_str(json_get(value, "title"@))
            &&& match json_u64(json_get(value, "percentage"@)) {
                Some(n) => n <= u32::MAX ==> applied(p, value).percentage == Some(n as u32),
                None => applied(p, value).percentage is None,
            }
        },
        json_str(json_get(value, "kind"@)) == Some("report"@) ==> {
            &&& applied(p, value).active
            &&& applied(p, value).message == match json_str(json_get(value, "message"@)) {
                Some(m) => Some(m),
                None => p.message,
            }
            &&& match json_u64(json_get(value, "percentage"@)) {
                Some(n) => n <= u32::MAX ==> applied(p, value).percentage == Some(n as u32),
                None => applied(p, value).percentage == p.percentage,
            }
        },
        json_str(json_get(value, "kind"@)) == Some("end"@) ==> {
            &&& !applied(p, value).active
            &&& applied(p, value).percentage == Some(100u32)
            &&& applied(p, value).message == json_str(json_get(value, "message"@))
        },
        !(json_str(json_get(value, "kind"@)) == Some("begin"@) || json_str(json_get(value, "kind"@)) == Some(
            "report"@,
        ) || json_str(json_get(value, "kind"@)) == Some("end"@)) ==> applied(p, value) == p,
{
    reveal_strlit("begin");
    reveal_strlit("report");
    reveal_strlit("end");
    reveal_strlit("");
    assert("begin"@.len() == 5 && "report"@.len() == 6 && "end"@.len() == 3 && ""@.len() == 0);
}

/// A report that carries no message, after a begin, leaves the begin's
/// title shown.
pub proof fn law_report_keeps_begin_title(p: ProgressModel, begin: Json, report: Json)
    requires
        json_str(json_get(begin, "kind"@)) == Some("begin"@),
        json_str(json_get(report, "kind"@)) == Some("report"@),
        json_str(json_get(report, "message"@)) is None,
    ensures
        applied(applied(p, begin), report).message == json_str(json_get(begin, "title"@)),
        applied(applied(p, begin), report).active,
{
    law_progress_values(p, begin);
    law_progress_values(applied(p, begin), report);
}

} // verus!
