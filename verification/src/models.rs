//! Projects, their status and their indexing progress.
use vstd::prelude::*;

verus! {

/// A project as it is stored.
#[derive(Clone, Debug)]
pub struct StoredProject {
    pub id: String,
    pub name: String,
    pub root_path: String,
    /// Root of the whole project, where agents work; file paths are resolved
    /// against it.
    pub project_root_path: String,
    pub jvm_args: String,
    pub bsl_config: String,
    pub debug: bool,
    pub created_at: String,
    pub updated_at: String,
}

impl StoredProject {
    /// A copy with the same contents.
    pub fn copy(&self) -> (r: StoredProject)
        ensures
            r.id@ == self.id@,
            r.name@ == self.name@,
            r.root_path@ == self.root_path@,
            r.project_root_path@ == self.project_root_path@,
            r.jvm_args@ == self.jvm_args@,
            r.bsl_config@ == self.bsl_config@,
            r.debug == self.debug,
            r.created_at@ == self.created_at@,
            r.updated_at@ == self.updated_at@,
    {
        StoredProject {
            id: self.id.clone(),
            name: self.name.clone(),
            root_path: self.root_path.clone(),
            project_root_path: self.project_root_path.clone(),
            jvm_args: self.jvm_args.clone(),
            bsl_config: self.bsl_config.clone(),
            debug: self.debug,
            created_at: self.created_at.clone(),
            updated_at: self.updated_at.clone(),
        }
    }
}

/// A request to create or change a project.
#[derive(Clone, Debug)]
pub struct ProjectUpsert {
    pub name: String,
    pub root_path: String,
    pub project_root_path: String,
    pub jvm_args: String,
    pub bsl_config: String,
    pub debug: bool,
}

/// How far the language server has indexed the project.
#[derive(Clone, Debug)]
pub struct IndexingProgress {
    pub percentage: Option<u32>,
    pub files_done: Option<u32>,
    pub files_total: Option<u32>,
    pub message: Option<String>,
    pub active: bool,
}

/// The model of a progress: the message is taken by its characters.
pub struct ProgressModel {
    pub percentage: Option<u32>,
    pub files_done: Option<u32>,
    pub files_total: Option<u32>,
    pub message: Option<Seq<char>>,
    pub active: bool,
}

pub open spec fn opt_text(o: Option<String>) -> Option<Seq<char>> {
    match o {
        Some(s) => Some(s@),
        None => None,
    }
}

impl View for IndexingProgress {
    type V = ProgressModel;

    open spec fn view(&self) -> ProgressModel {
        ProgressModel {
            percentage: self.percentage,
            files_done: self.files_done,
            files_total: self.files_total,
            message: opt_text(self.message),
            active: self.active,
        }
    }
}

pub open spec fn no_progress() -> ProgressModel {
    ProgressModel { percentage: None, files_done: None, files_total: None, message: None, active: false }
}

impl Default for IndexingProgress {
    fn default() -> (r: IndexingProgress)
        ensures
            r@ == no_progress(),
    {
        IndexingProgress { percentage: None, files_done: None, files_total: None, message: None, active: false }
    }
}

pub fn copy_text(o: &Option<String>) -> (r: Option<String>)
    ensures
        opt_text(r) == opt_text(*o),
{
    match o {
        Some(s) => Some(s.clone()),
        None => None,
    }
}

impl IndexingProgress {
    /// A copy with the same contents.
    pub fn copy(&self) -> (r: IndexingProgress)
        ensures
            r@ == self@,
    {
        IndexingProgress {
            percentage: self.percentage,
            files_done: self.files_done,
            files_total: self.files_total,
            message: copy_text(&self.message),
            active: self.active,
        }
    }
}

/// The state of a project's language server.
#[derive(Clone, Debug)]
pub enum ProjectStatus {
    Stopped,
    Starting,
    WarmingUp,
    Ready,
    Error(String),
}

/// A status as it is reported: its name and, for an error, the message.
#[derive(Clone, Debug)]
pub struct ProjectStatusInfo {
    pub status: String,
    pub error: Option<String>,
}

pub open spec fn status_name(s: ProjectStatus) -> Seq<char> {
    match s {
        ProjectStatus::Stopped => "stopped"@,
        ProjectStatus::Starting => "starting"@,
        ProjectStatus::WarmingUp => "warming_up"@,
        ProjectStatus::Ready => "ready"@,
        ProjectStatus::Error(_) => "error"@,
    }
}

pub open spec fn status_error(s: ProjectStatus) -> Option<Seq<char>> {
    match s {
        ProjectStatus::Error(m) => Some(m@),
        _ => None,
    }
}

impl ProjectStatus {
    pub fn info(&self) -> (r: ProjectStatusInfo)
        ensures
            r.status@ == status_name(*self),
            opt_text(r.error) == status_error(*self),
    {
        match self {
            ProjectStatus::Stopped => ProjectStatusInfo { status: "stopped".to_string(), error: None },
            ProjectStatus::Starting => ProjectStatusInfo { status: "starting".to_string(), error: None },
            ProjectStatus::WarmingUp => ProjectStatusInfo { status: "warming_up".to_string(), error: None },
            ProjectStatus::Ready => ProjectStatusInfo { status: "ready".to_string(), error: None },
            ProjectStatus::Error(message) => ProjectStatusInfo {
                status: "error".to_string(),
                error: Some(message.clone()),
            },
        }
    }

    pub fn is_ready(&self) -> (r: bool)
        ensures
            r == (*self is Ready),
    {
        match self {
            ProjectStatus::Ready => true,
            _ => false,
        }
    }

    /// The server answers requests: it is warming up or ready.
    pub fn is_running(&self) -> (r: bool)
        ensures
            r == (*self is Ready || *self is WarmingUp),
    {
        match self {
            ProjectStatus::Ready | ProjectStatus::WarmingUp => true,
            _ => false,
        }
    }

    pub fn is_stopped(&self) -> (r: bool)
        ensures
            r == (*self is Stopped),
    {
        match self {
            ProjectStatus::Stopped => true,
            _ => false,
        }
    }

    /// A copy with the same contents.
    pub fn copy(&self) -> (r: ProjectStatus)
        ensures
            r@ == self@,
    {
        match self {
            ProjectStatus::Stopped => ProjectStatus::Stopped,
            ProjectStatus::Starting => ProjectStatus::Starting,
            ProjectStatus::WarmingUp => ProjectStatus::WarmingUp,
            ProjectStatus::Ready => ProjectStatus::Ready,
            ProjectStatus::Error(m) => ProjectStatus::Error(m.clone()),
        }
    }
}

/// The model of a status: an error's message taken by its characters.
pub enum StatusModel {
    Stopped,
    Starting,
    WarmingUp,
    Ready,
    Error(Seq<char>),
}

impl View for ProjectStatus {
    type V = StatusModel;

    open spec fn view(&self) -> StatusModel {
        match self {
            ProjectStatus::Stopped => StatusModel::Stopped,
            ProjectStatus::Starting => StatusModel::Starting,
            ProjectStatus::WarmingUp => StatusModel::WarmingUp,
            ProjectStatus::Ready => StatusModel::Ready,
            ProjectStatus::Error(m) => StatusModel::Error(m@),
        }
    }
}

/// A project with its status and progress, as the service reports it.
#[derive(Clone, Debug)]
pub struct ProjectSnapshot {
    pub project: StoredProject,
    pub status: ProjectStatusInfo,
    pub progress: IndexingProgress,
}

/// What the check of the installed Java found.
#[derive(Clone, Debug)]
pub struct JavaCheckResult {
    pub found: bool,
    pub version: Option<String>,
    pub raw_output: String,
    pub ok: bool,
}

} // verus!
