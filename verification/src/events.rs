//! What the service tells its listeners, and which of it concerns a project.
use vstd::prelude::*;

use crate::models::{IndexingProgress, ProjectStatusInfo};
use crate::text::str_eq;

verus! {

/// An event of the service.
pub enum LspEvent {
    ProjectStatusChanged { id: String, status: ProjectStatusInfo },
    IndexingProgress { id: String, progress: IndexingProgress },
    DiagnosticsUpdated { id: String, file: String, count: usize },
    LogLine { id: String, line: String },
    SettingsChanged { restart_required: bool },
    ProjectsChanged,
}

/// The project an event concerns, if it concerns one.
pub open spec fn event_project(e: LspEvent) -> Option<Seq<char>> {
    match e {
        LspEvent::ProjectStatusChanged { id, .. } => Some(id@),
        LspEvent::IndexingProgress { id, .. } => Some(id@),
        LspEvent::DiagnosticsUpdated { id, .. } => Some(id@),
        LspEvent::LogLine { id, .. } => Some(id@),
        LspEvent::SettingsChanged { .. } => None,
        LspEvent::ProjectsChanged => None,
    }
}

pub fn event_project_id(event: &LspEvent) -> (r: Option<&String>)
    ensures
        match r {
            Some(id) => event_project(*event) == Some(id@),
            None => event_project(*event) is None,
        },
        match *event {
            LspEvent::ProjectStatusChanged { id, .. } => r == Some(&id),
            LspEvent::IndexingProgress { id, .. } => r == Some(&id),
            LspEvent::DiagnosticsUpdated { id, .. } => r == Some(&id),
            LspEvent::LogLine { id, .. } => r == Some(&id),
            LspEvent::SettingsChanged { .. } => r is None,
            LspEvent::ProjectsChanged => r is None,
        },
{
    match event {
        LspEvent::ProjectStatusChanged { id, .. } => Some(id),
        LspEvent::IndexingProgress { id, .. } => Some(id),
        LspEvent::DiagnosticsUpdated { id, .. } => Some(id),
        LspEvent::LogLine { id, .. } => Some(id),
        LspEvent::SettingsChanged { .. } => None,
        LspEvent::ProjectsChanged => None,
    }
}

/// A listener that follows one project gets the events of that project and
/// those of no project; one that follows none gets every event.
pub open spec fn delivered(filter: Option<Seq<char>>, e: LspEvent) -> bool {
    match (filter, event_project(e)) {
        (Some(p), Some(id)) => p == id,
        _ => true,
    }
}

pub fn event_passes(filter: Option<&str>, event: &LspEvent) -> (r: bool)
    ensures
        r == delivered(
            match filter {
                Some(p) => Some(p@),
                None => None,
            },
            *event,
        ),
        match *event {
            LspEvent::ProjectStatusChanged { id, .. } => r == (match filter {
                Some(f) => f@ == id@,
                None => true,
            }),
            LspEvent::IndexingProgress { id, .. } => r == (match filter {
                Some(f) => f@ == id@,
                None => true,
            }),
            LspEvent::DiagnosticsUpdated { id, .. } => r == (match filter {
                Some(f) => f@ == id@,
                None => true,
            }),
            LspEvent::LogLine { id, .. } => r == (match filter {
                Some(f) => f@ == id@,
                None => true,
            }),
            LspEvent::SettingsChanged { .. } => r,
            LspEvent::ProjectsChanged => r,
        },
{
    match (filter, event_project_id(event)) {
        (Some(p), Some(id)) => str_eq(p, id.as_str()),
        _ => true,
    }
}

/// Every event about a project names that project, so a listener that
/// follows one project gets that project's status, progress, diagnostics
/// and log lines and no other project's; events about no project reach
/// every listener.
pub proof fn law_project_events_reach_their_followers(e: LspEvent, p: Seq<char>)
    ensures
        match e {
            LspEvent::ProjectStatusChanged { id, .. } => event_project(e) == Some(id@) && (delivered(Some(p), e)
                <==> p == id@),
            LspEvent::IndexingProgress { id, .. } => event_project(e) == Some(id@) && (delivered(Some(p), e)
                <==> p == id@),
            LspEvent::DiagnosticsUpdated { id, .. } => event_project(e) == Some(id@) && (delivered(Some(p), e)
                <==> p == id@),
            LspEvent::LogLine { id, .. } => event_project(e) == Some(id@) && (delivered(Some(p), e) <==> p == id@),
            LspEvent::SettingsChanged { .. } => event_project(e) is None && delivered(Some(p), e),
            LspEvent::ProjectsChanged => event_project(e) is None && delivered(Some(p), e),
        },
        delivered(None, e),
{
}

} // verus!
