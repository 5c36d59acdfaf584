//! Where the application keeps its files.
use vstd::prelude::*;

use crate::logging::joined_path;

verus! {

/// The directories and files of the application.
#[derive(Clone, Debug)]
pub struct AppPaths {
    pub config_dir: String,
    pub data_local_dir: String,
    pub state_dir: String,
    pub logs_dir: String,
    pub bsl_configs_dir: String,
    pub config_path: String,
    pub db_path: String,
    pub runtime_path: String,
}

/// The parent directory of a path, as `Path::parent` gives it.
pub uninterp spec fn parent_path(path: Seq<char>) -> Option<Seq<char>>;

/// Calls `Path::parent`: the result is `parent_path` of the path.
#[verifier::external_body]
pub(crate) fn path_parent(path: &str) -> (r: Option<String>)
    ensures
        match r {
            Some(p) => parent_path(path@) == Some(p@),
            None => parent_path(path@) is None,
        },
{
    match std::path::Path::new(path).parent() {
        Some(p) => Some(p.to_string_lossy().to_string()),
        None => None,
    }
}

impl AppPaths {
    /// The layout under the directories the system gives the application:
    /// logs and the runtime record in the state directory (the local data
    /// directory where the system has none), the database and the
    /// generated server configurations in the local data directory.
    pub fn from_dirs(config_dir: &str, data_local_dir: &str, state_dir: Option<&str>) -> (r: AppPaths)
        ensures
            r.config_dir@ == config_dir@,
            r.data_local_dir@ == data_local_dir@,
            r.state_dir@ == (match state_dir {
                Some(s) => s@,
                None => data_local_dir@,
            }),
            r.logs_dir@ == joined_path(r.state_dir@, "logs"@),
            r.bsl_configs_dir@ == joined_path(data_local_dir@, "bsl-configs"@),
            r.config_path@ == joined_path(config_dir@, "config.toml"@),
            r.db_path@ == joined_path(data_local_dir@, "data.db"@),
            r.runtime_path@ == joined_path(r.state_dir@, "runtime.json"@),
    {
        let state = match state_dir {
            Some(s) => s.to_string(),
            None => data_local_dir.to_string(),
        };
        AppPaths {
            config_dir: config_dir.to_string(),
            data_local_dir: data_local_dir.to_string(),
            logs_dir: crate::logging::join_path(state.as_str(), "logs"),
            bsl_configs_dir: crate::logging::join_path(data_local_dir, "bsl-configs"),
            config_path: crate::logging::join_path(config_dir, "config.toml"),
            db_path: crate::logging::join_path(data_local_dir, "data.db"),
            runtime_path: crate::logging::join_path(state.as_str(), "runtime.json"),
            state_dir: state,
        }
    }
}

/// One step of looking for `.env` from a directory upwards.
pub enum EnvSearch {
    /// The file is there.
    Found(String),
    /// Look in the parent directory next.
    Next(String),
    /// The root was reached without finding it.
    NotFound,
}

/// The `.env` file looked for in a directory.
pub fn env_candidate(dir: &str) -> (r: String)
    ensures
        r@ == joined_path(dir@, ".env"@),
{
    crate::logging::join_path(dir, ".env")
}

/// Given whether the candidate of `dir` exists: found, or go on with the
/// parent, or stop at the root.
pub fn env_search_step(dir: &str, candidate_exists: bool) -> (r: EnvSearch)
    ensures
        candidate_exists ==> (r matches EnvSearch::Found(p) && p@ == joined_path(dir@, ".env"@)),
        !candidate_exists ==> match parent_path(dir@) {
            Some(p) => r matches EnvSearch::Next(n) && n@ == p,
            None => r is NotFound,
        },
{
    if candidate_exists {
        return EnvSearch::Found(env_candidate(dir));
    }
    match path_parent(dir) {
        Some(p) => EnvSearch::Next(p),
        None => EnvSearch::NotFound,
    }
}

} // verus!
