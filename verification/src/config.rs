//! The application's settings.
use vstd::prelude::*;

verus! {

/// The settings of the service.
#[derive(Clone, Debug)]
pub struct AppConfig {
    pub jar_path: String,
    pub listen_host: String,
    pub http_port: u16,
    pub log_level: String,
    pub mcp_diagnostics_enabled: bool,
    pub mcp_diagnostics_port: u16,
    pub mcp_navigation_enabled: bool,
    pub mcp_navigation_port: u16,
    /// Whether the MCP tools answer in TOON rather than pretty JSON.
    pub use_toon_format: bool,
}

pub fn default_listen_host() -> (r: String)
    ensures
        r@ == "0.0.0.0"@,
{
    "0.0.0.0".to_string()
}

pub fn default_http_port() -> (r: u16)
    ensures
        r == 4000,
{
    4000
}

pub fn default_log_level() -> (r: String)
    ensures
        r@ == "info"@,
{
    "info".to_string()
}

pub fn default_mcp_diagnostics_port() -> (r: u16)
    ensures
        r == 9011,
{
    9011
}

pub fn default_mcp_navigation_port() -> (r: u16)
    ensures
        r == 9012,
{
    9012
}

impl Default for AppConfig {
    fn default() -> (r: AppConfig)
        ensures
            r.jar_path@ == Seq::<char>::empty(),
            r.listen_host@ == "0.0.0.0"@,
            r.http_port == 4000,
            r.log_level@ == "info"@,
            !r.mcp_diagnostics_enabled,
            r.mcp_diagnostics_port == 9011,
            !r.mcp_navigation_enabled,
            r.mcp_navigation_port == 9012,
            !r.use_toon_format,
    {
        AppConfig {
            jar_path: String::new(),
            listen_host: default_listen_host(),
            http_port: default_http_port(),
            log_level: default_log_level(),
            mcp_diagnostics_enabled: false,
            mcp_diagnostics_port: default_mcp_diagnostics_port(),
            mcp_navigation_enabled: false,
            mcp_navigation_port: default_mcp_navigation_port(),
            use_toon_format: false,
        }
    }
}

/// A change of settings needs a restart when it moves what the servers
/// listen on: the host, the HTTP port, or whether and where the two MCP
/// servers run.
pub open spec fn needs_restart(current: AppConfig, next: AppConfig) -> bool {
    ||| current.listen_host@ != next.listen_host@
    ||| current.http_port != next.http_port
    ||| current.mcp_diagnostics_enabled != next.mcp_diagnostics_enabled
    ||| current.mcp_diagnostics_port != next.mcp_diagnostics_port
    ||| current.mcp_navigation_enabled != next.mcp_navigation_enabled
    ||| current.mcp_navigation_port != next.mcp_navigation_port
}

impl AppConfig {
    /// Whether replacing these settings by `next` needs a restart.
    pub fn restart_required(&self, next: &AppConfig) -> (r: bool)
        ensures
            r == needs_restart(*self, *next),
    {
        !crate::text::str_eq(self.listen_host.as_str(), next.listen_host.as_str())
            || self.http_port != next.http_port
            || self.mcp_diagnostics_enabled != next.mcp_diagnostics_enabled
            || self.mcp_diagnostics_port != next.mcp_diagnostics_port
            || self.mcp_navigation_enabled != next.mcp_navigation_enabled
            || self.mcp_navigation_port != next.mcp_navigation_port
    }
}


/// The settings as the API answers them: the settings, where the files
/// are, and whether the last change needs a restart.
#[derive(Clone, Debug)]
pub struct SettingsResponse {
    pub jar_path: String,
    pub listen_host: String,
    pub http_port: u16,
    pub log_level: String,
    pub mcp_diagnostics_enabled: bool,
    pub mcp_diagnostics_port: u16,
    pub mcp_navigation_enabled: bool,
    pub mcp_navigation_port: u16,
    pub use_toon_format: bool,
    pub config_path: String,
    pub db_path: String,
    pub logs_dir: String,
    pub restart_required: bool,
}

pub fn settings_response(config: AppConfig, paths: &crate::paths::AppPaths, restart_required: bool) -> (r: SettingsResponse)
    ensures
        r.jar_path == config.jar_path,
        r.listen_host == config.listen_host,
        r.http_port == config.http_port,
        r.log_level == config.log_level,
        r.mcp_diagnostics_enabled == config.mcp_diagnostics_enabled,
        r.mcp_diagnostics_port == config.mcp_diagnostics_port,
        r.mcp_navigation_enabled == config.mcp_navigation_enabled,
        r.mcp_navigation_port == config.mcp_navigation_port,
        r.use_toon_format == config.use_toon_format,
        r.config_path@ == paths.config_path@,
        r.db_path@ == paths.db_path@,
        r.logs_dir@ == paths.logs_dir@,
        r.restart_required == restart_required,
{
    SettingsResponse {
        jar_path: config.jar_path,
        listen_host: config.listen_host,
        http_port: config.http_port,
        log_level: config.log_level,
        mcp_diagnostics_enabled: config.mcp_diagnostics_enabled,
        mcp_diagnostics_port: config.mcp_diagnostics_port,
        mcp_navigation_enabled: config.mcp_navigation_enabled,
        mcp_navigation_port: config.mcp_navigation_port,
        use_toon_format: config.use_toon_format,
        config_path: paths.config_path.clone(),
        db_path: paths.db_path.clone(),
        logs_dir: paths.logs_dir.clone(),
        restart_required,
    }
}

} // verus!
