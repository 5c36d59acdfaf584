use lsp_skill::config::AppConfig;
use lsp_skill::error::{ErrorResponse, ServiceError};
use lsp_skill::java::{extract_java_version, java_check_result, java_major_version};
use lsp_skill::models::{IndexingProgress, ProjectStatus};

#[test]
fn error_codes_and_statuses() {
    let cases = vec![
        (ServiceError::ServerNotRunning("a".to_string()), "server_not_running", 503),
        (ServiceError::ProjectNotReady("a".to_string()), "project_not_ready", 409),
        (ServiceError::FileNotFound("a".to_string()), "file_not_found", 404),
        (ServiceError::InvalidRequest("a".to_string()), "invalid_request", 400),
        (ServiceError::JavaNotFound("a".to_string()), "java_not_found", 400),
        (ServiceError::PortInUse("a".to_string()), "port_in_use", 409),
        (ServiceError::NotFound("a".to_string()), "not_found", 404),
        (ServiceError::Internal("a".to_string()), "internal_error", 500),
    ];
    for (e, code, status) in cases {
        assert_eq!(e.code(), code);
        assert_eq!(e.http_status(), status);
        assert_eq!(e.message(), "a");
    }
}

#[test]
fn error_response_carries_message_and_code() {
    let e = ServiceError::NotFound("Проект с id x не найден.".to_string());
    let r = ErrorResponse::from_error(&e);
    assert_eq!(r.error, "Проект с id x не найден.");
    assert_eq!(r.code, "not_found");
    assert_eq!(r.to_text(), "Проект с id x не найден. (not_found)");
}

#[test]
fn status_predicates_and_info() {
    assert!(ProjectStatus::Ready.is_ready());
    assert!(ProjectStatus::Ready.is_running());
    assert!(ProjectStatus::WarmingUp.is_running());
    assert!(!ProjectStatus::WarmingUp.is_ready());
    assert!(!ProjectStatus::Starting.is_running());
    assert!(ProjectStatus::Stopped.is_stopped());
    assert!(!ProjectStatus::Error("x".to_string()).is_stopped());
    let info = ProjectStatus::Error("boom".to_string()).info();
    assert_eq!(info.status, "error");
    assert_eq!(info.error.as_deref(), Some("boom"));
    let info = ProjectStatus::WarmingUp.info();
    assert_eq!(info.status, "warming_up");
    assert_eq!(info.error, None);
    let p = IndexingProgress::default();
    assert_eq!(p.percentage, None);
    assert!(!p.active);
}

#[test]
fn default_config() {
    let c = AppConfig::default();
    assert_eq!(c.jar_path, "");
    assert_eq!(c.listen_host, "0.0.0.0");
    assert_eq!(c.http_port, 4000);
    assert_eq!(c.log_level, "info");
    assert!(!c.mcp_diagnostics_enabled);
    assert_eq!(c.mcp_diagnostics_port, 9011);
    assert!(!c.mcp_navigation_enabled);
    assert_eq!(c.mcp_navigation_port, 9012);
}

#[test]
fn restart_needed_only_for_listeners() {
    let a = AppConfig::default();
    let mut b = AppConfig::default();
    b.jar_path = "/x.jar".to_string();
    b.log_level = "debug".to_string();
    assert!(!a.restart_required(&b));
    b.mcp_navigation_enabled = true;
    assert!(a.restart_required(&b));
    let mut c = AppConfig::default();
    c.listen_host = "127.0.0.1".to_string();
    assert!(a.restart_required(&c));
}

#[test]
fn java_version_is_read_between_quotes() {
    let out = "openjdk version \"17.0.9\" 2023-10-17\nOpenJDK Runtime Environment";
    assert_eq!(extract_java_version(out).as_deref(), Some("17.0.9"));
    assert_eq!(extract_java_version("no quotes here"), None);
    assert_eq!(extract_java_version("one \" quote"), None);
    assert_eq!(java_major_version("17.0.9"), Some(17));
    assert_eq!(java_major_version("1.8.0_392"), Some(8));
    assert_eq!(java_major_version("21"), Some(21));
    assert_eq!(java_major_version("1"), None);
    assert_eq!(java_major_version("+11.0"), Some(11));
    assert_eq!(java_major_version("x.1"), None);
    assert_eq!(java_major_version("99999999999.0"), None);
}

#[test]
fn java_check_decides_on_version_17() {
    let r = java_check_result(Ok(("".to_string(), "java version \"1.8.0_392\"\n".to_string())));
    assert!(r.found);
    assert_eq!(r.version.as_deref(), Some("1.8.0_392"));
    assert!(!r.ok);
    let r = java_check_result(Ok(("openjdk version \"21.0.1\"".to_string(), String::new())));
    assert!(r.ok);
    let r = java_check_result(Err("No such file or directory (os error 2)".to_string()));
    assert!(!r.found);
    assert!(!r.ok);
    assert_eq!(r.raw_output, "No such file or directory (os error 2)");
}
