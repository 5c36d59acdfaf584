use lsp_skill::browse::{browse_listing, browse_start, list_entries};
use lsp_skill::models::{IndexingProgress, ProjectSnapshot, ProjectStatusInfo, StoredProject};
use lsp_skill::ui::{
    badge_class, progress_bar, push_log_line, ready_notice, set_project_progress, set_project_status, status_label,
    browse_request, entry_path, on_log_line, BrowseMode, PROJECT_LOG_LINES_LIMIT,
};
use lsp_skill::cli::{
    api_url, connection_error, extract_error_message, normalize_cli_file_path, parse_project_id, path_var_contains,
    position_request_body,
};
use lsp_skill::events::{event_passes, event_project_id, LspEvent};
use lsp_skill::json::{json_string, json_u64_value, object_from_entries, JsonValue};
use lsp_skill::logging::{
    cleanup_plan, is_project_log_file, needs_rotation, project_log_file_name, project_log_prefix, rotated_file_name,
    stable_order, tail_lines, LogFile, MAX_FILE_BYTES,
};
use lsp_skill::mcp::{
    plan_tool_call, route_method, server_name, tool_error, tool_name, tool_names, tool_success, CallRefusal, McpKind,
    McpMethod, ToolCall,
};
use lsp_skill::service::{install, systemd_unit};

fn obj(entries: Vec<(&str, JsonValue)>) -> JsonValue {
    object_from_entries(entries.into_iter().map(|(k, v)| (k.to_string(), v)).collect())
}

#[test]
fn log_names() {
    assert_eq!(project_log_prefix("abc"), "project-abc");
    assert_eq!(project_log_file_name("abc"), "project-abc.log");
    assert!(is_project_log_file("project-abc.log", "abc"));
    assert!(is_project_log_file("project-abc-20260101.log", "abc"));
    assert!(!is_project_log_file("project-abcd.log", "abc"));
    assert!(!is_project_log_file("project-abc-1.txt", "abc"));
    assert_eq!(rotated_file_name(Some("server.log"), "20260318"), "server-20260318.log");
    assert_eq!(rotated_file_name(Some("plain"), "1"), "plain-1.log");
    assert_eq!(rotated_file_name(None, "1"), "log-1.log");
    assert!(!needs_rotation(MAX_FILE_BYTES - 10, 10));
    assert!(needs_rotation(MAX_FILE_BYTES - 10, 11));
    assert!(needs_rotation(u64::MAX, 1));
}

#[test]
fn tails_of_logs() {
    assert_eq!(tail_lines("a\r\nb\nc", 2), vec!["b", "c"]);
    assert_eq!(tail_lines("a\nb\n", 5), vec!["a", "b"]);
    assert_eq!(tail_lines("", 5), Vec::<String>::new());
    assert_eq!(tail_lines("x\r", 1), vec!["x\r"]);
}

#[test]
fn oldest_logs_go_first() {
    assert_eq!(stable_order(&vec![Some(5), None, Some(1), Some(5), None]), vec![1, 4, 2, 0, 3]);
    let big = 60 * 1024 * 1024;
    let files = vec![
        LogFile { name: "server.log".to_string(), modified: Some(1), len: big },
        LogFile { name: "project-a.log".to_string(), modified: Some(3), len: big },
        LogFile { name: "project-b.log".to_string(), modified: Some(2), len: big },
    ];
    assert_eq!(cleanup_plan(&files), vec![2, 1]);
    let small = vec![LogFile { name: "a.log".to_string(), modified: None, len: 10 }];
    assert!(cleanup_plan(&small).is_empty());
}

#[test]
fn browsing_lists_dirs_first() {
    assert_eq!(browse_start(Some("\\\\?\\D:\\x"), "/home/u"), "D:\\x");
    assert_eq!(browse_start(Some(""), "/home/u"), "/home/u");
    let entries = vec![
        ("b.jar".to_string(), false),
        ("Zeta".to_string(), true),
        (".hidden".to_string(), true),
        ("alpha".to_string(), true),
        ("A.JAR".to_string(), false),
        ("notes.txt".to_string(), false),
    ];
    let listed = list_entries(entries.clone(), true, Some("jar"));
    let names: Vec<(String, bool)> = listed.into_iter().map(|e| (e.name, e.is_dir)).collect();
    assert_eq!(
        names,
        vec![
            ("alpha".to_string(), true),
            ("Zeta".to_string(), true),
            ("A.JAR".to_string(), false),
            ("b.jar".to_string(), false),
        ]
    );
    let dirs_only = list_entries(entries, false, None);
    assert_eq!(dirs_only.len(), 2);
}

#[test]
fn env_file_gives_the_project() {
    let content = "# comment\n\nOTHER=1\nPROJECT_ID=\"\"\n  PROJECT_ID = x\nPROJECT_ID= \"abc-123\" \nPROJECT_ID=later";
    assert_eq!(parse_project_id(content).as_deref(), Some("abc-123"));
    assert_eq!(parse_project_id("PROJECT_ID=\"  \"").as_deref(), Some("  "));
    assert_eq!(parse_project_id("# PROJECT_ID=x"), None);
}

#[test]
fn cli_helpers() {
    assert_eq!(normalize_cli_file_path("./src/a.bsl", None), "src/a.bsl");
    assert_eq!(normalize_cli_file_path("/work/src/a.bsl", Some("/work")), "src/a.bsl");
    assert_eq!(normalize_cli_file_path("/elsewhere/a.bsl", Some("/work")), "/elsewhere/a.bsl");
    assert_eq!(api_url("http://127.0.0.1:4000", "p", "status"), "http://127.0.0.1:4000/api/projects/p/status");
    assert_eq!(
        connection_error("http://h:1"),
        "Не удалось подключиться к серверу http://h:1. Проверьте, что сервер запущен и доступен по сети."
    );
    assert_eq!(extract_error_message(&obj(vec![("error", json_string("nope"))]), "fb"), "nope");
    assert_eq!(extract_error_message(&JsonValue::Null, "fb"), "fb");
    assert_eq!(
        position_request_body("a.bsl", 1, 2),
        obj(vec![("file_path", json_string("a.bsl")), ("line", json_u64_value(1)), ("character", json_u64_value(2))])
    );
    assert!(path_var_contains("/usr/bin:/home/u/.local/bin", ':', "/home/u/.local/bin"));
    assert!(!path_var_contains("/usr/bin:/home/u/.local/binx", ':', "/home/u/.local/bin"));
    assert!(path_var_contains("", ':', ""));
}

#[test]
fn events_are_filtered_by_project() {
    let e = LspEvent::LogLine { id: "p1".to_string(), line: "x".to_string() };
    assert_eq!(event_project_id(&e).map(|s| s.as_str()), Some("p1"));
    assert!(event_passes(Some("p1"), &e));
    assert!(!event_passes(Some("p2"), &e));
    assert!(event_passes(None, &e));
    assert!(event_passes(Some("p2"), &LspEvent::ProjectsChanged));
}

#[test]
fn mcp_tool_calls() {
    assert_eq!(server_name(McpKind::Diagnostics), "1c-lsp-diagnostics");
    assert_eq!(tool_names(McpKind::Navigation).len(), 6);
    let params = obj(vec![
        ("name", json_string("references")),
        ("arguments", obj(vec![("file_path", json_string("a.bsl")), ("line", json_u64_value(4)), ("character", json_u64_value(4294967297))])),
    ]);
    match plan_tool_call(McpKind::Navigation, Some(&params), Some("p")) {
        Ok(ToolCall::References { file_path, line, character }) => {
            assert_eq!(file_path, "a.bsl");
            assert_eq!(line, 4);
            assert_eq!(character, 1);
        },
        _ => panic!("references expected"),
    }
    match plan_tool_call(McpKind::Diagnostics, Some(&params), Some("p")) {
        Err(CallRefusal::ToolFailed(m)) => assert_eq!(m, "Неизвестный инструмент: references"),
        _ => panic!("refusal expected"),
    }
    match plan_tool_call(McpKind::Navigation, Some(&params), None) {
        Err(CallRefusal::MissingProject(m)) => assert_eq!(m, "Заголовок x-project-id обязателен"),
        _ => panic!("refusal expected"),
    }
    let missing = obj(vec![("name", json_string("definition")), ("arguments", obj(vec![("file_path", json_string("a"))]))]);
    match plan_tool_call(McpKind::Navigation, Some(&missing), Some("p")) {
        Err(CallRefusal::ToolFailed(m)) => assert_eq!(m, "Параметр line обязателен"),
        _ => panic!("refusal expected"),
    }
    let e = tool_error("boom");
    assert_eq!(e.get("isError"), Some(&JsonValue::Bool(true)));
    match route_method("tools/list") {
        McpMethod::ToolsList => {},
        _ => panic!("tools/list expected"),
    }
    match route_method("nope") {
        McpMethod::Unknown(m) => assert_eq!(m, "Method not found: nope"),
        _ => panic!("unknown expected"),
    }
}

#[test]
fn service_texts() {
    let unit = systemd_unit("/usr/bin/lsp-skill-server");
    assert!(unit.starts_with("[Unit]\nDescription=LSP Skill — менеджер BSL Language Server\n"));
    assert!(unit.contains("\nExecStart=/usr/bin/lsp-skill-server\n"));
    assert!(unit.ends_with("WantedBy=default.target\n"));
    assert_eq!(install().unwrap_err(), "установка службы не поддерживается на этой платформе");
}

#[test]
fn listing_gives_the_parent() {
    let entries = vec![("b".to_string(), true), ("a.txt".to_string(), false)];
    let r = browse_listing("/home/user".to_string(), entries, false, None);
    assert_eq!(r.current, "/home/user");
    assert_eq!(r.parent.as_deref(), Some("/home"));
    assert_eq!(r.entries.len(), 1);
    assert_eq!(r.entries[0].name, "b");
    let root = browse_listing("/".to_string(), Vec::new(), true, None);
    assert_eq!(root.parent, None);
}

#[test]
fn page_status_words() {
    assert_eq!(status_label("ready"), "Готов");
    assert_eq!(status_label("warming_up"), "Прогревается");
    assert_eq!(status_label("starting"), "Запускается");
    assert_eq!(status_label("error"), "Ошибка");
    assert_eq!(status_label("stopped"), "Остановлен");
    assert_eq!(status_label(""), "Неизвестно");
    assert_eq!(status_label("paused"), "Неизвестно");
    assert_eq!(badge_class("ready"), "badge badge-success badge-outline");
    assert_eq!(badge_class("starting"), "badge badge-warning badge-outline");
    assert_eq!(badge_class("error"), "badge badge-error badge-outline");
    assert_eq!(badge_class("stopped"), "badge badge-ghost");
}

#[test]
fn page_progress_bar() {
    let idle = IndexingProgress::default();
    assert_eq!(progress_bar(&idle), (0, "Нет активной задачи индексации".to_string()));
    let busy = IndexingProgress {
        percentage: Some(42),
        files_done: None,
        files_total: None,
        message: Some("10/20".to_string()),
        active: true,
    };
    assert_eq!(progress_bar(&busy), (42, "10/20".to_string()));
}

fn snap(id: &str, name: &str) -> ProjectSnapshot {
    ProjectSnapshot {
        project: StoredProject {
            id: id.to_string(),
            name: name.to_string(),
            root_path: "/r".to_string(),
            project_root_path: "/r".to_string(),
            jvm_args: String::new(),
            bsl_config: String::new(),
            debug: false,
            created_at: "t".to_string(),
            updated_at: "t".to_string(),
        },
        status: ProjectStatusInfo { status: "stopped".to_string(), error: None },
        progress: IndexingProgress::default(),
    }
}

#[test]
fn page_keeps_the_last_log_lines() {
    let mut lines: Vec<String> = Vec::new();
    for k in 0..(PROJECT_LOG_LINES_LIMIT + 5) {
        push_log_line(&mut lines, format!("line {k}"));
    }
    assert_eq!(lines.len(), PROJECT_LOG_LINES_LIMIT);
    assert_eq!(lines[0], "line 5");
    assert_eq!(lines.last().map(String::as_str), Some("line 1004"));
}

#[test]
fn page_updates_the_project_it_is_told_of() {
    let mut list = vec![snap("a", "Alpha"), snap("b", ""), snap("a", "Second")];
    let ready = ProjectStatusInfo { status: "ready".to_string(), error: None };
    set_project_status(&mut list, "a", ready.clone());
    assert_eq!(list[0].status.status, "ready");
    assert_eq!(list[2].status.status, "stopped");
    assert_eq!(ready_notice(&list, "a", &ready).as_deref(), Some("Проект \"Alpha\" запустился"));
    assert_eq!(ready_notice(&list, "b", &ready), None);
    assert_eq!(ready_notice(&list, "zzz", &ready), None);
    let stopped = ProjectStatusInfo { status: "stopped".to_string(), error: None };
    assert_eq!(ready_notice(&list, "a", &stopped), None);
    let busy = IndexingProgress { percentage: Some(7), files_done: None, files_total: None, message: None, active: true };
    set_project_progress(&mut list, "b", busy);
    assert_eq!(list[1].progress.percentage, Some(7));
    assert_eq!(list[0].progress.percentage, None);
    set_project_status(&mut list, "none", stopped);
    assert_eq!(list[0].status.status, "ready");
}

#[test]
fn picker_requests_and_entry_paths() {
    let r = browse_request(None, BrowseMode::Directory, Some("jar".to_string()));
    assert!(!r.show_files);
    assert_eq!(r.extension.as_deref(), Some("jar"));
    let r = browse_request(Some("/x".to_string()), BrowseMode::File, None);
    assert!(r.show_files);
    assert_eq!(r.path.as_deref(), Some("/x"));
    assert_eq!(entry_path("/home/u", "a.jar"), "/home/u/a.jar");
    assert_eq!(entry_path("/", "etc"), "/etc");
    assert_eq!(entry_path("C:\\", "x"), "C:\\x");
    assert_eq!(entry_path("", "x"), "/x");
}

fn content_text(answer: &JsonValue) -> String {
    let content = answer.get("content").expect("content");
    match content {
        JsonValue::Array(items) => items[0].get("text").and_then(|t| t.as_str()).expect("text").to_string(),
        _ => panic!("content is not an array"),
    }
}

#[test]
fn tool_answers_follow_the_format_setting() {
    let call = ToolCall::References { file_path: "a.bsl".to_string(), line: 1, character: 2 };
    assert_eq!(tool_name(&call), "references");
    let value = JsonValue::Array(Vec::new());
    assert_eq!(content_text(&tool_success(tool_name(&call), &value, true)), "references[0]:");
    assert_eq!(content_text(&tool_success("references", &value, false)), "[]");
    let single = obj(vec![("a", json_u64_value(1))]);
    assert_eq!(content_text(&tool_success("definition", &single, false)), "{\n  \"a\": 1\n}");
    assert_eq!(content_text(&tool_success("definition", &single, true)), "a: 1");
    assert!(tool_success("definition", &single, true).get("isError").is_none());
}

#[test]
fn page_keeps_lines_of_the_selected_project_only() {
    let mut lines: Vec<String> = vec!["old".to_string()];
    on_log_line(&mut lines, Some("a"), "b", "other".to_string());
    assert_eq!(lines, vec!["old".to_string()]);
    on_log_line(&mut lines, None, "a", "none".to_string());
    assert_eq!(lines, vec!["old".to_string()]);
    on_log_line(&mut lines, Some("a"), "a", "new".to_string());
    assert_eq!(lines, vec!["old".to_string(), "new".to_string()]);
    for k in 0..PROJECT_LOG_LINES_LIMIT {
        on_log_line(&mut lines, Some("a"), "a", format!("l{k}"));
    }
    assert_eq!(lines.len(), PROJECT_LOG_LINES_LIMIT);
    assert_eq!(lines[0], "l0");
}
