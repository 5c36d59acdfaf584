use lsp_skill::error::ServiceError;
use lsp_skill::json::{json_string, json_u64_value, object_from_entries, JsonValue};
use lsp_skill::models::{ProjectStatus, ProjectUpsert, StoredProject};
use lsp_skill::project::{
    canonical_root_result, clean_path, effective_bsl_config, map_create_project_error, map_project_persist_error,
    normalize_project_persist_reason, normalize_slashes, project_status_label, root_path_input, validate_bsl_config,
    validate_name, new_project, project_not_found, DEFAULT_BSL_CONFIG,
};
use lsp_skill::session::{apply_progress_value, ProjectState};

fn obj(entries: Vec<(&str, JsonValue)>) -> JsonValue {
    object_from_entries(entries.into_iter().map(|(k, v)| (k.to_string(), v)).collect())
}

fn project() -> StoredProject {
    StoredProject {
        id: "p1".to_string(),
        name: "Test".to_string(),
        root_path: "/tmp/project".to_string(),
        project_root_path: "/tmp/project".to_string(),
        jvm_args: "-Xmx1g".to_string(),
        bsl_config: String::new(),
        debug: false,
        created_at: "2026-03-18T00:00:00Z".to_string(),
        updated_at: "2026-03-18T00:00:00Z".to_string(),
    }
}

fn progress(token: Option<&str>, value: JsonValue) -> JsonValue {
    match token {
        Some(t) => obj(vec![("token", json_string(t)), ("value", value)]),
        None => obj(vec![("value", value)]),
    }
}

fn text_of(e: &ServiceError) -> String {
    e.message()
}

#[test]
fn names_are_trimmed_and_required() {
    assert_eq!(validate_name("  Проект  ").unwrap(), "Проект");
    let e = validate_name(" \t ").unwrap_err();
    assert_eq!(e.code(), "invalid_request");
    assert_eq!(text_of(&e), "Имя проекта не должно быть пустым.");
    assert_eq!(text_of(&root_path_input("   ").unwrap_err()), "Корневой путь не указан.");
    assert_eq!(root_path_input(" /srv/x ").unwrap(), "/srv/x");
}

#[test]
fn root_path_must_exist_and_be_a_directory() {
    assert_eq!(canonical_root_result("/srv/x", Some("\\\\?\\C:\\x".to_string()), true).unwrap(), "C:\\x");
    assert_eq!(
        text_of(&canonical_root_result("/srv/x", None, false).unwrap_err()),
        "Корневой путь не найден: /srv/x"
    );
    assert_eq!(
        text_of(&canonical_root_result("/srv/x", Some("/srv/x".to_string()), false).unwrap_err()),
        "Корневой путь не является каталогом: /srv/x"
    );
    assert_eq!(clean_path("/plain/path"), "/plain/path");
    assert_eq!(normalize_slashes("C:\\a\\b"), "C:/a/b");
}

#[test]
fn persist_reasons_are_put_in_words() {
    assert_eq!(
        normalize_project_persist_reason(" error returned from database: failed to insert project: database is locked "),
        "база данных занята другим процессом"
    );
    assert_eq!(normalize_project_persist_reason("unable to open database file"), "не удалось открыть файл базы данных");
    assert_eq!(normalize_project_persist_reason("disk I/O error"), "ошибка ввода-вывода при работе с базой данных");
    assert_eq!(normalize_project_persist_reason("error returned from database:   "), "неизвестная ошибка");
    assert_eq!(normalize_project_persist_reason("failed to update project: boom"), "boom");
    let e = map_project_persist_error("UNIQUE constraint failed: projects.root_path", "x", "fallback");
    assert_eq!(text_of(&e), "Проект с таким корневым путем уже существует.");
    let e = map_create_project_error("failed", "error returned from database: disk I/O error");
    assert_eq!(text_of(&e), "Не удалось создать проект. Причина: ошибка ввода-вывода при работе с базой данных");
}

#[test]
fn bsl_config_checks() {
    assert_eq!(effective_bsl_config("   "), DEFAULT_BSL_CONFIG);
    assert_eq!(effective_bsl_config("{\"a\":1}"), "{\"a\":1}");
    assert!(validate_bsl_config("  ").is_ok());
    assert!(validate_bsl_config(DEFAULT_BSL_CONFIG).is_ok());
    let e = validate_bsl_config("{\"diagnostics\": {\"computeTrigger\": \"onSave\"}}").unwrap_err();
    assert_eq!(
        text_of(&e),
        "diagnostics.computeTrigger = \"onSave\", требуется \"onType\". Без этого диагностики не будут обновляться после редактирования файлов."
    );
    let e = validate_bsl_config("{\"language\": \"ru\"}").unwrap_err();
    assert_eq!(
        text_of(&e),
        "В конфигурации BSL отсутствует diagnostics.computeTrigger = \"onType\". Без этого диагностики не будут обновляться после редактирования файлов."
    );
    let e = validate_bsl_config("{not json").unwrap_err();
    assert!(text_of(&e).starts_with("Конфигурация BSL содержит невалидный JSON: "));
    assert_eq!(e.code(), "invalid_request");
}

#[test]
fn status_labels() {
    assert_eq!(project_status_label(&ProjectStatus::Stopped), "остановлен");
    assert_eq!(project_status_label(&ProjectStatus::Starting), "запускается");
    assert_eq!(project_status_label(&ProjectStatus::WarmingUp), "прогревается");
    assert_eq!(project_status_label(&ProjectStatus::Ready), "готов");
    assert_eq!(project_status_label(&ProjectStatus::Error("x".to_string())), "ошибка");
}

#[test]
fn start_is_refused_unless_stopped() {
    let mut s = ProjectState::from_config(project());
    assert!(s.begin_start().is_ok());
    assert!(matches!(s.status, ProjectStatus::Starting));
    let e = s.begin_start().unwrap_err();
    assert_eq!(text_of(&e), "Проект уже запущен.");
    s.fail("Не указан путь");
    assert_eq!(s.snapshot().status.status, "error");
    assert_eq!(s.snapshot().status.error.as_deref(), Some("Не указан путь"));
}

#[test]
fn progress_follows_the_main_token() {
    let mut s = ProjectState::from_config(project());
    s.mark_warming_up();
    let begin = obj(vec![("kind", json_string("begin")), ("title", json_string("Индексация")), ("percentage", json_u64_value(0))]);
    let out = s.on_progress(&progress(Some("a"), begin));
    assert!(out.progress.is_some());
    assert_eq!(s.progress.message.as_deref(), Some("Индексация"));
    assert_eq!(s.progress_token, None);
    let report = obj(vec![("kind", json_string("report")), ("percentage", json_u64_value(40))]);
    let out = s.on_progress(&progress(Some("a"), report));
    assert_eq!(out.progress.unwrap().percentage, Some(40));
    assert_eq!(s.progress_token.as_deref(), Some("a"));
    let other = obj(vec![("kind", json_string("report")), ("percentage", json_u64_value(90))]);
    let out = s.on_progress(&progress(Some("b"), other));
    assert!(out.progress.is_none());
    assert_eq!(s.progress.percentage, Some(40));
    let begin_again = obj(vec![("kind", json_string("begin")), ("title", json_string("x"))]);
    assert!(s.on_progress(&progress(Some("c"), begin_again)).progress.is_none());
    let end = obj(vec![("kind", json_string("end")), ("message", json_string("Наполнение контекста завершено"))]);
    let out = s.on_progress(&progress(Some("a"), end));
    assert_eq!(out.progress.as_ref().unwrap().percentage, Some(100));
    assert!(!out.progress.unwrap().active);
    assert_eq!(out.status.unwrap().status, "ready");
    assert!(s.status.is_ready());
    assert_eq!(s.progress_token, None);
}

#[test]
fn stderr_marker_makes_warming_project_ready() {
    let mut s = ProjectState::from_config(project());
    assert!(s.on_stderr_line("Context populated").is_none());
    s.mark_warming_up();
    assert!(s.on_stderr_line("something else").is_none());
    let info = s.on_stderr_line("INFO Context populated in 3s").unwrap();
    assert_eq!(info.status, "ready");
}

#[test]
fn process_exit_outcomes() {
    let mut s = ProjectState::from_config(project());
    assert!(s.on_process_exit(true, "exit status: 0").is_none());
    s.mark_warming_up();
    let info = s.on_process_exit(false, "exit status: 1").unwrap();
    assert_eq!(info.status, "error");
    assert_eq!(info.error.as_deref(), Some("LSP-процесс завершился с ошибкой: exit status: 1"));
    s.mark_warming_up();
    assert_eq!(s.on_process_exit(true, "exit status: 0").unwrap().status, "stopped");
}

#[test]
fn published_diagnostics_are_read_back() {
    let mut s = ProjectState::from_config(project());
    let params = obj(vec![
        ("uri", json_string("file:///a/Модуль.bsl")),
        ("diagnostics", JsonValue::Array(vec![JsonValue::Null, JsonValue::Null])),
    ]);
    let (uri, count) = s.on_publish_diagnostics(&params).unwrap();
    assert_eq!(count, 2);
    assert_eq!(uri, "file:///a/%D0%9C%D0%BE%D0%B4%D1%83%D0%BB%D1%8C.bsl");
    assert_eq!(s.diagnostics_for(&uri), Some(params));
    assert_eq!(s.diagnostics_for("file:///other.bsl"), None);
    assert!(s.on_publish_diagnostics(&obj(vec![])).is_none());
}

#[test]
fn documents_are_versioned() {
    let mut s = ProjectState::from_config(project());
    assert!(s.check_running().is_err());
    assert_eq!(text_of(&s.check_running().unwrap_err()), "Проект еще не готов. Текущий статус: остановлен.");
    s.mark_warming_up();
    assert!(s.check_running().is_ok());
    assert_eq!(s.opened_version("m.bsl"), None);
    s.record_opened("m.bsl");
    assert_eq!(s.opened_version("m.bsl"), Some(1));
    let params = obj(vec![("uri", json_string("file:///m.bsl"))]);
    s.on_publish_diagnostics(&params);
    assert!(s.diagnostics_for("file:///m.bsl").is_some());
    assert_eq!(s.record_changed("m.bsl", "file:///m.bsl", 1), 2);
    assert_eq!(s.opened_version("m.bsl"), Some(2));
    assert!(s.diagnostics_for("file:///m.bsl").is_none());
    s.reset_stopped();
    assert_eq!(s.opened_version("m.bsl"), None);
}

#[test]
fn progress_values_apply() {
    let mut p = lsp_skill::models::IndexingProgress::default();
    apply_progress_value(&mut p, &obj(vec![("kind", json_string("report")), ("message", json_string("m"))]));
    assert!(p.active);
    assert_eq!(p.message.as_deref(), Some("m"));
    assert_eq!(p.percentage, None);
    apply_progress_value(&mut p, &obj(vec![("kind", json_string("end"))]));
    assert!(!p.active);
    assert_eq!(p.message, None);
    assert_eq!(p.percentage, Some(100));
    apply_progress_value(&mut p, &obj(vec![("kind", json_string("other"))]));
    assert_eq!(p.percentage, Some(100));
}

#[test]
fn edits_and_removals_need_a_stopped_project() {
    let mut s = ProjectState::from_config(project());
    assert!(s.check_editable().is_ok());
    assert!(s.check_removable().is_ok());
    s.begin_start().unwrap();
    assert_eq!(text_of(&s.check_editable().unwrap_err()), "Чтобы изменить проект, сначала остановите его.");
    assert_eq!(
        text_of(&s.check_removable().unwrap_err()),
        "Нельзя удалить запущенный проект. Сначала остановите его."
    );
    assert_eq!(s.check_removable().unwrap_err().code(), "invalid_request");
}

#[test]
fn updates_and_new_projects() {
    let input = ProjectUpsert {
        name: " New ".to_string(),
        root_path: "/r".to_string(),
        project_root_path: "/p".to_string(),
        jvm_args: "  -Xmx2g  ".to_string(),
        bsl_config: "{}".to_string(),
        debug: true,
    };
    let mut s = ProjectState::from_config(project());
    s.apply_update("New".to_string(), "/r".to_string(), "/p".to_string(), &input, "later".to_string());
    assert_eq!(s.config.id, "p1");
    assert_eq!(s.config.name, "New");
    assert_eq!(s.config.jvm_args, "-Xmx2g");
    assert_eq!(s.config.bsl_config, "{}");
    assert!(s.config.debug);
    assert_eq!(s.config.created_at, "2026-03-18T00:00:00Z");
    assert_eq!(s.config.updated_at, "later");
    let p = new_project("id9".to_string(), "New".to_string(), "/r".to_string(), "/p".to_string(), &input, "now".to_string());
    assert_eq!(p.id, "id9");
    assert_eq!(p.jvm_args, "-Xmx2g");
    assert_eq!(p.created_at, "now");
    assert_eq!(p.updated_at, "now");
    let e = project_not_found("x");
    assert_eq!(text_of(&e), "Проект с id x не найден.");
    assert_eq!(e.http_status(), 404);
}

#[test]
fn loaded_projects_are_stopped() {
    let mut second = project();
    second.id = "p2".to_string();
    let states = ProjectState::load_states(vec![project(), second]);
    assert_eq!(states.len(), 2);
    assert_eq!(states[0].config.id, "p1");
    assert_eq!(states[1].config.id, "p2");
    for s in &states {
        let snap = s.snapshot();
        assert_eq!(snap.status.status, "stopped");
        assert_eq!(snap.status.error, None);
        assert_eq!(snap.progress.percentage, None);
        assert!(!snap.progress.active);
    }
}
