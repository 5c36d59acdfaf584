use lsp_skill::json::{json_u64_value, JsonValue};
use lsp_skill::watcher::{build_change_summary, is_bsl_file, map_events, FileEvent};

fn event(path: &str) -> FileEvent {
    FileEvent { path: path.to_string(), exists: std::path::Path::new(path).exists() }
}

#[test]
fn filters_non_bsl_files() {
    let events = vec![
        event("/project/src/module.bsl"),
        event("/project/src/readme.md"),
        event("/project/src/script.os"),
        event("/project/src/data.json"),
    ];
    let changes = map_events(&events);
    assert_eq!(changes.len(), 2);
}

#[test]
fn deduplicates_same_path() {
    let events = vec![event("/project/src/module.bsl"), event("/project/src/module.bsl")];
    let changes = map_events(&events);
    assert_eq!(changes.len(), 1);
}

#[test]
fn case_insensitive_extension() {
    let events = vec![event("/project/src/module.BSL"), event("/project/src/script.Os")];
    let changes = map_events(&events);
    assert_eq!(changes.len(), 2);
}

#[test]
fn empty_events() {
    let changes = map_events(&vec![]);
    assert!(changes.is_empty());
}

#[test]
fn deleted_file_gets_type_3() {
    let events = vec![event("/nonexistent/path/deleted.bsl")];
    let changes = map_events(&events);
    assert_eq!(changes.len(), 1);
    assert_eq!(changes[0].get("type"), Some(&json_u64_value(3)));
}

#[test]
fn existing_file_gets_type_2_and_file_uri() {
    let events = vec![FileEvent { path: "/project/src/Модуль.bsl".to_string(), exists: true }];
    let changes = map_events(&events);
    assert_eq!(changes.len(), 1);
    assert_eq!(changes[0].get("type"), Some(&json_u64_value(2)));
    match changes[0].get("uri") {
        Some(JsonValue::String(u)) => {
            assert!(u.starts_with("file:///project/src/"));
            assert!(u.ends_with(".bsl"));
            assert!(!u.contains("Модуль"));
        },
        other => panic!("unexpected uri {other:?}"),
    }
}

#[test]
fn extension_rules_follow_path() {
    assert!(is_bsl_file("/a/b/c.bsl"));
    assert!(!is_bsl_file("/a/b/.bsl"));
    assert!(!is_bsl_file("/a/b/bsl"));
    assert!(is_bsl_file("relative.OS"));
    assert!(is_bsl_file("/a/b.bsl/"));
}

#[test]
fn summary_lists_relative_paths_and_counts_the_rest() {
    let mut events = Vec::new();
    for i in 0..7 {
        events.push(FileEvent { path: format!("/root/m{i}.bsl"), exists: i % 2 == 0 });
    }
    events.push(FileEvent { path: "/root/readme.md".to_string(), exists: true });
    events.push(FileEvent { path: "/root/m0.bsl".to_string(), exists: false });
    let summary = build_change_summary(&events, "/root");
    assert_eq!(
        summary,
        "m0.bsl (changed), m1.bsl (deleted), m2.bsl (changed), m3.bsl (deleted), m4.bsl (changed), ... и ещё 2"
    );
    let short = build_change_summary(&vec![FileEvent { path: "/other/x.os".to_string(), exists: false }], "/root");
    assert_eq!(short, "/other/x.os (deleted)");
}
