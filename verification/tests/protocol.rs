use lsp_skill::uri::document_uri;
use lsp_skill::json::{json_string, json_u64_value, object_from_entries, JsonNumber, JsonValue};
use lsp_skill::lsp::{classify_message, frame_message, header_step, notification_message, parse_message_body, request_message, response_result, HeaderStep, Incoming, LspWriter};
use lsp_skill::requests::{
    call_hierarchy_params, check_jar_path, did_change_params, did_open_params, lsp_command_args, references_params,
    spawn_error,
    startup_command_line, startup_log_lines,
};

fn obj(entries: Vec<(&str, JsonValue)>) -> JsonValue {
    object_from_entries(entries.into_iter().map(|(k, v)| (k.to_string(), v)).collect())
}

#[test]
fn frames_carry_byte_length() {
    let msg = notification_message("initialized", obj(vec![]));
    let (header, body) = frame_message(&msg);
    assert_eq!(body, "{\"jsonrpc\":\"2.0\",\"method\":\"initialized\",\"params\":{}}");
    assert_eq!(header, format!("Content-Length: {}\r\n\r\n", body.len()));
    let msg = notification_message("x", json_string("Привет"));
    let (header, body) = frame_message(&msg);
    assert_eq!(header, format!("Content-Length: {}\r\n\r\n", body.len()));
}

#[test]
fn headers_are_read_line_by_line() {
    match header_step(None, "Content-Length: 42\r\n") {
        HeaderStep::Continue(Some(42)) => {},
        _ => panic!("length expected"),
    }
    match header_step(Some(42), "Content-Type: x\r\n") {
        HeaderStep::Continue(Some(42)) => {},
        _ => panic!("skip expected"),
    }
    match header_step(Some(42), "\r\n") {
        HeaderStep::Body(42) => {},
        _ => panic!("body expected"),
    }
    match header_step(None, "\r\n") {
        HeaderStep::Fail(m) => assert_eq!(m, "missing Content-Length header"),
        _ => panic!("failure expected"),
    }
    match header_step(None, "Content-Length: x") {
        HeaderStep::Fail(m) => assert_eq!(m, "invalid Content-Length value"),
        _ => panic!("failure expected"),
    }
}

#[test]
fn messages_are_classified() {
    let req = obj(vec![("id", json_u64_value(7)), ("method", json_string("window/workDoneProgress/create"))]);
    match classify_message(&req) {
        Incoming::ServerRequest(reply) => assert_eq!(
            reply,
            obj(vec![("jsonrpc", json_string("2.0")), ("id", json_u64_value(7)), ("result", JsonValue::Null)])
        ),
        _ => panic!("request expected"),
    }
    match classify_message(&obj(vec![("id", json_u64_value(3)), ("result", JsonValue::Null)])) {
        Incoming::Response(3) => {},
        _ => panic!("response expected"),
    }
    match classify_message(&obj(vec![("id", json_string("x"))])) {
        Incoming::Response(-1) => {},
        _ => panic!("response expected"),
    }
    match classify_message(&obj(vec![("method", json_string("$/progress"))])) {
        Incoming::Notification(m, p) => {
            assert_eq!(m, "$/progress");
            assert_eq!(p, JsonValue::Null);
        },
        _ => panic!("notification expected"),
    }
}

#[test]
fn requests_and_responses() {
    let r = request_message(5, "shutdown", JsonValue::Null);
    assert_eq!(
        r,
        obj(vec![
            ("jsonrpc", json_string("2.0")),
            ("id", json_u64_value(5)),
            ("method", json_string("shutdown")),
            ("params", JsonValue::Null),
        ])
    );
    let r = request_message(-2, "x", JsonValue::Null);
    assert_eq!(r.get("id"), Some(&JsonValue::Number(JsonNumber::NegInt(-2))));
    let err = obj(vec![("error", obj(vec![("code", json_u64_value(1))]))]);
    assert_eq!(response_result(&err).unwrap_err(), "LSP error: {\"code\":1}");
    assert_eq!(response_result(&obj(vec![("result", json_u64_value(1))])).unwrap(), json_u64_value(1));
    assert_eq!(response_result(&obj(vec![])).unwrap(), JsonValue::Null);
}

#[test]
fn request_parameters() {
    let p = references_params("file:///a.bsl", 3, 4);
    assert_eq!(
        p,
        obj(vec![
            ("textDocument", obj(vec![("uri", json_string("file:///a.bsl"))])),
            ("position", obj(vec![("line", json_u64_value(3)), ("character", json_u64_value(4))])),
            ("context", obj(vec![("includeDeclaration", JsonValue::Bool(true))])),
        ])
    );
    let o = did_open_params("file:///a.bsl", "text");
    assert_eq!(
        o.get("textDocument").unwrap().get("languageId"),
        Some(&json_string("bsl"))
    );
    let c = did_change_params("file:///a.bsl", 3, "t");
    assert_eq!(c.get("textDocument").unwrap().get("version"), Some(&json_u64_value(3)));
    assert_eq!(c.get("contentChanges"), Some(&JsonValue::Array(vec![obj(vec![("text", json_string("t"))])])));
}

#[test]
fn server_command() {
    assert_eq!(
        lsp_command_args("-Xmx1g '-Dx=a b'", "/opt/bsl.jar", Some("/cfg/p.json")),
        vec!["-Xmx1g", "-Dx=a b", "-jar", "/opt/bsl.jar", "lsp", "--configuration", "/cfg/p.json"]
    );
    assert_eq!(lsp_command_args("'unclosed", "a.jar", None), vec!["-jar", "a.jar", "lsp"]);
    assert_eq!(
        startup_command_line("C:\\bsl\\ls.jar", "", Some("C:\\cfg\\p.json")),
        "java -jar C:/bsl/ls.jar lsp --configuration C:/cfg/p.json"
    );
    assert_eq!(startup_command_line("/a.jar", "-Xmx2g", None), "java -Xmx2g -jar /a.jar lsp");
    assert!(check_jar_path(" ").is_err());
    assert!(check_jar_path("/a.jar").is_ok());
    let e = spawn_error("No such file or directory (os error 2)");
    assert_eq!(e.code(), "java_not_found");
    assert_eq!(e.message(), "Java не найдена в PATH.");
    let e = spawn_error("permission denied");
    assert_eq!(e.code(), "internal_error");
    assert_eq!(e.message(), "Не удалось запустить BSL Language Server: permission denied");
}

#[test]
fn startup_log() {
    let lines = startup_log_lines("/a.jar", "", Some("/cfg/p.json"), "/srv/p", "/cfg/p.json", Some("{}".to_string()));
    assert_eq!(
        lines,
        vec![
            "─── Запуск BSL Language Server ───",
            "Командная строка: java -jar /a.jar lsp --configuration /cfg/p.json",
            "Корневой каталог: /srv/p",
            "rootUri: file:///srv/p/",
            "Конфигурация BSL (/cfg/p.json):",
            "{}",
        ]
    );
    let lines = startup_log_lines("/a.jar", "", None, "rel", "rel/.bsl-language-server.json", None);
    assert_eq!(lines[3], "rootUri: rel");
    assert_eq!(lines[4], "Конфигурация BSL (.bsl-language-server.json): не найдена");
}

#[test]
fn writer_keeps_its_stream() {
    let mut w = LspWriter::new(vec![1u8]);
    w.writer().push(2);
    assert_eq!(*w.writer(), vec![1u8, 2]);
}

#[test]
fn call_hierarchy_asks_with_the_first_item() {
    let item = obj(vec![("name", json_string("Proc"))]);
    let other = obj(vec![("name", json_string("Other"))]);
    let prepared = JsonValue::Array(vec![item, other]);
    let params = call_hierarchy_params(&prepared).expect("params");
    assert_eq!(params, obj(vec![("item", obj(vec![("name", json_string("Proc"))]))]));
    assert_eq!(call_hierarchy_params(&JsonValue::Array(Vec::new())), None);
    assert_eq!(call_hierarchy_params(&JsonValue::Null), None);
}

#[test]
fn documents_are_known_by_file_urls() {
    assert_eq!(document_uri("/tmp/a b.bsl").unwrap(), "file:///tmp/a%20b.bsl");
    let e = document_uri("relative/a.bsl").unwrap_err();
    assert_eq!(e.message(), "Некорректный путь к файлу.");
    assert_eq!(e.code(), "invalid_request");
}

#[test]
fn bodies_are_read_as_messages() {
    let message = request_message(3, "initialize", JsonValue::Null);
    let (header, body) = frame_message(&message);
    assert_eq!(header, format!("Content-Length: {}\r\n\r\n", body.len()));
    assert_eq!(parse_message_body(body.as_bytes()).unwrap(), message);
    assert_eq!(
        parse_message_body(b"{\"a\": 1}").unwrap(),
        obj(vec![("a", json_u64_value(1))])
    );
    assert!(parse_message_body(b"{\"a\":").is_err());
    assert!(parse_message_body(&[0xff, 0xfe]).is_err());
}
