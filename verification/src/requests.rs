//! The parameters of the requests and notifications sent to the language
//! server, and how it is started.
use vstd::prelude::*;

use crate::error::ServiceError;
use crate::json::{empty_object, with_entry, Json, JsonValue, NumberModel};
use crate::json::{insert_each, object_of};
use crate::project::{normalize_slashes, slashes};
use crate::text::{contains, contains_str, push_str};
use crate::toon::strings_view;
use crate::uri::{directory_url, url_of_directory};

verus! {

pub open spec fn text_document(uri: Seq<char>) -> Json {
    object_of(seq![("uri"@, Json::Str(uri))])
}

pub open spec fn unsigned(n: u32) -> Json {
    Json::Number(NumberModel::PosInt(n as u64))
}

pub open spec fn position(line: u32, character: u32) -> Json {
    object_of(seq![("line"@, unsigned(line)), ("character"@, unsigned(character))])
}

fn text_document_value(uri: &str) -> (r: JsonValue)
    ensures
        r@ == text_document(uri@),
{
    let m = with_entry(empty_object(), "uri", JsonValue::String(uri.to_string()));
    proof {
        reveal_with_fuel(insert_each, 2);
    }
    JsonValue::Object(m)
}

fn position_value(line: u32, character: u32) -> (r: JsonValue)
    ensures
        r@ == position(line, character),
{
    let m = with_entry(empty_object(), "line", crate::json::json_u64_value(line as u64));
    let m = with_entry(m, "character", crate::json::json_u64_value(character as u64));
    proof {
        reveal_with_fuel(insert_each, 3);
    }
    JsonValue::Object(m)
}

/// `textDocument/documentSymbol`: the document.
pub fn document_symbol_params(uri: &str) -> (r: JsonValue)
    ensures
        r@ == object_of(seq![("textDocument"@, text_document(uri@))]),
{
    let m = with_entry(empty_object(), "textDocument", text_document_value(uri));
    proof {
        reveal_with_fuel(insert_each, 2);
    }
    JsonValue::Object(m)
}

/// `textDocument/references`: the document, the position, and the
/// declaration counted among the references.
pub fn references_params(uri: &str, line: u32, character: u32) -> (r: JsonValue)
    ensures
        r@ == object_of(
            seq![
                ("textDocument"@, text_document(uri@)),
                ("position"@, position(line, character)),
                ("context"@, object_of(seq![("includeDeclaration"@, Json::Bool(true))])),
            ],
        ),
{
    let c = with_entry(empty_object(), "includeDeclaration", JsonValue::Bool(true));
    let m = with_entry(empty_object(), "textDocument", text_document_value(uri));
    let m = with_entry(m, "position", position_value(line, character));
    let m = with_entry(m, "context", JsonValue::Object(c));
    proof {
        reveal_with_fuel(insert_each, 4);
    }
    JsonValue::Object(m)
}

/// `textDocument/definition`: the document and the position.
pub fn definition_params(uri: &str, line: u32, character: u32) -> (r: JsonValue)
    ensures
        r@ == object_of(seq![("textDocument"@, text_document(uri@)), ("position"@, position(line, character))]),
{
    let m = with_entry(empty_object(), "textDocument", text_document_value(uri));
    let m = with_entry(m, "position", position_value(line, character));
    proof {
        reveal_with_fuel(insert_each, 3);
    }
    JsonValue::Object(m)
}

/// The parameters that ask for the calls of a prepared call hierarchy:
/// its first item, where the server prepared one.
pub fn call_hierarchy_params(prepared: &JsonValue) -> (r: Option<JsonValue>)
    ensures
        match prepared@ {
            Json::Array(items) => if items.len() > 0 {
                r matches Some(p) && p@ == object_of(seq![("item"@, items[0])])
            } else {
                r is None
            },
            _ => r is None,
        },
{
    match prepared {
        JsonValue::Array(items) => {
            if items.len() == 0 {
                return None;
            }
            proof {
                crate::json::lemma_view_items(items@);
            }
            let m = with_entry(empty_object(), "item", items[0].deep_copy());
            proof {
                reveal_with_fuel(insert_each, 2);
            }
            Some(JsonValue::Object(m))
        },
        _ => None,
    }
}

/// `workspace/symbol`: the query.
pub fn workspace_symbol_params(query: &str) -> (r: JsonValue)
    ensures
        r@ == object_of(seq![("query"@, Json::Str(query@))]),
{
    let m = with_entry(empty_object(), "query", JsonValue::String(query.to_string()));
    proof {
        reveal_with_fuel(insert_each, 2);
    }
    JsonValue::Object(m)
}

/// `textDocument/didOpen`: the document in BSL at version 1, with its text.
pub fn did_open_params(uri: &str, text: &str) -> (r: JsonValue)
    ensures
        r@ == object_of(
            seq![
                ("textDocument"@, object_of(
                    seq![
                        ("uri"@, Json::Str(uri@)),
                        ("languageId"@, Json::Str("bsl"@)),
                        ("version"@, unsigned(1)),
                        ("text"@, Json::Str(text@)),
                    ],
                )),
            ],
        ),
{
    let d = with_entry(empty_object(), "uri", JsonValue::String(uri.to_string()));
    let d = with_entry(d, "languageId", JsonValue::String("bsl".to_string()));
    let d = with_entry(d, "version", crate::json::json_u64_value(1));
    let d = with_entry(d, "text", JsonValue::String(text.to_string()));
    let m = with_entry(empty_object(), "textDocument", JsonValue::Object(d));
    proof {
        reveal_with_fuel(insert_each, 5);
    }
    JsonValue::Object(m)
}

/// `textDocument/didChange`: the document at its new version, and its whole
/// text as the one change.
pub fn did_change_params(uri: &str, version: u32, text: &str) -> (r: JsonValue)
    ensures
        r@ == object_of(
            seq![
                ("textDocument"@, object_of(seq![("uri"@, Json::Str(uri@)), ("version"@, unsigned(version))])),
                ("contentChanges"@, Json::Array(seq![object_of(seq![("text"@, Json::Str(text@))])])),
            ],
        ),
{
    let d = with_entry(empty_object(), "uri", JsonValue::String(uri.to_string()));
    let d = with_entry(d, "version", crate::json::json_u64_value(version as u64));
    let c = with_entry(empty_object(), "text", JsonValue::String(text.to_string()));
    let mut changes: Vec<JsonValue> = Vec::new();
    changes.push(JsonValue::Object(c));
    let m = with_entry(empty_object(), "textDocument", JsonValue::Object(d));
    let changes_value = JsonValue::Array(changes);
    proof {
        crate::json::lemma_view_items(changes@);
        assert(crate::json::view_items(changes@) =~= seq![object_of(seq![("text"@, Json::Str(text@))])]) by {
            reveal_with_fuel(insert_each, 2);
        }
    }
    let m = with_entry(m, "contentChanges", changes_value);
    proof {
        reveal_with_fuel(insert_each, 3);
    }
    JsonValue::Object(m)
}

/// What the diagnostics of a document are answered with when the server
/// published none in time.
pub fn diagnostics_timeout_value(uri: &str) -> (r: JsonValue)
    ensures
        r@ == object_of(
            seq![
                ("uri"@, Json::Str(uri@)),
                ("diagnostics"@, Json::Array(Seq::empty())),
                ("_note"@, Json::Str("Истекло время ожидания диагностики"@)),
            ],
        ),
{
    let m = with_entry(empty_object(), "uri", JsonValue::String(uri.to_string()));
    let empty: Vec<JsonValue> = Vec::new();
    proof {
        crate::json::lemma_view_items(empty@);
    }
    let m = with_entry(m, "diagnostics", JsonValue::Array(empty));
    let m = with_entry(m, "_note", JsonValue::String("Истекло время ожидания диагностики".to_string()));
    proof {
        reveal_with_fuel(insert_each, 4);
    }
    JsonValue::Object(m)
}

/// What `shlex::split` makes of a text: its words, or nothing where the
/// quoting is unfinished.
pub uninterp spec fn shell_split(text: Seq<char>) -> Option<Seq<Seq<char>>>;

/// Calls `shlex::split`: the result is `shell_split` of the text.
#[verifier::external_body]
fn split_words(text: &str) -> (r: Option<Vec<String>>)
    ensures
        match r {
            Some(v) => shell_split(text@) == Some(strings_view(v@)),
            None => shell_split(text@) is None,
        },
{
    shlex::split(text)
}

/// The arguments `java` is started with: the JVM options split as a shell
/// would (none where they do not split), `-jar`, the jar, `lsp`, and the
/// configuration file where there is one.
pub open spec fn lsp_args(jvm_args: Seq<char>, jar: Seq<char>, config: Option<Seq<char>>) -> Seq<Seq<char>> {
    let words = match shell_split(jvm_args) {
        Some(w) => w,
        None => Seq::empty(),
    };
    let base = words + seq!["-jar"@, jar, "lsp"@];
    match config {
        Some(c) => base + seq!["--configuration"@, c],
        None => base,
    }
}

pub fn lsp_command_args(jvm_args: &str, jar_path: &str, config_path: Option<&str>) -> (r: Vec<String>)
    ensures
        strings_view(r@) == lsp_args(
            jvm_args@,
            jar_path@,
            match config_path {
                Some(c) => Some(c@),
                None => None,
            },
        ),
{
    let mut args = match split_words(jvm_args) {
        Some(w) => w,
        None => Vec::new(),
    };
    let ghost words = strings_view(args@);
    args.push("-jar".to_string());
    args.push(jar_path.to_string());
    args.push("lsp".to_string());
    match config_path {
        Some(c) => {
            args.push("--configuration".to_string());
            args.push(c.to_string());
        },
        None => {},
    }
    assert(strings_view(args@) =~= lsp_args(
        jvm_args@,
        jar_path@,
        match config_path {
            Some(c) => Some(c@),
            None => None,
        },
    ));
    args
}

/// Starting needs the path of the language server's jar.
pub fn check_jar_path(jar_path: &str) -> (r: Result<(), ServiceError>)
    ensures
        crate::text::trim(jar_path@).len() == 0 ==> (r matches Err(e) && e is InvalidRequest && e.text()
            == "Не указан путь к JAR-файлу BSL Language Server."@),
        crate::text::trim(jar_path@).len() > 0 ==> r is Ok,
{
    let t = crate::text::trim_chars(&crate::text::chars_of(jar_path));
    if t.len() == 0 {
        return Err(ServiceError::InvalidRequest("Не указан путь к JAR-файлу BSL Language Server.".to_string()));
    }
    Ok(())
}

/// The error a failed start of the server is answered with: Java missing
/// where the system could not find the program, else the failure itself.
pub open spec fn spawn_error_text(err: Seq<char>) -> Seq<char> {
    if contains(err, "No such file or directory"@) {
        "Java не найдена в PATH."@
    } else {
        "Не удалось запустить BSL Language Server: "@ + err
    }
}

pub fn spawn_error(err: &str) -> (r: ServiceError)
    ensures
        r.text() == spawn_error_text(err@),
        contains(spawn_error_text(err@), "Java не найдена"@) ==> r is JavaNotFound,
        !contains(spawn_error_text(err@), "Java не найдена"@) ==> r is Internal,
{
    let mut message = String::new();
    if contains_str(err, "No such file or directory") {
        push_str(&mut message, "Java не найдена в PATH.");
    } else {
        push_str(&mut message, "Не удалось запустить BSL Language Server: ");
        push_str(&mut message, err);
    }
    if contains_str(message.as_str(), "Java не найдена") {
        ServiceError::JavaNotFound(message)
    } else {
        ServiceError::Internal(message)
    }
}

/// The command line written to the project's log at start.
pub open spec fn startup_command(jar: Seq<char>, jvm_args: Seq<char>, config: Option<Seq<char>>) -> Seq<char> {
    let head = if jvm_args.len() == 0 {
        "java -jar "@ + slashes(jar) + " lsp"@
    } else {
        "java "@ + jvm_args + " -jar "@ + slashes(jar) + " lsp"@
    };
    match config {
        Some(c) => head + " --configuration "@ + slashes(c),
        None => head,
    }
}

pub fn startup_command_line(jar_path: &str, jvm_args: &str, config_path: Option<&str>) -> (r: String)
    ensures
        r@ == startup_command(
            jar_path@,
            jvm_args@,
            match config_path {
                Some(c) => Some(c@),
                None => None,
            },
        ),
{
    let jar = normalize_slashes(jar_path);
    let mut line = String::new();
    if crate::text::chars_of(jvm_args).len() == 0 {
        push_str(&mut line, "java -jar ");
    } else {
        push_str(&mut line, "java ");
        push_str(&mut line, jvm_args);
        push_str(&mut line, " -jar ");
    }
    push_str(&mut line, jar.as_str());
    push_str(&mut line, " lsp");
    match config_path {
        Some(c) => {
            push_str(&mut line, " --configuration ");
            let cfg = normalize_slashes(c);
            push_str(&mut line, cfg.as_str());
        },
        None => {},
    }
    line
}

/// The lines written to the project's log when its server starts: a title,
/// the command line, the root directory and its URI, then the configuration
/// file's content (`None` where it could not be read). `config_file` is the
/// file that was read: the generated configuration, or else the project's
/// own `.bsl-language-server.json`.
pub open spec fn startup_lines(
    jar: Seq<char>,
    jvm_args: Seq<char>,
    config: Option<Seq<char>>,
    root: Seq<char>,
    config_file: Seq<char>,
    content: Option<Seq<char>>,
) -> Seq<Seq<char>> {
    let root_uri = match directory_url(root) {
        Some(u) => u,
        None => root,
    };
    let head = seq![
        "─── Запуск BSL Language Server ───"@,
        "Командная строка: "@ + startup_command(jar, jvm_args, config),
        "Корневой каталог: "@ + slashes(root),
        "rootUri: "@ + root_uri,
    ];
    let tail = match content {
        Some(c) => seq!["Конфигурация BSL ("@ + slashes(config_file) + "):"@, c],
        None => if config is Some {
            seq!["Конфигурация BSL: ошибка чтения файла"@]
        } else {
            seq!["Конфигурация BSL (.bsl-language-server.json): не найдена"@]
        },
    };
    head + tail
}

pub fn startup_log_lines(
    jar_path: &str,
    jvm_args: &str,
    config_path: Option<&str>,
    root_path: &str,
    config_file: &str,
    content: Option<String>,
) -> (r: Vec<String>)
    ensures
        strings_view(r@) == startup_lines(
            jar_path@,
            jvm_args@,
            match config_path {
                Some(c) => Some(c@),
                None => None,
            },
            root_path@,
            config_file@,
            crate::models::opt_text(content),
        ),
{
    let mut lines: Vec<String> = Vec::new();
    lines.push("─── Запуск BSL Language Server ───".to_string());
    let mut cmd = "Командная строка: ".to_string();
    let command = startup_command_line(jar_path, jvm_args, config_path);
    push_str(&mut cmd, command.as_str());
    lines.push(cmd);
    let mut root = "Корневой каталог: ".to_string();
    let root_display = normalize_slashes(root_path);
    push_str(&mut root, root_display.as_str());
    lines.push(root);
    let mut uri_line = "rootUri: ".to_string();
    match url_of_directory(root_path) {
        Some(u) => push_str(&mut uri_line, u.as_str()),
        None => push_str(&mut uri_line, root_path),
    }
    lines.push(uri_line);
    let ghost ctv = crate::models::opt_text(content);
    match content {
        Some(c) => {
            let mut title = "Конфигурация BSL (".to_string();
            let file = normalize_slashes(config_file);
            push_str(&mut title, file.as_str());
            push_str(&mut title, "):");
            lines.push(title);
            lines.push(c);
        },
        None => {
            if config_path.is_some() {
                lines.push("Конфигурация BSL: ошибка чтения файла".to_string());
            } else {
                lines.push("Конфигурация BSL (.bsl-language-server.json): не найдена".to_string());
            }
        },
    }
    proof {
        let cv = match config_path {
            Some(c) => Some(c@),
            None => None,
        };
        assert(strings_view(lines@) =~= startup_lines(jar_path@, jvm_args@, cv, root_path@, config_file@, ctv));
    }
    lines
}


pub open spec fn dynamic(b: bool) -> Json {
    object_of(seq![("dynamicRegistration"@, Json::Bool(b))])
}

/// What the client tells the server it can do.
pub open spec fn client_capabilities() -> Json {
    object_of(
        seq![
            ("textDocument"@, object_of(
                seq![
                    ("publishDiagnostics"@, object_of(seq![("relatedInformation"@, Json::Bool(true))])),
                    ("documentSymbol"@, object_of(seq![("hierarchicalDocumentSymbolSupport"@, Json::Bool(true))])),
                    ("references"@, dynamic(false)),
                    ("definition"@, object_of(
                        seq![("dynamicRegistration"@, Json::Bool(false)), ("linkSupport"@, Json::Bool(true))],
                    )),
                ],
            )),
            ("window"@, object_of(seq![("workDoneProgress"@, Json::Bool(true))])),
            ("workspace"@, object_of(seq![("symbol"@, dynamic(false)), ("didChangeWatchedFiles"@, dynamic(true))])),
        ],
    )
}

/// `initialize`: our process, the project's root as a directory URL and as
/// the one workspace folder, and the client's capabilities.
pub open spec fn initialize_model(process_id: u32, root_uri: Seq<char>) -> Json {
    object_of(
        seq![
            ("processId"@, unsigned(process_id)),
            ("rootUri"@, Json::Str(root_uri)),
            ("workspaceFolders"@, Json::Array(
                seq![object_of(seq![("uri"@, Json::Str(root_uri)), ("name"@, Json::Str("project"@))])],
            )),
            ("capabilities"@, client_capabilities()),
        ],
    )
}

fn flag_object(key: &str, b: bool) -> (r: JsonValue)
    ensures
        r@ == object_of(seq![(key@, Json::Bool(b))]),
{
    let m = with_entry(empty_object(), key, JsonValue::Bool(b));
    proof {
        reveal_with_fuel(insert_each, 2);
    }
    JsonValue::Object(m)
}

fn capabilities_value() -> (r: JsonValue)
    ensures
        r@ == client_capabilities(),
{
    let definition = with_entry(empty_object(), "dynamicRegistration", JsonValue::Bool(false));
    let definition = with_entry(definition, "linkSupport", JsonValue::Bool(true));
    let td = with_entry(empty_object(), "publishDiagnostics", flag_object("relatedInformation", true));
    let td = with_entry(td, "documentSymbol", flag_object("hierarchicalDocumentSymbolSupport", true));
    let td = with_entry(td, "references", flag_object("dynamicRegistration", false));
    let td = with_entry(td, "definition", JsonValue::Object(definition));
    let ws = with_entry(empty_object(), "symbol", flag_object("dynamicRegistration", false));
    let ws = with_entry(ws, "didChangeWatchedFiles", flag_object("dynamicRegistration", true));
    let m = with_entry(empty_object(), "textDocument", JsonValue::Object(td));
    let m = with_entry(m, "window", flag_object("workDoneProgress", true));
    let m = with_entry(m, "workspace", JsonValue::Object(ws));
    proof {
        reveal_with_fuel(insert_each, 5);
    }
    JsonValue::Object(m)
}

/// The parameters of `initialize`, where the root is a path that makes a
/// directory URL.
pub fn initialize_params(process_id: u32, root_path: &str) -> (r: Result<JsonValue, String>)
    ensures
        match directory_url(root_path@) {
            Some(u) => r matches Ok(v) && v@ == initialize_model(process_id, u),
            None => r matches Err(e) && e@ == "invalid root path"@,
        },
{
    let root_uri = match url_of_directory(root_path) {
        Some(u) => u,
        None => return Err("invalid root path".to_string()),
    };
    let folder = with_entry(empty_object(), "uri", JsonValue::String(root_uri.clone()));
    let folder = with_entry(folder, "name", JsonValue::String("project".to_string()));
    let mut folders: Vec<JsonValue> = Vec::new();
    folders.push(JsonValue::Object(folder));
    proof {
        crate::json::lemma_view_items(folders@);
        reveal_with_fuel(insert_each, 3);
        assert(crate::json::view_items(folders@) =~= seq![
            object_of(seq![("uri"@, Json::Str(root_uri@)), ("name"@, Json::Str("project"@))]),
        ]);
    }
    let m = with_entry(empty_object(), "processId", crate::json::json_u64_value(process_id as u64));
    let m = with_entry(m, "rootUri", JsonValue::String(root_uri));
    let m = with_entry(m, "workspaceFolders", JsonValue::Array(folders));
    let m = with_entry(m, "capabilities", capabilities_value());
    proof {
        reveal_with_fuel(insert_each, 5);
    }
    Ok(JsonValue::Object(m))
}

} // verus!
