//! The MCP servers: which tools each offers and how a tool call is read.
use vstd::prelude::*;

use crate::json::{empty_object, get_str, json_get, json_str, json_u64, with_entry, Json, JsonValue};
use crate::json_text::pretty_json;
use crate::toon::{format_response, toon_response};
use crate::json::{insert_each, object_of};
use crate::text::{push_str, str_eq};

verus! {

/// The two MCP servers: diagnostics, and navigation in the code.
#[derive(PartialEq, Eq, Structural, Clone, Copy, Debug)]
pub enum McpKind {
    Diagnostics,
    Navigation,
}

pub open spec fn server_name_of(kind: McpKind) -> Seq<char> {
    match kind {
        McpKind::Diagnostics => "1c-lsp-diagnostics"@,
        McpKind::Navigation => "1c-lsp-navigation"@,
    }
}

pub fn server_name(kind: McpKind) -> (r: &'static str)
    ensures
        r@ == server_name_of(kind),
{
    match kind {
        McpKind::Diagnostics => "1c-lsp-diagnostics",
        McpKind::Navigation => "1c-lsp-navigation",
    }
}

/// The tools each server offers, in the order it lists them.
pub open spec fn tools_of(kind: McpKind) -> Seq<Seq<char>> {
    match kind {
        McpKind::Diagnostics => seq!["diagnostics"@],
        McpKind::Navigation => seq![
            "symbols"@,
            "definition"@,
            "references"@,
            "workspace_symbols"@,
            "incoming_calls"@,
            "outgoing_calls"@,
        ],
    }
}

pub fn tool_names(kind: McpKind) -> (r: Vec<&'static str>)
    ensures
        r@.len() == tools_of(kind).len(),
        forall|i: int| 0 <= i < r@.len() ==> (#[trigger] r@[i])@ == tools_of(kind)[i],
{
    match kind {
        McpKind::Diagnostics => vec!["diagnostics"],
        McpKind::Navigation => vec![
            "symbols",
            "definition",
            "references",
            "workspace_symbols",
            "incoming_calls",
            "outgoing_calls",
        ],
    }
}

/// A tool call as the service answers it.
pub enum ToolCall {
    Diagnostics { file_path: String },
    Symbols { file_path: String },
    Definition { file_path: String, line: u32, character: u32 },
    References { file_path: String, line: u32, character: u32 },
    WorkspaceSymbols { query: String },
    IncomingCalls { file_path: String, line: u32, character: u32 },
    OutgoingCalls { file_path: String, line: u32, character: u32 },
}

/// Why a tool call is not made: the request lacks the project header (a
/// protocol error), or the tool or its arguments are wrong (a tool error).
pub enum CallRefusal {
    MissingProject(String),
    ToolFailed(String),
}

pub open spec fn missing_arg(key: Seq<char>) -> Seq<char> {
    "Параметр "@ + key + " обязателен"@
}

/// A string argument, which must be there.
pub open spec fn str_arg(args: Json, key: Seq<char>) -> Result<Seq<char>, Seq<char>> {
    match json_str(json_get(args, key)) {
        Some(s) => Ok(s),
        None => Err(missing_arg(key)),
    }
}

/// A number argument, which must be there; it is cut to 32 bits.
pub open spec fn u32_arg(args: Json, key: Seq<char>) -> Result<u32, Seq<char>> {
    match json_u64(json_get(args, key)) {
        Some(n) => Ok(n as u32),
        None => Err(missing_arg(key)),
    }
}

fn extract_str(args: &JsonValue, key: &str) -> (r: Result<String, String>)
    ensures
        match r {
            Ok(s) => str_arg(args@, key@) == Ok::<Seq<char>, Seq<char>>(s@),
            Err(e) => str_arg(args@, key@) == Err::<Seq<char>, Seq<char>>(e@),
        },
{
    match get_str(args, key) {
        Some(s) => Ok(s.clone()),
        None => {
            let mut m = "Параметр ".to_string();
            push_str(&mut m, key);
            push_str(&mut m, " обязателен");
            Err(m)
        },
    }
}

fn extract_u32(args: &JsonValue, key: &str) -> (r: Result<u32, String>)
    ensures
        match r {
            Ok(n) => u32_arg(args@, key@) == Ok::<u32, Seq<char>>(n),
            Err(e) => u32_arg(args@, key@) == Err::<u32, Seq<char>>(e@),
        },
{
    let v = match args.get(key) {
        Some(x) => x.as_u64(),
        None => None,
    };
    match v {
        Some(n) => Ok(#[verifier::truncate] (n as u32)),
        None => {
            let mut m = "Параметр ".to_string();
            push_str(&mut m, key);
            push_str(&mut m, " обязателен");
            Err(m)
        },
    }
}

/// The position arguments of a tool: the file, the line, the character.
pub open spec fn position_args(args: Json) -> Result<(Seq<char>, u32, u32), Seq<char>> {
    match str_arg(args, "file_path"@) {
        Err(e) => Err(e),
        Ok(f) => match u32_arg(args, "line"@) {
            Err(e) => Err(e),
            Ok(l) => match u32_arg(args, "character"@) {
                Err(e) => Err(e),
                Ok(c) => Ok((f, l, c)),
            },
        },
    }
}

fn position_args_exec(args: &JsonValue) -> (r: Result<(String, u32, u32), String>)
    ensures
        match r {
            Ok((f, l, c)) => position_args(args@) == Ok::<(Seq<char>, u32, u32), Seq<char>>((f@, l, c)),
            Err(e) => position_args(args@) == Err::<(Seq<char>, u32, u32), Seq<char>>(e@),
        },
{
    let f = match extract_str(args, "file_path") {
        Ok(f) => f,
        Err(e) => return Err(e),
    };
    let l = match extract_u32(args, "line") {
        Ok(l) => l,
        Err(e) => return Err(e),
    };
    let c = match extract_u32(args, "character") {
        Ok(c) => c,
        Err(e) => return Err(e),
    };
    Ok((f, l, c))
}

/// The name of the tool called (empty where missing) and its arguments
/// (`null` where missing).
pub open spec fn call_name(params: Json) -> Seq<char> {
    match json_str(json_get(params, "name"@)) {
        Some(n) => n,
        None => ""@,
    }
}

pub open spec fn call_arguments(params: Json) -> Json {
    match json_get(params, "arguments"@) {
        Some(a) => a,
        None => Json::Null,
    }
}

pub open spec fn unknown_tool(name: Seq<char>) -> Seq<char> {
    "Неизвестный инструмент: "@ + name
}

/// The shape of a tool call, as a model: the tool's name and the arguments
/// it was given.
pub enum CallModel {
    FileCall(Seq<char>, Seq<char>),
    PositionCall(Seq<char>, Seq<char>, u32, u32),
    QueryCall(Seq<char>),
}

pub open spec fn call_model(c: ToolCall) -> CallModel {
    match c {
        ToolCall::Diagnostics { file_path } => CallModel::FileCall("diagnostics"@, file_path@),
        ToolCall::Symbols { file_path } => CallModel::FileCall("symbols"@, file_path@),
        ToolCall::Definition { file_path, line, character } => CallModel::PositionCall(
            "definition"@,
            file_path@,
            line,
            character,
        ),
        ToolCall::References { file_path, line, character } => CallModel::PositionCall(
            "references"@,
            file_path@,
            line,
            character,
        ),
        ToolCall::WorkspaceSymbols { query } => CallModel::QueryCall(query@),
        ToolCall::IncomingCalls { file_path, line, character } => CallModel::PositionCall(
            "incoming_calls"@,
            file_path@,
            line,
            character,
        ),
        ToolCall::OutgoingCalls { file_path, line, character } => CallModel::PositionCall(
            "outgoing_calls"@,
            file_path@,
            line,
            character,
        ),
    }
}

/// How a `tools/call` request is read: it needs the project header; the
/// tool must be one the server offers; its arguments must be there.
pub open spec fn plan_model(kind: McpKind, params: Json, has_project: bool) -> Result<CallModel, (bool, Seq<char>)> {
    let name = call_name(params);
    let args = call_arguments(params);
    if !has_project {
        Err((true, "Заголовок x-project-id обязателен"@))
    } else if !tools_of(kind).contains(name) {
        Err((false, unknown_tool(name)))
    } else if name == "diagnostics"@ || name == "symbols"@ {
        match str_arg(args, "file_path"@) {
            Ok(f) => Ok(CallModel::FileCall(name, f)),
            Err(e) => Err((false, e)),
        }
    } else if name == "workspace_symbols"@ {
        match str_arg(args, "query"@) {
            Ok(q) => Ok(CallModel::QueryCall(q)),
            Err(e) => Err((false, e)),
        }
    } else {
        match position_args(args) {
            Ok((f, l, c)) => Ok(CallModel::PositionCall(name, f, l, c)),
            Err(e) => Err((false, e)),
        }
    }
}

fn offers_tool(kind: McpKind, name: &str) -> (r: bool)
    ensures
        r == tools_of(kind).contains(name@),
{
    let tools = tool_names(kind);
    let mut i: usize = 0;
    while i < tools.len()
        invariant
            i <= tools@.len(),
            tools@.len() == tools_of(kind).len(),
            forall|j: int| 0 <= j < tools@.len() ==> (#[trigger] tools@[j])@ == tools_of(kind)[j],
            forall|j: int| 0 <= j < i ==> tools_of(kind)[j] != name@,
        decreases tools@.len() - i,
    {
        if str_eq(tools[i], name) {
            assert(tools_of(kind)[i as int] == name@);
            return true;
        }
        i = i + 1;
    }
    false
}

/// Reads a `tools/call` request of a server of this kind: its parameters
/// (if any) and the project header (if any).
pub fn plan_tool_call(kind: McpKind, params: Option<&JsonValue>, project_id: Option<&str>) -> (r: Result<ToolCall, CallRefusal>)
    ensures
        ({
            let pv = match params {
                Some(p) => p@,
                None => Json::Null,
            };
            match plan_model(kind, pv, project_id is Some) {
                Ok(m) => r matches Ok(c) && call_model(c) == m,
                Err((true, e)) => r matches Err(CallRefusal::MissingProject(t)) && t@ == e,
                Err((false, e)) => r matches Err(CallRefusal::ToolFailed(t)) && t@ == e,
            }
        }),
        r matches Ok(c) ==> ({
            let pv = match params {
                Some(p) => p@,
                None => Json::Null,
            };
            &&& project_id is Some
            &&& json_str(json_get(pv, "name"@)) == Some(call_tool_name(c))
            &&& tools_of(kind).contains(call_tool_name(c))
        }),
{
    proof {
        reveal_strlit("diagnostics");
        reveal_strlit("symbols");
        reveal_strlit("definition");
        reveal_strlit("references");
        reveal_strlit("workspace_symbols");
        reveal_strlit("incoming_calls");
        reveal_strlit("outgoing_calls");
        reveal_strlit("");
        assert(""@.len() == 0);
    }
    if project_id.is_none() {
        return Err(CallRefusal::MissingProject("Заголовок x-project-id обязателен".to_string()));
    }
    let null = JsonValue::Null;
    let p: &JsonValue = match params {
        Some(p) => p,
        None => &null,
    };
    let name: &str = match get_str(p, "name") {
        Some(n) => n.as_str(),
        None => "",
    };
    let args: &JsonValue = match p.get("arguments") {
        Some(a) => a,
        None => &null,
    };
    if !offers_tool(kind, name) {
        let mut m = "Неизвестный инструмент: ".to_string();
        push_str(&mut m, name);
        return Err(CallRefusal::ToolFailed(m));
    }
    if str_eq(name, "diagnostics") || str_eq(name, "symbols") {
        return match extract_str(args, "file_path") {
            Ok(f) => {
                if str_eq(name, "diagnostics") {
                    Ok(ToolCall::Diagnostics { file_path: f })
                } else {
                    Ok(ToolCall::Symbols { file_path: f })
                }
            },
            Err(e) => Err(CallRefusal::ToolFailed(e)),
        };
    }
    if str_eq(name, "workspace_symbols") {
        return match extract_str(args, "query") {
            Ok(q) => Ok(ToolCall::WorkspaceSymbols { query: q }),
            Err(e) => Err(CallRefusal::ToolFailed(e)),
        };
    }
    match position_args_exec(args) {
        Ok((file_path, line, character)) => {
            if str_eq(name, "definition") {
                Ok(ToolCall::Definition { file_path, line, character })
            } else if str_eq(name, "references") {
                Ok(ToolCall::References { file_path, line, character })
            } else if str_eq(name, "incoming_calls") {
                Ok(ToolCall::IncomingCalls { file_path, line, character })
            } else {
                Ok(ToolCall::OutgoingCalls { file_path, line, character })
            }
        },
        Err(e) => Err(CallRefusal::ToolFailed(e)),
    }
}

/// A tool's answer: one text item.
pub open spec fn tool_content(text: Seq<char>) -> Json {
    Json::Array(seq![object_of(seq![("type"@, Json::Str("text"@)), ("text"@, Json::Str(text))])])
}

fn tool_content_value(text: &str) -> (r: JsonValue)
    ensures
        r@ == tool_content(text@),
{
    let item = with_entry(empty_object(), "type", JsonValue::String("text".to_string()));
    let item = with_entry(item, "text", JsonValue::String(text.to_string()));
    let mut items: Vec<JsonValue> = Vec::new();
    items.push(JsonValue::Object(item));
    proof {
        crate::json::lemma_view_items(items@);
        reveal_with_fuel(insert_each, 3);
        assert(crate::json::view_items(items@) =~= seq![
            object_of(seq![("type"@, Json::Str("text"@)), ("text"@, Json::Str(text@))]),
        ]);
    }
    JsonValue::Array(items)
}

/// The name of the tool a call is for.
pub open spec fn call_tool_name(c: ToolCall) -> Seq<char> {
    match c {
        ToolCall::Diagnostics { .. } => "diagnostics"@,
        ToolCall::Symbols { .. } => "symbols"@,
        ToolCall::Definition { .. } => "definition"@,
        ToolCall::References { .. } => "references"@,
        ToolCall::WorkspaceSymbols { .. } => "workspace_symbols"@,
        ToolCall::IncomingCalls { .. } => "incoming_calls"@,
        ToolCall::OutgoingCalls { .. } => "outgoing_calls"@,
    }
}

pub fn tool_name(call: &ToolCall) -> (r: &'static str)
    ensures
        r@ == call_tool_name(*call),
{
    match call {
        ToolCall::Diagnostics { .. } => "diagnostics",
        ToolCall::Symbols { .. } => "symbols",
        ToolCall::Definition { .. } => "definition",
        ToolCall::References { .. } => "references",
        ToolCall::WorkspaceSymbols { .. } => "workspace_symbols",
        ToolCall::IncomingCalls { .. } => "incoming_calls",
        ToolCall::OutgoingCalls { .. } => "outgoing_calls",
    }
}

/// The result of a tool that succeeded: its value as pretty JSON text, or,
/// where the settings ask for it, as TOON with an array put under the
/// tool's name.
pub fn tool_success(tool: &str, value: &JsonValue, use_toon: bool) -> (r: JsonValue)
    ensures
        r@ == object_of(seq![("content"@, tool_content(
            if use_toon { toon_response(tool@, value@) } else { pretty_json(value@) },
        ))]),
{
    let text = format_response(tool, value, use_toon);
    let m = with_entry(empty_object(), "content", tool_content_value(text.as_str()));
    proof {
        reveal_with_fuel(insert_each, 2);
    }
    JsonValue::Object(m)
}

/// The result of a tool that failed: the message, marked as an error.
pub fn tool_error(message: &str) -> (r: JsonValue)
    ensures
        r@ == object_of(seq![("content"@, tool_content(message@)), ("isError"@, Json::Bool(true))]),
{
    let m = with_entry(empty_object(), "content", tool_content_value(message));
    let m = with_entry(m, "isError", JsonValue::Bool(true));
    proof {
        reveal_with_fuel(insert_each, 3);
    }
    JsonValue::Object(m)
}

/// The methods of the protocol the servers answer.
pub enum McpMethod {
    Initialize,
    Ping,
    ToolsList,
    ToolsCall,
    /// Any other method, answered with `Method not found: ` and its name.
    Unknown(String),
}

pub fn route_method(method: &str) -> (r: McpMethod)
    ensures
        method@ == "initialize"@ ==> r is Initialize,
        method@ == "ping"@ ==> r is Ping,
        method@ == "tools/list"@ ==> r is ToolsList,
        method@ == "tools/call"@ ==> r is ToolsCall,
        !(method@ == "initialize"@ || method@ == "ping"@ || method@ == "tools/list"@ || method@ == "tools/call"@)
            ==> (r matches McpMethod::Unknown(m) && m@ == "Method not found: "@ + method@),
{
    proof {
        reveal_strlit("initialize");
        reveal_strlit("ping");
        reveal_strlit("tools/list");
        reveal_strlit("tools/call");
        assert("ping"@.len() != "initialize"@.len());
        assert("tools/list"@[0] != "initialize"@[0] && "tools/list"@.len() != "ping"@.len());
        assert("tools/call"@[0] != "initialize"@[0] && "tools/call"@.len() != "ping"@.len());
        assert("tools/call"@[6] != "tools/list"@[6]);
    }
    if str_eq(method, "initialize") {
        McpMethod::Initialize
    } else if str_eq(method, "ping") {
        McpMethod::Ping
    } else if str_eq(method, "tools/list") {
        McpMethod::ToolsList
    } else if str_eq(method, "tools/call") {
        McpMethod::ToolsCall
    } else {
        let mut m = "Method not found: ".to_string();
        push_str(&mut m, method);
        McpMethod::Unknown(m)
    }
}

/// A planned call is the call of the tool that was asked for, one that the
/// server offers, with the arguments that were given.
pub proof fn law_planned_call_is_the_requested_tool(kind: McpKind, params: Json, has_project: bool, c: ToolCall)
    requires
        plan_model(kind, params, has_project) == Ok::<CallModel, (bool, Seq<char>)>(call_model(c)),
    ensures
        has_project,
        json_str(json_get(params, "name"@)) == Some(call_tool_name(c)),
        tools_of(kind).contains(call_tool_name(c)),
        match c {
            ToolCall::Diagnostics { file_path } => str_arg(call_arguments(params), "file_path"@) == Ok::<
                Seq<char>,
                Seq<char>,
            >(file_path@),
            ToolCall::Symbols { file_path } => str_arg(call_arguments(params), "file_path"@) == Ok::<
                Seq<char>,
                Seq<char>,
            >(file_path@),
            ToolCall::WorkspaceSymbols { query } => str_arg(call_arguments(params), "query"@) == Ok::<
                Seq<char>,
                Seq<char>,
            >(query@),
            ToolCall::Definition { file_path, line, character } => position_args(call_arguments(params)) == Ok::<
                (Seq<char>, u32, u32),
                Seq<char>,
            >((file_path@, line, character)),
            ToolCall::References { file_path, line, character } => position_args(call_arguments(params)) == Ok::<
                (Seq<char>, u32, u32),
                Seq<char>,
            >((file_path@, line, character)),
            ToolCall::IncomingCalls { file_path, line, character } => position_args(call_arguments(params))
                == Ok::<(Seq<char>, u32, u32), Seq<char>>((file_path@, line, character)),
            ToolCall::OutgoingCalls { file_path, line, character } => position_args(call_arguments(params))
                == Ok::<(Seq<char>, u32, u32), Seq<char>>((file_path@, line, character)),
        },
{
    reveal_strlit("");
    assert(""@.len() == 0);
    reveal_strlit("diagnostics");
    reveal_strlit("symbols");
    reveal_strlit("definition");
    reveal_strlit("references");
    reveal_strlit("workspace_symbols");
    reveal_strlit("incoming_calls");
    reveal_strlit("outgoing_calls");
}

} // verus!
