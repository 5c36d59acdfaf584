//! JSON-RPC messages exchanged with the language server, and their framing
//! on its standard streams.
use vstd::prelude::*;

use crate::json::{
    insert_each, object_of, empty_object, get_str, i64_number, json_get, json_i64, json_i64_value, json_str, obj_insert, sorted_keys,
    view_entries, with_entry, Json, JsonValue,
};
use crate::json_text::{compact_json, compact_json_text, json_parse_bytes, parse_json_bytes};
use crate::text::{
    chars_of, decimal, parse_unsigned, parse_unsigned_exec, push_decimal, push_str, starts_with,
    starts_with_chars, trim, trim_chars, utf8_len, byte_len,
};

verus! {

pub open spec fn jsonrpc_version() -> Json {
    Json::Str("2.0"@)
}

/// A request: `jsonrpc`, its `id`, `method` and `params`.
pub open spec fn request_model(id: i64, method: Seq<char>, params: Json) -> Json {
    object_of(seq![("jsonrpc"@, jsonrpc_version()), ("id"@, i64_number(id)), ("method"@, Json::Str(method)), ("params"@, params)])
}

/// A notification: `jsonrpc`, `method` and `params`.
pub open spec fn notification_model(method: Seq<char>, params: Json) -> Json {
    object_of(seq![("jsonrpc"@, jsonrpc_version()), ("method"@, Json::Str(method)), ("params"@, params)])
}

/// The answer to a request of the server: `null`, under the request's id.
pub open spec fn null_reply_model(id: Json) -> Json {
    object_of(seq![("jsonrpc"@, jsonrpc_version()), ("id"@, id), ("result"@, Json::Null)])
}

pub fn request_message(id: i64, method: &str, params: JsonValue) -> (r: JsonValue)
    ensures
        r@ == request_model(id, method@, params@),
{
    let ghost pv = params@;
    let m = empty_object();
    let m = with_entry(m, "jsonrpc", JsonValue::String("2.0".to_string()));
    let m = with_entry(m, "id", json_i64_value(id));
    let m = with_entry(m, "method", JsonValue::String(method.to_string()));
    let m = with_entry(m, "params", params);
    let r = JsonValue::Object(m);
    proof {
        reveal_with_fuel(insert_each, 5);
    }
    r
}

pub fn notification_message(method: &str, params: JsonValue) -> (r: JsonValue)
    ensures
        r@ == notification_model(method@, params@),
{
    let m = empty_object();
    let m = with_entry(m, "jsonrpc", JsonValue::String("2.0".to_string()));
    let m = with_entry(m, "method", JsonValue::String(method.to_string()));
    let m = with_entry(m, "params", params);
    let r = JsonValue::Object(m);
    proof {
        reveal_with_fuel(insert_each, 4);
    }
    r
}

pub fn null_reply(id: JsonValue) -> (r: JsonValue)
    ensures
        r@ == null_reply_model(id@),
{
    let m = empty_object();
    let m = with_entry(m, "jsonrpc", JsonValue::String("2.0".to_string()));
    let m = with_entry(m, "id", id);
    let m = with_entry(m, "result", JsonValue::Null);
    let r = JsonValue::Object(m);
    proof {
        reveal_with_fuel(insert_each, 4);
    }
    r
}

/// What a message read from the server is.
pub enum Incoming {
    /// A request of the server, answered with this reply.
    ServerRequest(JsonValue),
    /// The response to our request with this id (`-1` where the id is not
    /// an integer).
    Response(i64),
    /// A notification, with its method (empty where missing) and params
    /// (`null` where missing).
    Notification(String, JsonValue),
}

pub open spec fn response_id(id: Json) -> i64 {
    match json_i64(id) {
        Some(n) => n,
        None => -1i64,
    }
}

/// Messages with an id and a method are requests of the server, those with
/// an id alone are responses, the others notifications.
pub fn classify_message(message: &JsonValue) -> (r: Incoming)
    ensures
        match json_get(message@, "id"@) {
            Some(id) => if json_get(message@, "method"@) is Some {
                r matches Incoming::ServerRequest(reply) && reply@ == null_reply_model(id)
            } else {
                r == Incoming::Response(response_id(id))
            },
            None => r matches Incoming::Notification(method, params) && method@ == (match json_str(
                json_get(message@, "method"@),
            ) {
                Some(m) => m,
                None => ""@,
            }) && params@ == (match json_get(message@, "params"@) {
                Some(p) => p,
                None => Json::Null,
            }),
        },
{
    match message.get("id") {
        Some(id) => {
            if message.get("method").is_some() {
                Incoming::ServerRequest(null_reply(id.deep_copy()))
            } else {
                let n = match id.as_i64() {
                    Some(n) => n,
                    None => -1,
                };
                Incoming::Response(n)
            }
        },
        None => {
            let method = match get_str(message, "method") {
                Some(m) => m.clone(),
                None => "".to_string(),
            };
            let params = match message.get("params") {
                Some(p) => p.deep_copy(),
                None => JsonValue::Null,
            };
            Incoming::Notification(method, params)
        },
    }
}

/// The outcome of a request from the server's response: its error, as
/// `LSP error: ` and the error's JSON, or its result (`null` where missing).
pub fn response_result(response: &JsonValue) -> (r: Result<JsonValue, String>)
    ensures
        match json_get(response@, "error"@) {
            Some(e) => r matches Err(m) && m@ == "LSP error: "@ + compact_json(e),
            None => r matches Ok(v) && v@ == (match json_get(response@, "result"@) {
                Some(x) => x,
                None => Json::Null,
            }),
        },
{
    match response.get("error") {
        Some(e) => {
            let mut m = "LSP error: ".to_string();
            let text = compact_json_text(e);
            push_str(&mut m, text.as_str());
            Err(m)
        },
        None => match response.get("result") {
            Some(x) => Ok(x.deep_copy()),
            None => Ok(JsonValue::Null),
        },
    }
}

/// The header that frames a body of this text: its length in bytes.
pub open spec fn frame_header_text(body: Seq<char>) -> Seq<char> {
    "Content-Length: "@ + decimal(utf8_len(body)) + "\r\n\r\n"@
}

/// A message as it is written: its header, then its JSON.
pub fn frame_message(message: &JsonValue) -> (r: (String, String))
    ensures
        r.1@ == compact_json(message@),
        r.0@ == frame_header_text(r.1@),
{
    let body = compact_json_text(message);
    let n = byte_len(body.as_str());
    let mut header = "Content-Length: ".to_string();
    push_decimal(&mut header, n as u64);
    push_str(&mut header, "\r\n\r\n");
    (header, body)
}

/// The message a body of bytes holds, read as JSON.
pub fn parse_message_body(body: &[u8]) -> (r: Result<JsonValue, String>)
    ensures
        match r {
            Ok(v) => json_parse_bytes(body@) == Ok::<Json, Seq<char>>(v@),
            Err(e) => json_parse_bytes(body@) == Err::<Json, Seq<char>>(e@),
        },
{
    parse_json_bytes(body)
}

/// What reading the headers of a message leads to after one line.
pub enum HeaderStep {
    /// Read another line; the length seen so far.
    Continue(Option<usize>),
    /// The headers are over: read a body of this many bytes.
    Body(usize),
    /// The message cannot be read.
    Fail(String),
}

pub open spec fn length_prefix() -> Seq<char> {
    "Content-Length: "@
}

/// One header line read: a blank line ends the headers, which must have
/// given the length; `Content-Length: ` gives it and must hold a number;
/// other headers are skipped.
pub open spec fn header_step_model(length: Option<usize>, line: Seq<char>) -> Result<(bool, Option<usize>), Seq<char>> {
    let t = trim(line);
    if t.len() == 0 {
        match length {
            Some(n) => Ok((true, Some(n))),
            None => Err("missing Content-Length header"@),
        }
    } else if starts_with(t, length_prefix()) {
        match parse_unsigned(t.skip(16), usize::MAX as u64) {
            Some(n) => Ok((false, Some(n as usize))),
            None => Err("invalid Content-Length value"@),
        }
    } else {
        Ok((false, length))
    }
}

pub fn header_step(length: Option<usize>, line: &str) -> (r: HeaderStep)
    ensures
        match header_step_model(length, line@) {
            Ok((true, Some(n))) => r == HeaderStep::Body(n),
            Ok((false, l)) => r == HeaderStep::Continue(l),
            Err(m) => r matches HeaderStep::Fail(e) && e@ == m,
            _ => false,
        },
{
    let t = trim_chars(&chars_of(line));
    if t.len() == 0 {
        return match length {
            Some(n) => HeaderStep::Body(n),
            None => HeaderStep::Fail("missing Content-Length header".to_string()),
        };
    }
    let prefix = chars_of("Content-Length: ");
    proof {
        reveal_strlit("Content-Length: ");
    }
    if starts_with_chars(&t, &prefix) {
        let mut rest: Vec<char> = Vec::new();
        let mut i: usize = 16;
        while i < t.len()
            invariant
                16 <= i <= t@.len(),
                rest@ == t@.subrange(16, i as int),
            decreases t@.len() - i,
        {
            rest.push(t[i]);
            i = i + 1;
            assert(rest@ =~= t@.subrange(16, i as int));
        }
        assert(rest@ =~= t@.skip(16));
        match parse_unsigned_exec(&rest, usize::MAX as u64) {
            Some(n) => HeaderStep::Continue(Some(n as usize)),
            None => HeaderStep::Fail("invalid Content-Length value".to_string()),
        }
    } else {
        HeaderStep::Continue(length)
    }
}

/// The writing end of the server's input.
pub struct LspWriter<W> {
    inner: W,
}

impl<W> LspWriter<W> {
    /// The stream written to.
    pub closed spec fn stream(&self) -> W {
        self.inner
    }

    pub fn new(writer: W) -> (r: LspWriter<W>)
        ensures
            r.stream() == writer,
    {
        LspWriter { inner: writer }
    }

    /// The stream written to.
    pub fn writer(&mut self) -> (r: &mut W)
        ensures
            *r == old(self).stream(),
            final(self).stream() == *final(r),
    {
        &mut self.inner
    }
}


proof fn lemma_trim_line_end(p: Seq<char>)
    requires
        p.len() > 0,
        !crate::text::is_ws(p[0]),
        !crate::text::is_ws(p.last()),
    ensures
        trim(p + "\r\n"@) == p,
{
    reveal_strlit("\r\n");
    let l = p + "\r\n"@;
    assert(l[0] == p[0]);
    assert(crate::text::trim_start(l) == l);
    assert('\n' as u32 == 10 && '\r' as u32 == 13);
    assert(crate::text::is_ws('\n') && crate::text::is_ws('\r'));
    assert(l.last() == '\n');
    assert(l.drop_last() =~= p.push('\r'));
    assert(p.push('\r').drop_last() =~= p);
    assert(crate::text::trim_end(p) == p);
    assert(crate::text::trim_end(p.push('\r')) == p);
    assert(crate::text::trim_end(l) == p);
}

/// What the writer frames, the reader reads back: the header line gives the
/// body's length in bytes, and the blank line after it ends the headers
/// with that length.
pub proof fn law_frame_length_read_back(body: Seq<char>)
    requires
        utf8_len(body) <= usize::MAX,
    ensures
        frame_header_text(body) == ("Content-Length: "@ + decimal(utf8_len(body)) + "\r\n"@) + "\r\n"@,
        header_step_model(None, "Content-Length: "@ + decimal(utf8_len(body)) + "\r\n"@) == Ok::<
            (bool, Option<usize>),
            Seq<char>,
        >((false, Some(utf8_len(body) as usize))),
        header_step_model(Some(utf8_len(body) as usize), "\r\n"@) == Ok::<(bool, Option<usize>), Seq<char>>(
            (true, Some(utf8_len(body) as usize)),
        ),
{
    let n = utf8_len(body);
    let d = decimal(n);
    reveal_strlit("Content-Length: ");
    reveal_strlit("\r\n");
    reveal_strlit("\r\n\r\n");
    assert(frame_header_text(body) =~= ("Content-Length: "@ + d + "\r\n"@) + "\r\n"@);
    crate::text::lemma_decimal_reads_back(n);
    let p = "Content-Length: "@ + d;
    assert(p[0] == 'C');
    assert(p.last() == d.last());
    assert(crate::text::is_ascii_digit(d[d.len() - 1]));
    lemma_trim_line_end(p);
    assert("Content-Length: "@ + d + "\r\n"@ == p + "\r\n"@);
    assert(starts_with(p, length_prefix())) by {
        assert(p.take(16) =~= length_prefix());
    }
    assert(p.skip(16) =~= d);
    assert(crate::text::unsigned_body(d) == d) by {
        assert(crate::text::is_ascii_digit(d[0]));
    }
    assert(trim("\r\n"@).len() == 0) by {
        assert('\n' as u32 == 10 && '\r' as u32 == 13);
        assert(crate::text::is_ws('\n') && crate::text::is_ws('\r'));
        assert("\r\n"@.drop_first() =~= seq!['\n']);
        assert(seq!['\n'].drop_first() =~= Seq::<char>::empty());
        assert(seq!['\n'][0] == '\n');
        assert(crate::text::trim_start(Seq::<char>::empty()) == Seq::<char>::empty());
        assert(crate::text::trim_start(seq!['\n']) == Seq::<char>::empty());
        assert(crate::text::trim_start("\r\n"@) == Seq::<char>::empty());
    }
}

/// A framed message reads back as one frame: its header, read line by line,
/// ends the headers with the length of its body in bytes, which is the
/// number of bytes of the UTF-8 text written after the header; the reader
/// takes exactly those bytes as the body.
pub proof fn law_framed_message_reads_back(message: Json)
    requires
        utf8_len(compact_json(message)) <= usize::MAX,
    ensures
        ({
            let body = compact_json(message);
            let n = vstd::utf8::encode_utf8(body).len();
            &&& frame_header_text(body) == ("Content-Length: "@ + decimal(n) + "\r\n"@) + "\r\n"@
            &&& header_step_model(None, "Content-Length: "@ + decimal(n) + "\r\n"@) == Ok::<
                (bool, Option<usize>),
                Seq<char>,
            >((false, Some(n as usize)))
            &&& header_step_model(Some(n as usize), "\r\n"@) == Ok::<(bool, Option<usize>), Seq<char>>(
                (true, Some(n as usize)),
            )
        }),
{
    let body = compact_json(message);
    crate::text::lemma_utf8_len_is_encoded_len(body);
    law_frame_length_read_back(body);
}

} // verus!
