//! JSON-RPC 2.0 envelopes: the request and notification bodies this client
//! writes, and the reading of the messages it receives.

use crate::framing::{decimal, encode_frame, frame_of, push_decimal};
use serde_json::Value;
use vstd::prelude::*;
use vstd::string::{StringExecFns, StringSliceAdditionalSpecFns};

verus! {

/// `serde_json::Value`, a JSON document: carried through unopened; what is
/// read from it is read through the functions below.
#[verifier::external_type_specification]
#[verifier::external_body]
pub struct ExValue(serde_json::Value);

/// `serde_json::Error`, why `serde_json` refused to write or read.
#[verifier::external_type_specification]
#[verifier::external_body]
pub struct ExJsonError(serde_json::Error);

/// What `serde_json` writes for a string: a JSON string literal.
pub uninterp spec fn json_string_text(s: Seq<char>) -> Seq<u8>;

/// Whether `serde_json` reads the bytes as one JSON document.
pub uninterp spec fn is_json_document(b: Seq<u8>) -> bool;

/// Relies on `serde_json::to_vec` on a `str`: the string written as a JSON
/// string literal, which depends on its characters alone. Writing into a
/// `Vec` cannot fail, and a string's serialization never refuses.
#[verifier::external_body]
fn json_string(s: &str) -> (r: Result<Vec<u8>, serde_json::Error>)
    ensures
        r is Ok,
        r matches Ok(b) ==> b@ == json_string_text(s@),
{
    serde_json::to_vec(s)
}

/// Relies on `serde_json::to_vec` on a `Value`: its JSON text. Writing into
/// a `Vec` cannot fail, and a `Value`'s serialization never refuses (its
/// object keys are strings).
#[verifier::external_body]
fn json_value(v: &Value) -> (r: Result<Vec<u8>, serde_json::Error>)
    ensures
        r is Ok,
{
    serde_json::to_vec(v)
}

/// Relies on `serde_json::from_slice`: it reads the bytes as one JSON
/// document, or fails, depending on the bytes alone.
#[verifier::external_body]
fn parse_json(b: &[u8]) -> (r: Result<Value, serde_json::Error>)
    ensures
        r is Ok <==> is_json_document(b@),
{
    serde_json::from_slice(b)
}

/// The members of a received message that decide what it is.
#[derive(Debug)]
pub struct MessageFields {
    /// Whether it has a `method` member.
    pub has_method: bool,
    /// Its `id` member, where that is an integer that fits in `i64`.
    pub id: Option<i64>,
    /// Whether it has an `error` member, and that member's `message`
    /// where it is a string.
    pub error: Option<Option<String>>,
    /// Its `result` member.
    pub result: Option<Value>,
}

/// Relies on `serde_json::Value::get`, `Value::as_i64`, `Value::as_str` and
/// `Map::remove`: the members that decide what a message is, moved out of
/// it.
#[verifier::external_body]
fn fields_of(v: Value) -> (r: MessageFields) {
    let has_method = v.get("method").is_some();
    let id = v.get("id").and_then(Value::as_i64);
    let error = v.get("error").map(|e| e.get("message").and_then(Value::as_str).map(String::from));
    let result = match v {
        Value::Object(mut m) => m.remove("result"),
        _ => None,
    };
    MessageFields { has_method, id, error, result }
}

/// The JSON text of a value, as `serde_json` writes it.
pub fn json_text(v: &Value) -> Vec<u8> {
    match json_value(v) {
        Ok(b) => b,
        Err(_) => Vec::new(),
    }
}

pub const REQUEST_HEAD: &'static str = "{\"jsonrpc\":\"2.0\",\"id\":";

pub const NOTIFICATION_HEAD: &'static str = "{\"jsonrpc\":\"2.0\"";

pub const METHOD_FIELD: &'static str = ",\"method\":";

pub const PARAMS_FIELD: &'static str = ",\"params\":";

pub const CLOSE: &'static str = "}";

/// The body of a request: version, id, method and parameters, in that order.
pub open spec fn request_text(id: nat, method: Seq<u8>, params: Seq<u8>) -> Seq<u8> {
    REQUEST_HEAD.spec_bytes() + decimal(id) + METHOD_FIELD.spec_bytes() + method
        + PARAMS_FIELD.spec_bytes() + params + CLOSE.spec_bytes()
}

/// The body of a notification: version, method and parameters, and no id.
pub open spec fn notification_text(method: Seq<u8>, params: Seq<u8>) -> Seq<u8> {
    NOTIFICATION_HEAD.spec_bytes() + METHOD_FIELD.spec_bytes() + method
        + PARAMS_FIELD.spec_bytes() + params + CLOSE.spec_bytes()
}

/// The body of a request, given the method as JSON text and the parameters
/// as JSON text.
pub fn request_body(id: u64, method_json: &[u8], params_json: &[u8]) -> (r: Vec<u8>)
    ensures
        r@ == request_text(id as nat, method_json@, params_json@),
{
    let mut out: Vec<u8> = Vec::new();
    out.extend_from_slice(REQUEST_HEAD.as_bytes());
    push_decimal(&mut out, id);
    out.extend_from_slice(METHOD_FIELD.as_bytes());
    out.extend_from_slice(method_json);
    out.extend_from_slice(PARAMS_FIELD.as_bytes());
    out.extend_from_slice(params_json);
    out.extend_from_slice(CLOSE.as_bytes());
    assert(out@ =~= request_text(id as nat, method_json@, params_json@));
    out
}

/// The body of a notification, given the method and the parameters as JSON text.
pub fn notification_body(method_json: &[u8], params_json: &[u8]) -> (r: Vec<u8>)
    ensures
        r@ == notification_text(method_json@, params_json@),
{
    let mut out: Vec<u8> = Vec::new();
    out.extend_from_slice(NOTIFICATION_HEAD.as_bytes());
    out.extend_from_slice(METHOD_FIELD.as_bytes());
    out.extend_from_slice(method_json);
    out.extend_from_slice(PARAMS_FIELD.as_bytes());
    out.extend_from_slice(params_json);
    out.extend_from_slice(CLOSE.as_bytes());
    assert(out@ =~= notification_text(method_json@, params_json@));
    out
}

fn method_text(method: &str) -> (r: Vec<u8>)
    ensures
        r@ == json_string_text(method@),
{
    match json_string(method) {
        Ok(m) => m,
        Err(_) => Vec::new(),
    }
}

/// The frame of a request, ready to be written in one piece, given the
/// parameters as JSON text (see `json_text`).
pub fn encode_request(id: u64, method: &str, params_json: &[u8]) -> (r: Vec<u8>)
    ensures
        r@ == frame_of(request_text(id as nat, json_string_text(method@), params_json@)),
{
    let m = method_text(method);
    let body = request_body(id, m.as_slice(), params_json);
    encode_frame(body.as_slice())
}

/// The frame of a notification, ready to be written in one piece, given the
/// parameters as JSON text (see `json_text`).
pub fn encode_notification(method: &str, params_json: &[u8]) -> (r: Vec<u8>)
    ensures
        r@ == frame_of(notification_text(json_string_text(method@), params_json@)),
{
    let m = method_text(method);
    let body = notification_body(m.as_slice(), params_json);
    encode_frame(body.as_slice())
}

/// What a response to one of this client's requests carries.
#[derive(Debug)]
pub enum Reply {
    /// The `result` member.
    Result(Value),
    /// An `error` member, with its `message` (empty where it has none).
    Error(String),
    /// Neither member.
    Missing,
}

/// A message read from the server.
#[derive(Debug)]
pub enum Incoming {
    /// A response, matched to its request by `id`.
    Response { id: i64, reply: Reply },
    /// A notification or a request of the server's own, which this client
    /// does not answer.
    Other,
}

/// The payload of a frame is not a JSON document.
#[derive(PartialEq, Eq, Structural, Clone, Copy, Debug)]
pub struct NotJson;

/// What a message is, from the members that decide it: one with a
/// `method` comes from the server on its own account; otherwise one with an
/// integer `id` is a response to that id, whose `error` wins over its
/// `result`, an error without a string message giving an empty one; with
/// neither member the reply is missing. Anything else is not for this
/// client.
pub open spec fn classified(f: MessageFields, m: Incoming) -> bool {
    if f.has_method {
        m is Other
    } else {
        match f.id {
            None => m is Other,
            Some(id) => match m {
                Incoming::Response { id: rid, reply } => rid == id && match f.error {
                    Some(Some(text)) => reply == Reply::Error(text),
                    Some(None) => reply matches Reply::Error(e) && e@.len() == 0,
                    None => match f.result {
                        Some(v) => reply == Reply::Result(v),
                        None => reply is Missing,
                    },
                },
                _ => false,
            },
        }
    }
}

/// Decides what a received message is; see `classified`.
pub fn classify(f: MessageFields) -> (r: Incoming)
    ensures
        classified(f, r),
{
    if f.has_method {
        return Incoming::Other;
    }
    match f.id {
        None => Incoming::Other,
        Some(id) => {
            let reply = match f.error {
                Some(Some(m)) => Reply::Error(m),
                Some(None) => Reply::Error(String::new()),
                None => match f.result {
                    Some(v) => Reply::Result(v),
                    None => Reply::Missing,
                },
            };
            Incoming::Response { id, reply }
        },
    }
}

/// Reads a frame's payload: the JSON document it holds, classified.
pub fn read_message(body: &[u8]) -> (r: Result<Incoming, NotJson>)
    ensures
        r is Ok <==> is_json_document(body@),
        r matches Ok(m) ==> exists|f: MessageFields| classified(f, m),
{
    match parse_json(body) {
        Ok(v) => Ok(classify(fields_of(v))),
        Err(_) => Err(NotJson),
    }
}

/// Why an operation failed: the server said no (`Remote`), or the transport
/// broke, or the wait ran out.
#[derive(PartialEq, Eq, Debug)]
pub enum Failure {
    /// The server could not be started.
    Spawn(String),
    /// Reading from or writing to the server failed.
    Io(String),
    /// A frame or a message could not be read, or a response carried
    /// neither a result nor an error.
    Protocol(String),
    /// The server answered with an error object; its message.
    Remote(String),
    /// No response came within the bound.
    Timeout,
}

/// The outcome of a response: its result, or the server's error, or a
/// protocol failure where it carries neither.
pub fn reply_outcome(reply: Reply) -> (r: Result<Value, Failure>)
    ensures
        match reply {
            Reply::Result(v) => r == Ok::<Value, Failure>(v),
            Reply::Error(m) => r == Err::<Value, Failure>(Failure::Remote(m)),
            Reply::Missing => r matches Err(Failure::Protocol(_)),
        },
{
    match reply {
        Reply::Result(v) => Ok(v),
        Reply::Error(m) => Err(Failure::Remote(m)),
        Reply::Missing => Err(Failure::Protocol(String::from_str("response without result"))),
    }
}

} // verus!
