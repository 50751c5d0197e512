//! The JSON-RPC 2.0 envelope: requests, responses, notifications, error
//! objects, and how an incoming object is classified.
use vstd::prelude::*;

use crate::json::{
    json_as_string, json_bytes_parse, json_get, json_is_null, json_is_object, json_member_at, json_null_at,
    json_object_at, json_parse, json_string_at,
};
use vstd::string::StringSliceAdditionalSpecFns;
use crate::json::JsonAt;
use crate::text::{opt_view, str_eq};
use vstd::string::StringExecFns;

use crate::proto::error_code::{INTERNAL_ERROR, INVALID_PARAMS, METHOD_NOT_FOUND};

verus! {

/// A JSON value of `serde_json`, carried through as an opaque payload.
#[verifier::external_type_specification]
#[verifier::external_body]
pub struct ExJsonValue(serde_json::Value);

/// A JSON parse error of `serde_json`.
#[verifier::external_type_specification]
#[verifier::external_body]
pub struct ExJsonError(serde_json::Error);

/// JSON-RPC 2.0 version string — a hard constant on every envelope.
pub const JSONRPC_VERSION: &'static str = "2.0";

/// Request-response id, generated monotonically client-side.
pub type RequestId = u64;

/// A JSON-RPC 2.0 error object.
pub struct RpcError {
    pub code: i32,
    pub message: String,
    pub data: Option<serde_json::Value>,
}

impl RpcError {
    pub fn new(code: i32, message: &str) -> (r: Self)
        ensures
            r.code == code,
            r.message@ == message@,
            r.data is None,
    {
        Self { code, message: String::from_str(message), data: None }
    }

    /// The same error with `data` attached.
    pub fn with_data(self, data: serde_json::Value) -> (r: Self)
        ensures
            r.code == self.code,
            r.message@ == self.message@,
            r.data == Some(data),
    {
        let mut e = self;
        e.data = Some(data);
        e
    }

    /// `METHOD_NOT_FOUND`, naming the method.
    pub fn method_not_found(method: &str) -> (r: Self)
        ensures
            r.code == METHOD_NOT_FOUND,
            r.message@ == "method not found: "@ + method@,
            r.data is None,
    {
        let mut message = String::from_str("method not found: ");
        message.append(method);
        Self { code: METHOD_NOT_FOUND, message, data: None }
    }

    pub fn invalid_params(msg: &str) -> (r: Self)
        ensures
            r.code == INVALID_PARAMS,
            r.message@ == msg@,
            r.data is None,
    {
        Self::new(INVALID_PARAMS, msg)
    }

    pub fn internal(msg: &str) -> (r: Self)
        ensures
            r.code == INTERNAL_ERROR,
            r.message@ == msg@,
            r.data is None,
    {
        Self::new(INTERNAL_ERROR, msg)
    }
}

/// A JSON-RPC request: has an `id`, expects a matching response.
pub struct Request {
    pub jsonrpc: String,
    pub id: RequestId,
    pub method: String,
    pub params: serde_json::Value,
}

/// A JSON-RPC response: has an `id` matching a prior request, and either
/// `result` (success) or `error` (failure) — exactly one.
pub struct Response {
    pub jsonrpc: String,
    pub id: RequestId,
    pub result: Option<serde_json::Value>,
    pub error: Option<RpcError>,
}

/// A JSON-RPC notification: fire-and-forget, no `id`, no response expected.
pub struct Notification {
    pub jsonrpc: String,
    pub method: String,
    pub params: serde_json::Value,
}

/// Any incoming JSON-RPC message — request, response, or notification.
pub enum Message {
    Request(Request),
    Response(Response),
    Notification(Notification),
}

impl Request {
    pub fn new(id: RequestId, method: &str, params: serde_json::Value) -> (r: Self)
        ensures
            r.jsonrpc@ == JSONRPC_VERSION@,
            r.id == id,
            r.method@ == method@,
            r.params == params,
    {
        Self { jsonrpc: String::from_str(JSONRPC_VERSION), id, method: String::from_str(method), params }
    }
}

impl Response {
    pub fn success(id: RequestId, result: serde_json::Value) -> (r: Self)
        ensures
            r.jsonrpc@ == JSONRPC_VERSION@,
            r.id == id,
            r.result == Some(result),
            r.error is None,
    {
        Self { jsonrpc: String::from_str(JSONRPC_VERSION), id, result: Some(result), error: None }
    }

    pub fn error(id: RequestId, error: RpcError) -> (r: Self)
        ensures
            r.jsonrpc@ == JSONRPC_VERSION@,
            r.id == id,
            r.result is None,
            r.error == Some(error),
    {
        Self { jsonrpc: String::from_str(JSONRPC_VERSION), id, result: None, error: Some(error) }
    }
}

impl Notification {
    pub fn new(method: &str, params: serde_json::Value) -> (r: Self)
        ensures
            r.jsonrpc@ == JSONRPC_VERSION@,
            r.method@ == method@,
            r.params == params,
    {
        Self { jsonrpc: String::from_str(JSONRPC_VERSION), method: String::from_str(method), params }
    }
}

/// Errors from decoding a JSON-RPC envelope off the wire.
pub enum DecodeError {
    Json(serde_json::Error),
    MissingJsonRpc,
    WrongVersion(String),
    Malformed,
}

/// Which kind of message an envelope holds.
#[derive(Clone, Copy, PartialEq, Eq, Structural, Debug)]
pub enum MessageKind {
    Request,
    Response,
    Notification,
}

/// How an incoming JSON value is classified: not an object is malformed;
/// then the `jsonrpc` string must be present and be `"2.0"`; then `id` and
/// `method` decide: both a request, only `method` a notification, only
/// `id` a response (which must carry exactly one of a non-null `result` and
/// a non-null `error`, else it is malformed), neither malformed.
pub open spec fn classification(
    is_object: bool,
    jsonrpc: Option<Seq<char>>,
    has_id: bool,
    has_method: bool,
    has_result: bool,
    has_error: bool,
) -> Result<MessageKind, Option<Seq<char>>> {
    if !is_object {
        Err(None)
    } else {
        match jsonrpc {
            None => Err(Some(Seq::empty())),
            Some(v) => if v != JSONRPC_VERSION@ {
                Err(Some(v))
            } else if has_id && has_method {
                Ok(MessageKind::Request)
            } else if has_id {
                if has_result != has_error {
                    Ok(MessageKind::Response)
                } else {
                    Err(None)
                }
            } else if has_method {
                Ok(MessageKind::Notification)
            } else {
                Err(None)
            },
        }
    }
}

/// `e` is the decode error that `c` describes: `Err(None)` malformed,
/// `Err(Some(empty))` missing version, `Err(Some(v))` wrong version `v`.
pub open spec fn error_matches(e: DecodeError, c: Result<MessageKind, Option<Seq<char>>>, jsonrpc: Option<Seq<char>>) -> bool {
    match c {
        Err(None) => e is Malformed,
        Err(Some(v)) => if jsonrpc is None {
            e is MissingJsonRpc
        } else {
            e matches DecodeError::WrongVersion(w) && w@ == v
        },
        Ok(_) => false,
    }
}

/// Classify a parsed JSON value from what it holds: whether it is an
/// object, its `jsonrpc` member when that is a string, whether it has `id`
/// and `method` members, and whether it has non-null `result` and `error`
/// members.
pub fn classify(
    is_object: bool,
    jsonrpc: Option<&str>,
    has_id: bool,
    has_method: bool,
    has_result: bool,
    has_error: bool,
) -> (r: Result<MessageKind, DecodeError>)
    ensures
        ({
            let v = match jsonrpc {
                Some(s) => Some(s@),
                None => None,
            };
            let c = classification(is_object, v, has_id, has_method, has_result, has_error);
            match r {
                Ok(k) => c == Ok::<MessageKind, Option<Seq<char>>>(k),
                Err(e) => c is Err && error_matches(e, c, v),
            }
        }),
{
    if !is_object {
        return Err(DecodeError::Malformed);
    }
    let version = match jsonrpc {
        Some(v) => v,
        None => return Err(DecodeError::MissingJsonRpc),
    };
    if !str_eq(version, JSONRPC_VERSION) {
        return Err(DecodeError::WrongVersion(String::from_str(version)));
    }
    if has_id && has_method {
        Ok(MessageKind::Request)
    } else if has_id {
        if has_result != has_error {
            Ok(MessageKind::Response)
        } else {
            Err(DecodeError::Malformed)
        }
    } else if has_method {
        Ok(MessageKind::Notification)
    } else {
        Err(DecodeError::Malformed)
    }
}

/// What the envelope parsed from `src` holds, as [`classify`] reads it:
/// whether it is an object, its `jsonrpc` string, and whether it has `id`,
/// `method`, non-null `result` and non-null `error` members.
pub open spec fn envelope_facts(src: Seq<u8>) -> (bool, Option<Seq<char>>, bool, bool, bool, bool) {
    let top = Seq::<Seq<char>>::empty();
    (
        json_object_at(src, top),
        if json_member_at(src, top, "jsonrpc"@) {
            json_string_at(src, top.push("jsonrpc"@))
        } else {
            None
        },
        json_member_at(src, top, "id"@),
        json_member_at(src, top, "method"@),
        json_member_at(src, top, "result"@) && !json_null_at(src, top.push("result"@)),
        json_member_at(src, top, "error"@) && !json_null_at(src, top.push("error"@)),
    )
}

/// The classification of the envelope parsed from `src`.
pub open spec fn envelope_classification(src: Seq<u8>) -> Result<MessageKind, Option<Seq<char>>> {
    let f = envelope_facts(src);
    classification(f.0, f.1, f.2, f.3, f.4, f.5)
}

/// Whether a non-null member `key` is present at the top of the envelope.
fn has_non_null(raw: &JsonAt, key: &str) -> (r: bool)
    ensures
        r == (json_member_at(raw.source(), raw.path(), key@) && !json_null_at(
            raw.source(),
            raw.path().push(key@),
        )),
{
    match json_get(raw, key) {
        Some(v) => !json_is_null(&v),
        None => false,
    }
}

/// Decodes an envelope as far as its kind: the text must be JSON, then
/// [`classify`] decides from what the value holds. The value is handed
/// back for deserializing into the message of that kind.
pub fn decode_kind(text: &str) -> (r: Result<(MessageKind, serde_json::Value), DecodeError>)
    ensures
        r matches Err(DecodeError::Json(_)) <==> !json_bytes_parse(text.spec_bytes()),
        json_bytes_parse(text.spec_bytes()) ==> ({
            let c = envelope_classification(text.spec_bytes());
            match r {
                Ok((k, _)) => c == Ok::<MessageKind, Option<Seq<char>>>(k),
                Err(e) => c is Err && error_matches(e, c, envelope_facts(text.spec_bytes()).1),
            }
        }),
{
    let raw = match json_parse(text.as_bytes()) {
        Ok(v) => v,
        Err(e) => return Err(DecodeError::Json(e)),
    };
    let is_object = json_is_object(&raw);
    let version = match json_get(&raw, "jsonrpc") {
        Some(v) => json_as_string(&v),
        None => None,
    };
    let has_id = json_get(&raw, "id").is_some();
    let has_method = json_get(&raw, "method").is_some();
    let has_result = has_non_null(&raw, "result");
    let has_error = has_non_null(&raw, "error");
    let version_str = match &version {
        Some(s) => Some(s.as_str()),
        None => None,
    };
    proof {
        assert(opt_view(version) == envelope_facts(text.spec_bytes()).1);
    }
    match classify(is_object, version_str, has_id, has_method, has_result, has_error) {
        Ok(kind) => Ok((kind, raw.into_value())),
        Err(e) => Err(e),
    }
}

} // verus!
