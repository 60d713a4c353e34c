//! The answer a tool gives when a call to the Burp extension fails: the
//! status the extension reported, whether a retry may help, and what to
//! correct.
use crate::json_value::JsonValue;
use crate::text::{chars_of, string_from_chars};
use vstd::prelude::*;

verus! {

/// The status codes of a failed remote call.
#[derive(Debug, Clone, Copy, PartialEq, Eq, Structural)]
pub enum RpcCode {
    OkStatus,
    Cancelled,
    Unknown,
    InvalidArgument,
    DeadlineExceeded,
    NotFound,
    AlreadyExists,
    PermissionDenied,
    ResourceExhausted,
    FailedPrecondition,
    Aborted,
    OutOfRange,
    Unimplemented,
    Internal,
    Unavailable,
    DataLoss,
    Unauthenticated,
}

/// The error detail the extension attaches to a failed call.
#[derive(Debug, Clone)]
pub struct RpcErrorDetail {
    pub message: String,
    pub details: String,
    pub retryable: bool,
}

/// How a call to the extension failed.
#[derive(Debug, Clone)]
pub enum ClientFailure {
    /// The extension answered with a status, its message and, when it
    /// attached one, its error detail.
    Rpc { code: RpcCode, message: String, detail: Option<RpcErrorDetail> },
    /// The call did not get an answer; `queue_full` when the client's queue
    /// of calls was full.
    Other { message: String, queue_full: bool },
}

/// The lower-case name of a status code.
pub open spec fn code_name(c: RpcCode) -> Seq<char> {
    match c {
        RpcCode::OkStatus => "ok"@,
        RpcCode::Cancelled => "cancelled"@,
        RpcCode::Unknown => "unknown"@,
        RpcCode::InvalidArgument => "invalidargument"@,
        RpcCode::DeadlineExceeded => "deadlineexceeded"@,
        RpcCode::NotFound => "notfound"@,
        RpcCode::AlreadyExists => "alreadyexists"@,
        RpcCode::PermissionDenied => "permissiondenied"@,
        RpcCode::ResourceExhausted => "resourceexhausted"@,
        RpcCode::FailedPrecondition => "failedprecondition"@,
        RpcCode::Aborted => "aborted"@,
        RpcCode::OutOfRange => "outofrange"@,
        RpcCode::Unimplemented => "unimplemented"@,
        RpcCode::Internal => "internal"@,
        RpcCode::Unavailable => "unavailable"@,
        RpcCode::DataLoss => "dataloss"@,
        RpcCode::Unauthenticated => "unauthenticated"@,
    }
}

/// What to do about a failed call with status `c`.
pub open spec fn correction_for(c: RpcCode) -> Seq<char> {
    match c {
        RpcCode::InvalidArgument => "Correct the named argument or action fields and retry the same tool call."@,
        RpcCode::Unavailable => "Start Burp Suite with the Burp MCP extension, verify the configured endpoint, then retry."@,
        RpcCode::DeadlineExceeded => "Retry once; if the operation is long-running, use its background-job action and poll the returned job id."@,
        RpcCode::NotFound => "Refresh the relevant list, use a current id or index, then retry."@,
        _ => "Use the message and gRPC code to correct the call before retrying."@,
    }
}

/// A status after which a retry may help when the extension does not say.
pub open spec fn transient(c: RpcCode) -> bool {
    c == RpcCode::Unavailable || c == RpcCode::DeadlineExceeded || c == RpcCode::ResourceExhausted
}

pub open spec fn is_text(v: JsonValue, t: Seq<char>) -> bool {
    v matches JsonValue::String(s) && s@ == t
}

pub open spec fn member_text(f: Seq<(String, JsonValue)>, k: int, key: Seq<char>, t: Seq<char>) -> bool {
    f[k].0@ == key && is_text(f[k].1, t)
}

/// `r` is the answer to `e`. A status answer has `error`
/// (`burp_rpc_error`), `code`, `message` (the detail's, else the
/// status's), `details` (the detail's, `null` when there is none or it is
/// empty), `retryable` (the detail's, else whether the status is
/// transient) and the status's `correction`. Any other failure has `error`
/// (`burp_client_error`), `message`, `retryable` (a full queue) and a
/// `correction`.
pub open spec fn failure_answer_ok(e: ClientFailure, r: JsonValue) -> bool {
    r matches JsonValue::Object(f) && match e {
        ClientFailure::Rpc { code, message, detail } => {
            &&& f@.len() == 6
            &&& member_text(f@, 0, "error"@, "burp_rpc_error"@)
            &&& member_text(f@, 1, "code"@, code_name(code))
            &&& member_text(f@, 2, "message"@, match detail {
                Some(d) => d.message@,
                None => message@,
            })
            &&& f@[3].0@ == "details"@ && match detail {
                Some(d) if d.details@.len() > 0 => is_text(f@[3].1, d.details@),
                _ => f@[3].1 == JsonValue::Null,
            }
            &&& f@[4].0@ == "retryable"@ && f@[4].1 == JsonValue::Bool(
                match detail {
                    Some(d) => d.retryable,
                    None => transient(code),
                },
            )
            &&& member_text(f@, 5, "correction"@, correction_for(code))
        },
        ClientFailure::Other { message, queue_full } => {
            &&& f@.len() == 4
            &&& member_text(f@, 0, "error"@, "burp_client_error"@)
            &&& member_text(f@, 1, "message"@, message@)
            &&& f@[2].0@ == "retryable"@ && f@[2].1 == JsonValue::Bool(queue_full)
            &&& member_text(
                f@,
                3,
                "correction"@,
                "Follow the message, correct the environment or wait for an in-flight call, then retry."@,
            )
        },
    }
}

fn text(s: &str) -> (r: String)
    ensures
        r@ == s@,
{
    string_from_chars(chars_of(s).as_slice())
}

fn pair(key: &str, value: JsonValue) -> (r: (String, JsonValue))
    ensures
        r.0@ == key@,
        r.1 == value,
{
    (text(key), value)
}

fn code_text(c: RpcCode) -> (r: String)
    ensures
        r@ == code_name(c),
{
    match c {
        RpcCode::OkStatus => text("ok"),
        RpcCode::Cancelled => text("cancelled"),
        RpcCode::Unknown => text("unknown"),
        RpcCode::InvalidArgument => text("invalidargument"),
        RpcCode::DeadlineExceeded => text("deadlineexceeded"),
        RpcCode::NotFound => text("notfound"),
        RpcCode::AlreadyExists => text("alreadyexists"),
        RpcCode::PermissionDenied => text("permissiondenied"),
        RpcCode::ResourceExhausted => text("resourceexhausted"),
        RpcCode::FailedPrecondition => text("failedprecondition"),
        RpcCode::Aborted => text("aborted"),
        RpcCode::OutOfRange => text("outofrange"),
        RpcCode::Unimplemented => text("unimplemented"),
        RpcCode::Internal => text("internal"),
        RpcCode::Unavailable => text("unavailable"),
        RpcCode::DataLoss => text("dataloss"),
        RpcCode::Unauthenticated => text("unauthenticated"),
    }
}

fn correction_text(c: RpcCode) -> (r: String)
    ensures
        r@ == correction_for(c),
{
    match c {
        RpcCode::InvalidArgument => text("Correct the named argument or action fields and retry the same tool call."),
        RpcCode::Unavailable => text("Start Burp Suite with the Burp MCP extension, verify the configured endpoint, then retry."),
        RpcCode::DeadlineExceeded => text("Retry once; if the operation is long-running, use its background-job action and poll the returned job id."),
        RpcCode::NotFound => text("Refresh the relevant list, use a current id or index, then retry."),
        _ => text("Use the message and gRPC code to correct the call before retrying."),
    }
}

/// The answer a tool gives for a failed call to the extension (see
/// `failure_answer_ok`).
pub fn rpc_error_json(error: ClientFailure) -> (r: JsonValue)
    ensures
        failure_answer_ok(error, r),
{
    match error {
        ClientFailure::Rpc { code, message, detail } => {
            let (msg, details, retryable) = match detail {
                Some(d) => {
                    let details = if chars_of(d.details.as_str()).len() > 0 {
                        JsonValue::String(d.details)
                    } else {
                        JsonValue::Null
                    };
                    (d.message, details, d.retryable)
                },
                None => {
                    let transient_code = match code {
                        RpcCode::Unavailable | RpcCode::DeadlineExceeded | RpcCode::ResourceExhausted => true,
                        _ => false,
                    };
                    (message, JsonValue::Null, transient_code)
                },
            };
            let mut f: Vec<(String, JsonValue)> = Vec::new();
            f.push(pair("error", JsonValue::String(text("burp_rpc_error"))));
            f.push(pair("code", JsonValue::String(code_text(code))));
            f.push(pair("message", JsonValue::String(msg)));
            f.push(pair("details", details));
            f.push(pair("retryable", JsonValue::Bool(retryable)));
            f.push(pair("correction", JsonValue::String(correction_text(code))));
            JsonValue::Object(f)
        },
        ClientFailure::Other { message, queue_full } => {
            let mut f: Vec<(String, JsonValue)> = Vec::new();
            f.push(pair("error", JsonValue::String(text("burp_client_error"))));
            f.push(pair("message", JsonValue::String(message)));
            f.push(pair("retryable", JsonValue::Bool(queue_full)));
            f.push(
                pair(
                    "correction",
                    JsonValue::String(
                        text("Follow the message, correct the environment or wait for an in-flight call, then retry."),
                    ),
                ),
            );
            JsonValue::Object(f)
        },
    }
}

} // verus!
