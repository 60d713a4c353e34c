use burp_tools::client_errors::{rpc_error_json, ClientFailure, RpcCode, RpcErrorDetail};
use burp_tools::json_value::{member_of, JsonValue};

fn text_of(v: Option<&JsonValue>) -> String {
    match v {
        Some(JsonValue::String(s)) => s.clone(),
        other => panic!("not a text: {other:?}"),
    }
}

#[test]
fn status_details_preserve_backend_message_and_retryability() {
    let answer = rpc_error_json(ClientFailure::Rpc {
        code: RpcCode::InvalidArgument,
        message: "Invalid data".to_string(),
        detail: Some(RpcErrorDetail {
            message: "url_filter is required".to_string(),
            details: "set url_filter or in_scope_only=true".to_string(),
            retryable: false,
        }),
    });
    assert_eq!(text_of(member_of(&answer, "error")), "burp_rpc_error");
    assert_eq!(text_of(member_of(&answer, "code")), "invalidargument");
    assert_eq!(text_of(member_of(&answer, "message")), "url_filter is required");
    assert_eq!(text_of(member_of(&answer, "details")), "set url_filter or in_scope_only=true");
    assert!(matches!(member_of(&answer, "retryable"), Some(JsonValue::Bool(false))));
    assert_eq!(
        text_of(member_of(&answer, "correction")),
        "Correct the named argument or action fields and retry the same tool call."
    );
}

#[test]
fn statuses_without_detail_fall_back_to_the_code() {
    let answer = rpc_error_json(ClientFailure::Rpc {
        code: RpcCode::Unavailable,
        message: "connection refused".to_string(),
        detail: None,
    });
    assert_eq!(text_of(member_of(&answer, "code")), "unavailable");
    assert_eq!(text_of(member_of(&answer, "message")), "connection refused");
    assert!(matches!(member_of(&answer, "details"), Some(JsonValue::Null)));
    assert!(matches!(member_of(&answer, "retryable"), Some(JsonValue::Bool(true))));
    assert!(text_of(member_of(&answer, "correction")).starts_with("Start Burp Suite"));

    let answer = rpc_error_json(ClientFailure::Rpc {
        code: RpcCode::PermissionDenied,
        message: "no".to_string(),
        detail: Some(RpcErrorDetail { message: "denied".to_string(), details: String::new(), retryable: true }),
    });
    assert_eq!(text_of(member_of(&answer, "code")), "permissiondenied");
    assert!(matches!(member_of(&answer, "details"), Some(JsonValue::Null)));
    assert!(matches!(member_of(&answer, "retryable"), Some(JsonValue::Bool(true))));
    assert_eq!(
        text_of(member_of(&answer, "correction")),
        "Use the message and gRPC code to correct the call before retrying."
    );
    let answer = rpc_error_json(ClientFailure::Rpc { code: RpcCode::NotFound, message: "gone".to_string(), detail: None });
    assert!(matches!(member_of(&answer, "retryable"), Some(JsonValue::Bool(false))));
}

#[test]
fn other_failures_are_retryable_only_when_the_queue_was_full() {
    let answer = rpc_error_json(ClientFailure::Other { message: "queue full".to_string(), queue_full: true });
    assert_eq!(text_of(member_of(&answer, "error")), "burp_client_error");
    assert!(matches!(member_of(&answer, "retryable"), Some(JsonValue::Bool(true))));
    assert!(member_of(&answer, "code").is_none());
    let answer = rpc_error_json(ClientFailure::Other { message: "closed".to_string(), queue_full: false });
    assert!(matches!(member_of(&answer, "retryable"), Some(JsonValue::Bool(false))));
}
