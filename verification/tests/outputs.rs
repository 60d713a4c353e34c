use base64::Engine as _;
use burp_tools::tools::DEFAULT_MAX_BODY_LENGTH;
use burp_tools::inputs::{
    ProxyInterceptRuleBooleanOperatorInput, ProxyInterceptRuleInput, ProxyInterceptRuleMatchTypeInput, ProxyInterceptRuleRelationshipInput,
    ProxySettingsUpdateInput,
};
use burp_tools::outputs::{
    detail_bodies, history_bodies, history_page_limit, non_empty, intercepted_message_output, intercepted_websocket_message_output, proxy_settings_operation,
    to_send_output_with_options, InterceptedMessage, InterceptedWebSocketMessage,
    ProxySettingsOperation,
};
use burp_tools::proto::SendRequestResponse;

fn settings(operation: &str) -> ProxySettingsUpdateInput {
    ProxySettingsUpdateInput {
        operation: operation.to_string(),
        port: None,
        running: None,
        listen_mode: None,
        listen_specific_address: None,
        certificate_mode: None,
        enable_http2: None,
        support_invisible_proxying: None,
        target: None,
        mode: None,
        script: None,
        script_id: None,
        script_name: None,
        kind: None,
        index: None,
        rule: None,
        master_enabled: None,
        request_enabled: None,
        response_enabled: None,
    }
}

#[test]
fn listener_upserts_fill_in_defaults() {
    let mut input = settings("listener_upsert");
    assert_eq!(proxy_settings_operation(input.clone()).err(), Some("port is required"));
    input.port = Some(8081);
    match proxy_settings_operation(input).unwrap() {
        ProxySettingsOperation::ListenerUpsert(l) => {
            assert_eq!(l.port, 8081);
            assert!(l.running);
            assert_eq!(l.listen_mode, "loopback_only");
            assert_eq!(l.listen_specific_address, "");
            assert_eq!(l.certificate_mode, "per_host");
            assert!(l.enable_http2);
            assert!(!l.support_invisible_proxying);
        }
        other => panic!("unexpected {other:?}"),
    }
}

#[test]
fn other_settings_operations_need_their_fields() {
    assert_eq!(
        proxy_settings_operation(settings("script_filter_delete")).err(),
        Some("target is required")
    );
    let mut input = settings("intercept_rule_upsert");
    input.kind = Some("request".to_string());
    assert_eq!(proxy_settings_operation(input.clone()).err(), Some("rule is required"));
    input.rule = Some(ProxyInterceptRuleInput {
        enabled: None,
        boolean_operator: None,
        match_type: ProxyInterceptRuleMatchTypeInput::Url,
        match_relationship: ProxyInterceptRuleRelationshipInput::IsInTargetScope,
        match_condition: None,
    });
    match proxy_settings_operation(input).unwrap() {
        ProxySettingsOperation::InterceptRuleUpsert { kind, index, rule } => {
            assert_eq!(kind, "request");
            assert_eq!(index, None);
            assert!(rule.enabled);
            assert_eq!(rule.boolean_operator, "and");
            assert_eq!(rule.match_type, "url");
        }
        other => panic!("unexpected {other:?}"),
    }
    let mut input = settings("intercept_rule_delete");
    input.kind = Some("response".to_string());
    assert_eq!(proxy_settings_operation(input).err(), Some("index is required"));
    assert_eq!(
        proxy_settings_operation(settings("intercept_toggle")).err(),
        Some("intercept_toggle requires master_enabled, request_enabled, or response_enabled")
    );
    let mut input = settings("intercept_toggle");
    input.request_enabled = Some(false);
    assert!(matches!(
        proxy_settings_operation(input),
        Ok(ProxySettingsOperation::InterceptToggle { request_enabled: Some(false), master_enabled: None, .. })
    ));
    assert!(proxy_settings_operation(settings("reboot")).err().unwrap().starts_with("operation must be"));
}

#[test]
fn sent_exchanges_are_rendered_and_bounded() {
    let response = SendRequestResponse {
        request: b"GET / HTTP/1.1\r\nHost: a\r\n\r\n".to_vec(),
        response: b"HTTP/1.1 200 OK\r\nX: y\r\n\r\n0123456789".to_vec(),
        status: 200,
        has_response: true,
    };
    let out = to_send_output_with_options(response.clone(), true, None, None, None);
    assert_eq!(out.request, "GET / HTTP/1.1\r\nHost: a");
    assert_eq!(out.response.as_deref(), Some("HTTP/1.1 200 OK\r\nX: y"));
    assert_eq!(out.status, Some(200));
    assert_eq!(out.truncated, None);
    let out = to_send_output_with_options(response, false, None, None, Some(20));
    assert!(out.response.unwrap().ends_with("... [truncated 15 bytes]"));
    assert_eq!(out.truncated, Some(true));
    let silent = SendRequestResponse {
        request: b"GET / HTTP/1.1\r\n\r\n".to_vec(),
        response: vec![],
        status: 0,
        has_response: false,
    };
    let out = to_send_output_with_options(silent, false, None, None, None);
    assert_eq!(out.response, None);
    assert_eq!(out.status, None);
}

#[test]
fn intercepted_messages_show_bodies_only_when_asked() {
    let item = InterceptedMessage {
        id: 7,
        direction: "request".to_string(),
        phase: "pre".to_string(),
        url: "https://a/".to_string(),
        method: "GET".to_string(),
        status: 0,
        is_in_scope: true,
        request: b"abcdef".to_vec(),
        response: vec![],
    };
    let out = intercepted_message_output(item.clone(), false, None);
    assert_eq!(out.request_base64, None);
    assert_eq!(out.request_length, Some(6));
    assert_eq!(out.response_length, None);
    let out = intercepted_message_output(item, true, Some(3));
    assert_eq!(out.request_base64.as_deref(), Some("YWJj"));
    assert_eq!(out.request_truncated, Some(true));
    assert_eq!(out.response_base64, None);

    let ws = InterceptedWebSocketMessage {
        id: 1,
        web_socket_id: 2,
        upgrade_url: "wss://a/".to_string(),
        direction: "client_to_server".to_string(),
        message_type: "text".to_string(),
        phase: "pre".to_string(),
        payload: b"hi".to_vec(),
    };
    let out = intercepted_websocket_message_output(ws, true, None);
    assert_eq!(out.payload_base64.as_deref(), Some("aGk="));
    assert_eq!(out.payload_truncated, None);
    assert_eq!(out.payload_length, Some(2));
}

#[test]
fn history_items_show_bodies_only_when_asked() {
    let request = b"GET / HTTP/1.1\r\n\r\n";
    let response = b"HTTP/1.1 200 OK\r\nContent-Type: text/plain\r\n\r\nhello";
    let b = history_bodies(request, response, true, "text/plain", false, false, None, None, None);
    assert_eq!(b.request_length, Some(request.len()));
    assert_eq!(b.response_length, Some(response.len()));
    assert_eq!(b.request_base64, None);
    assert_eq!(b.extracted_text, None);
    assert_eq!(b.body_truncated, None);

    let b = history_bodies(request, response, true, "", true, true, None, None, Some(8));
    assert_eq!(b.request_base64.as_deref(), Some("R0VUIC8gSFQ="));
    assert_eq!(b.request_truncated, Some(true));
    assert_eq!(b.response_truncated, Some(true));
    assert_eq!(b.body_truncated, Some(true));
    assert!(b.extracted_text.unwrap().starts_with("HTTP/1.1"));

    let b = history_bodies(request, &[], false, "", true, false, None, None, None);
    assert_eq!(b.response_length, None);
    assert_eq!(b.response_base64, None);

    let b = history_bodies(request, b"\x89PNG", true, "image/png", true, false, None, None, None);
    assert_eq!(b.extracted_text.as_deref(), Some("<binary data: 4 bytes [image/png]>"));
    assert_eq!(b.body_truncated, None);
}

#[test]
fn history_pages_and_empty_texts() {
    assert_eq!(history_page_limit(None), Ok(100));
    assert_eq!(history_page_limit(Some(500)), Ok(500));
    assert_eq!(history_page_limit(Some(501)), Err("limit must be at most 500"));
    assert_eq!(non_empty(String::new()), None);
    assert_eq!(non_empty("note".to_string()).as_deref(), Some("note"));
}

#[test]
fn item_details_bound_both_bodies() {
    let request = b"POST /x HTTP/1.1\r\nHost: a\r\n\r\nk=v";
    let d = detail_bodies(request, &[], false, None, None, None);
    assert_eq!(d.request_length, Some(request.len()));
    assert_eq!(d.response_length, None);
    assert_eq!(d.response_base64, None);
    assert_eq!(d.response_text, None);
    assert_eq!(d.request_text.as_deref(), Some("POST /x HTTP/1.1\r\nHost: a\r\n\r\nk=v"));
    assert_eq!(d.truncated, None);

    let d = detail_bodies(&[], b"HTTP/1.1 200 OK\r\n\r\n0123456789", true, None, None, Some(4));
    assert_eq!(d.request_length, Some(0));
    assert_eq!(d.request_base64, None);
    assert_eq!(d.request_text.as_deref(), Some(""));
    assert_eq!(d.response_base64.as_deref(), Some("SFRUUA=="));
    assert_eq!(d.response_truncated, Some(true));
    assert_eq!(d.truncated, Some(true));
}

#[test]
fn intercepted_message_output_is_metadata_only_by_default_and_bounds_explicit_body() {
    let large_req = vec![b'R'; 1_700_000];
    let large_resp = vec![b'S'; 1_700_000];
    let proto_msg = InterceptedMessage {
        id: 42,
        direction: "client_to_server".to_owned(),
        phase: "request".to_owned(),
        url: "https://example.test/upload".to_owned(),
        method: "POST".to_owned(),
        status: 200,
        is_in_scope: true,
        request: large_req.clone(),
        response: large_resp.clone(),
    };

    let meta_output = intercepted_message_output(proto_msg.clone(), false, None);
    assert_eq!(meta_output.request_base64, None);
    assert_eq!(meta_output.response_base64, None);
    assert_eq!(meta_output.request_length, Some(1_700_000));
    assert_eq!(meta_output.response_length, Some(1_700_000));

    let bounded_output = intercepted_message_output(proto_msg.clone(), true, None);
    assert!(bounded_output.request_base64.is_some());
    assert_eq!(bounded_output.request_truncated, Some(true));
    assert_eq!(bounded_output.request_length, Some(1_700_000));
    let decoded_req = base64::engine::general_purpose::STANDARD
        .decode(bounded_output.request_base64.unwrap())
        .expect("decoded request base64");
    assert_eq!(decoded_req.len(), DEFAULT_MAX_BODY_LENGTH);

    let custom_output = intercepted_message_output(proto_msg, true, Some(128));
    let decoded_custom = base64::engine::general_purpose::STANDARD
        .decode(custom_output.request_base64.unwrap())
        .expect("decoded custom base64");
    assert_eq!(decoded_custom.len(), 128);
}

#[test]
fn intercepted_websocket_message_output_is_metadata_only_by_default_and_bounds_explicit_body() {
    let large_payload = vec![b'W'; 1_700_000];
    let proto_ws = InterceptedWebSocketMessage {
        id: 101,
        web_socket_id: 1,
        upgrade_url: "wss://example.test/ws".to_owned(),
        direction: "client_to_server".to_owned(),
        message_type: "text".to_owned(),
        phase: "message".to_owned(),
        payload: large_payload,
    };

    let meta_ws = intercepted_websocket_message_output(proto_ws.clone(), false, None);
    assert_eq!(meta_ws.payload_base64, None);
    assert_eq!(meta_ws.payload_length, Some(1_700_000));

    let bounded_ws = intercepted_websocket_message_output(proto_ws, true, None);
    assert!(bounded_ws.payload_base64.is_some());
    assert_eq!(bounded_ws.payload_truncated, Some(true));
    assert_eq!(bounded_ws.payload_length, Some(1_700_000));
    let decoded_ws = base64::engine::general_purpose::STANDARD
        .decode(bounded_ws.payload_base64.unwrap())
        .expect("decoded websocket base64");
    assert_eq!(decoded_ws.len(), DEFAULT_MAX_BODY_LENGTH);
}

#[test]
fn to_send_output_with_options_truncates_large_payloads_with_default_cap() {
    let large_response = vec![b'A'; 1_700_000];
    let proto_resp = SendRequestResponse {
        request: b"GET / HTTP/1.1\r\nHost: example.test\r\n\r\n".to_vec(),
        response: large_response,
        has_response: true,
        status: 200,
    };
    let send_output = to_send_output_with_options(proto_resp, false, None, None, None);
    assert_eq!(send_output.truncated, Some(true));
    assert!(send_output.response.is_some());
    let resp_text = send_output.response.unwrap();
    assert!(resp_text.contains("... [truncated"));
}

#[test]
fn proxy_settings_operations_build_typed_interception_mutations() {
    let mut input = settings("intercept_rule_upsert");
    input.kind = Some("request".to_owned());
    input.rule = Some(ProxyInterceptRuleInput {
        enabled: Some(true),
        boolean_operator: Some(ProxyInterceptRuleBooleanOperatorInput::And),
        match_type: ProxyInterceptRuleMatchTypeInput::Url,
        match_relationship: ProxyInterceptRuleRelationshipInput::Matches,
        match_condition: Some(".*/admin.*".to_owned()),
    });
    let upsert = proxy_settings_operation(input).expect("rule upsert must build");
    assert!(matches!(upsert, ProxySettingsOperation::InterceptRuleUpsert { .. }));

    let mut input = settings("intercept_toggle");
    input.request_enabled = Some(true);
    input.response_enabled = Some(false);
    let toggle = proxy_settings_operation(input).expect("toggle must build");
    assert!(matches!(toggle, ProxySettingsOperation::InterceptToggle { .. }));
}
