use burp_tools::inputs::{
    AuditInput, BCheckTestInput,
    ProxyRuleActionInput, ProxyRulePhaseInput, RegisterProxyRuleInput,
    ControlInterceptedMessageInput, ControlInterceptedWebSocketMessageInput, InterceptActionInput,
    CreateMacroInput, MacroItemInput, MacroParameterInput, ProxyInterceptConfigInput,
    ProxyInterceptRuleBooleanOperatorInput, ProxyInterceptRuleInput,
    ProxyInterceptRuleMatchTypeInput, ProxyInterceptRuleRelationshipInput,
    ScanConfigurationUpsertInput, ScanResourcePoolUpsertInput, SessionRuleUpsertInput,
};
use burp_tools::requests::{
    audit_request, bcheck_request,
    proxy_rule_request, control_message_request, control_websocket_message_request,
    empty_proxy_intercept_config_request, macro_definition, proxy_intercept_config_request,
    scan_configuration_request, scan_pool_request, session_rule_request,
};

#[test]
fn scan_configurations_and_pools_get_their_defaults() {
    let r = scan_configuration_request(ScanConfigurationUpsertInput {
        id: None,
        name: "quick".to_string(),
        scan_type: "audit".to_string(),
        audit_type: None,
        include_out_of_scope: None,
        timeout_seconds: None,
        stable_seconds: Some(5),
        resource_pool_id: Some("pool-1".to_string()),
    });
    assert_eq!(r.id, "");
    assert_eq!(r.name, "quick");
    assert_eq!(r.audit_type, "");
    assert!(!r.include_out_of_scope);
    assert_eq!(r.timeout_seconds, 900);
    assert_eq!(r.stable_seconds, 5);
    assert_eq!(r.resource_pool_id, "pool-1");

    let p = scan_pool_request(ScanResourcePoolUpsertInput {
        id: Some("p".to_string()),
        name: "slow".to_string(),
        kind: "custom".to_string(),
        existing_pool_name: None,
        concurrent_request_limit: None,
        throttle_millis: Some(250),
        max_retries: None,
    });
    assert_eq!(p.id, "p");
    assert_eq!(p.existing_pool_name, "");
    assert_eq!(p.concurrent_request_limit, 10);
    assert_eq!(p.throttle_millis, 250);
    assert_eq!(p.max_retries, 0);
}

#[test]
fn session_rules_get_their_defaults() {
    let r = session_rule_request(SessionRuleUpsertInput {
        id: None,
        description: None,
        action_type: None,
        find: Some("a".to_string()),
        replace: None,
        header_name: None,
        parameter_name: None,
        macro_description: None,
        url_contains: None,
        tools: None,
        enabled: None,
    });
    assert_eq!(r.description, "Burp MCP session rule");
    assert_eq!(r.action_type, "replace_text");
    assert_eq!(r.find, "a");
    assert_eq!(r.replacement, "");
    assert!(r.tools.is_empty());
    assert!(r.enabled);

    let r = session_rule_request(SessionRuleUpsertInput {
        id: Some("7".to_string()),
        description: Some("login".to_string()),
        action_type: Some("use_cookies".to_string()),
        find: None,
        replace: None,
        header_name: None,
        parameter_name: None,
        macro_description: None,
        url_contains: None,
        tools: Some(vec!["proxy".to_string()]),
        enabled: Some(false),
    });
    assert_eq!(r.id, "7");
    assert_eq!(r.description, "login");
    assert_eq!(r.action_type, "use_cookies");
    assert_eq!(r.tools, vec!["proxy".to_string()]);
    assert!(!r.enabled);
}

#[test]
fn macros_are_sent_with_defaults() {
    let m = macro_definition(CreateMacroInput {
        description: "login".to_string(),
        serial_number: None,
        items: vec![MacroItemInput {
            request: "POST /login HTTP/1.1".to_string(),
            method: None,
            url: "https://a/login".to_string(),
            response: None,
            status_code: Some(302),
            cookies_received: None,
            request_parameters: Some(vec![MacroParameterInput {
                name: "csrf".to_string(),
                original_value: None,
                parameter_handling: None,
                preset_value: Some("x".to_string()),
                parameter_type: None,
            }]),
            custom_parameters: None,
        }],
    });
    assert_eq!(m.description, "login");
    assert_eq!(m.serial_number, 0);
    assert_eq!(m.items.len(), 1);
    let item = &m.items[0];
    assert_eq!(item.method, "");
    assert_eq!(item.status_code, 302);
    assert_eq!(item.request_parameters.len(), 1);
    assert_eq!(item.request_parameters[0].parameter_handling, "preset_value");
    assert_eq!(item.request_parameters[0].preset_value, "x");
    assert!(item.custom_parameters.is_empty());
}

#[test]
fn intercept_configuration_requests_convert_rules() {
    let r = proxy_intercept_config_request(ProxyInterceptConfigInput {
        master_intercept_enabled: Some(true),
        request_do_intercept: None,
        request_auto_content_length: None,
        request_fix_missing_new_lines: None,
        response_do_intercept: Some(false),
        response_auto_content_length: None,
        websocket_client_to_server: None,
        websocket_server_to_client: None,
        websocket_in_scope_only: None,
        request_rules: Some(vec![ProxyInterceptRuleInput {
            enabled: None,
            boolean_operator: Some(ProxyInterceptRuleBooleanOperatorInput::Or),
            match_type: ProxyInterceptRuleMatchTypeInput::Url,
            match_relationship: ProxyInterceptRuleRelationshipInput::Matches,
            match_condition: Some(".*admin.*".to_string()),
        }]),
        response_rules: None,
        replace_request_rules: Some(true),
        replace_response_rules: None,
        response_unhide_hidden_fields: None,
        response_enable_disabled_fields: None,
        response_remove_input_length_limits: None,
        response_remove_javascript_validation: None,
        response_remove_all_javascript: None,
    });
    assert_eq!(r.master_intercept_enabled, Some(true));
    assert_eq!(r.response_do_intercept, Some(false));
    assert_eq!(r.request_rules.len(), 1);
    assert!(r.request_rules[0].enabled);
    assert_eq!(r.request_rules[0].boolean_operator, "or");
    assert_eq!(r.request_rules[0].match_condition, ".*admin.*");
    assert!(r.response_rules.is_empty());
    assert!(r.replace_request_rules);
    assert!(!r.replace_response_rules);

    let e = empty_proxy_intercept_config_request();
    assert_eq!(e.master_intercept_enabled, None);
    assert!(e.request_rules.is_empty() && e.response_rules.is_empty());
    assert!(!e.replace_request_rules && !e.replace_response_rules);
}

#[test]
fn intercept_decisions_decode_their_replacements() {
    let r = control_message_request(ControlInterceptedMessageInput {
        id: 9,
        action: InterceptActionInput::Forward,
        message_base64: Some("R0VUIC8=".to_string()),
        max_body_length: None,
    })
    .expect("valid base64");
    assert_eq!(r.id, 9);
    assert_eq!(r.action, InterceptActionInput::Forward);
    assert_eq!(r.message, b"GET /".to_vec());

    let r = control_message_request(ControlInterceptedMessageInput {
        id: 9,
        action: InterceptActionInput::Drop,
        message_base64: None,
        max_body_length: None,
    })
    .expect("nothing to decode");
    assert!(r.message.is_empty());

    let e = control_message_request(ControlInterceptedMessageInput {
        id: 9,
        action: InterceptActionInput::Forward,
        message_base64: Some("%%%".to_string()),
        max_body_length: None,
    })
    .unwrap_err();
    assert!(e.starts_with("invalid message_base64: "), "{e}");

    let ws = |payload: Option<&str>| ControlInterceptedWebSocketMessageInput {
        id: 3,
        action: InterceptActionInput::Intercept,
        payload_base64: payload.map(str::to_string),
        max_body_length: None,
    };
    let r = control_websocket_message_request(ws(Some(""))).expect("empty base64");
    assert!(r.replace_payload);
    assert!(r.payload.is_empty());
    let r = control_websocket_message_request(ws(None)).expect("no payload");
    assert!(!r.replace_payload);
    let r = control_websocket_message_request(ws(Some("aGk="))).expect("payload");
    assert_eq!(r.payload, b"hi".to_vec());
    let e = control_websocket_message_request(ws(Some("a"))).unwrap_err();
    assert!(e.starts_with("invalid payload_base64: "), "{e}");
}

fn rule(url: &str) -> RegisterProxyRuleInput {
    RegisterProxyRuleInput {
        id: None,
        url_contains: url.to_string(),
        phase: None,
        rule_action: None,
        match_text: None,
        replace: None,
        header_name: None,
        header_value: None,
        enabled: None,
    }
}

#[test]
fn proxy_rules_get_their_defaults() {
    let r = proxy_rule_request(rule("/api/")).expect("rule");
    assert_eq!(r.id, "default");
    assert_eq!(r.phase, "request");
    assert_eq!(r.action, "forward");
    assert_eq!(r.match_text, "");
    assert!(r.enabled);

    let mut edit = rule("app.js");
    edit.id = Some("replace-js".to_string());
    edit.phase = Some(ProxyRulePhaseInput::Response);
    edit.rule_action = Some(ProxyRuleActionInput::Edit);
    edit.match_text = Some("old".to_string());
    edit.replace = Some("new".to_string());
    edit.enabled = Some(false);
    let r = proxy_rule_request(edit).expect("rule");
    assert_eq!(r.id, "replace-js");
    assert_eq!(r.phase, "response");
    assert_eq!(r.action, "edit");
    assert_eq!(r.match_text, "old");
    assert_eq!(r.replacement, "new");
    assert!(!r.enabled);

    assert_eq!(
        proxy_rule_request(rule(" \t\n")).unwrap_err(),
        "`url_contains` is required and must not be empty"
    );
}

fn audit(kind: Option<&str>) -> AuditInput {
    AuditInput {
        url: "https://a/".to_string(),
        audit_type: kind.map(str::to_string),
        scan_configuration_id: None,
        resource_pool_id: Some("pool".to_string()),
        timeout_seconds: None,
        stable_seconds: Some(3),
        include_out_of_scope: None,
    }
}

#[test]
fn audits_are_passive_or_active() {
    let r = audit_request(audit(None)).expect("passive by default");
    assert_eq!(r.audit_type, "passive");
    assert_eq!(r.scan_configuration_id, "");
    assert_eq!(r.resource_pool_id, "pool");
    assert_eq!(r.timeout_seconds, 0);
    assert_eq!(r.stable_seconds, 3);
    assert!(!r.include_out_of_scope);
    assert_eq!(audit_request(audit(Some("ACTIVE"))).expect("active").audit_type, "active");
    assert_eq!(
        audit_request(audit(Some("crawl"))).unwrap_err(),
        "audit_type must be passive or active"
    );
}

#[test]
fn bcheck_tests_default_to_https() {
    let r = bcheck_request(BCheckTestInput {
        script: "metadata:".to_string(),
        request: "GET / HTTP/1.1".to_string(),
        response: None,
        host: None,
        port: None,
        https: None,
    });
    assert!(r.https);
    assert_eq!(r.port, 443);
    assert_eq!(r.request, b"GET / HTTP/1.1".to_vec());
    assert!(r.response.is_empty());
    assert_eq!(r.host, "");
    let r = bcheck_request(BCheckTestInput {
        script: String::new(),
        request: String::new(),
        response: Some("HTTP/1.1 200 OK".to_string()),
        host: Some("a".to_string()),
        port: None,
        https: Some(false),
    });
    assert_eq!(r.port, 80);
    assert_eq!(r.response, b"HTTP/1.1 200 OK".to_vec());
}
