use burp_tools::dispatch::{
    plan_collaborator_action, plan_diff_action, plan_fuzzer_action, plan_http_action,
    plan_proxy_action, plan_scan_config_action, plan_scanner_action, plan_sitegraph_action,
    plan_target_action, CollaboratorCall, DiffCall, FuzzerCall, HttpCall, ProxyCall,
    ScanConfigCall, ScannerCall, SiteGraphCall, TargetCall, plan_logger_action,
    plan_organizer_action, plan_session_action, plan_websocket_action, LoggerCall,
    OrganizerCall, SessionCall, WebSocketCall, plan_settings_action, SettingsCall,
};
use burp_tools::inputs::{ProxyRuleActionInput, ProxyRulePhaseInput};
use burp_tools::suite::{
    CollaboratorActionInput, DiffActionInput, ScanConfigActionInput, TargetActionInput,
    FuzzerActionInput, HttpAction, HttpActionInput, ProxyActionInput, ScannerActionInput,
    SiteGraphActionInput, LoggerActionInput, OrganizerActionInput, SessionActionInput,
    WebSocketActionInput, SettingsAction, SettingsActionInput,
};

fn fuzzer(action: &str) -> FuzzerActionInput {
    FuzzerActionInput {
        action: action.to_string(),
        template: None,
        host: None,
        port: None,
        https: None,
        marker: None,
        wordlist: None,
        payload_list_id: None,
        payload_offset: None,
        attack_mode: None,
        markers: None,
        request: None,
        count: None,
        single_packet_attack: None,
        tab_name: None,
        id: None,
        name: None,
        payloads: None,
    }
}

fn sitegraph(action: &str) -> SiteGraphActionInput {
    SiteGraphActionInput {
        action: action.to_string(),
        url_prefix: None,
        query: None,
        id: None,
        from_id: None,
        to_id: None,
        limit: None,
        cursor: None,
        max_depth: None,
        since: None,
        profile: None,
        format: None,
        snapshot_id: None,
        spec_content: None,
        view_name: None,
    }
}

#[test]
fn fuzzer_actions_pick_their_tools_and_defaults() {
    let mut input = fuzzer("fuzz");
    input.template = Some("GET /?q=§x§ HTTP/1.1".to_string());
    input.port = Some(8443);
    match plan_fuzzer_action(input) {
        Some(FuzzerCall::Fuzz(x)) => {
            assert_eq!(x.template, "GET /?q=§x§ HTTP/1.1");
            assert_eq!(x.host, "");
            assert_eq!(x.port, Some(8443));
        }
        other => panic!("unexpected {other:?}"),
    }
    match plan_fuzzer_action(fuzzer("create_payload_list")) {
        Some(FuzzerCall::CreatePayloadList(x)) => {
            assert_eq!(x.id, "default");
            assert_eq!(x.display_name, "default");
            assert!(x.payloads.is_empty());
        }
        other => panic!("unexpected {other:?}"),
    }
    let mut input = fuzzer("import_payload_list");
    input.name = Some("Words".to_string());
    match plan_fuzzer_action(input) {
        Some(FuzzerCall::ImportPayloadList(x)) => {
            assert_eq!(x.id, "imported");
            assert_eq!(x.display_name, "Words");
            assert_eq!(x.keep_empty, None);
        }
        other => panic!("unexpected {other:?}"),
    }
    let mut input = fuzzer("upsert_payloads");
    input.id = Some("L1".to_string());
    input.payloads = Some(vec!["a".to_string()]);
    match plan_fuzzer_action(input) {
        Some(FuzzerCall::UpsertPayloads(x)) => {
            assert_eq!(x.operation, "replace_all");
            assert_eq!(x.display_name.as_deref(), Some("L1"));
            assert_eq!(x.payloads, Some(vec!["a".to_string()]));
        }
        other => panic!("unexpected {other:?}"),
    }
    match plan_fuzzer_action(fuzzer("register_payload_processor")) {
        Some(FuzzerCall::RegisterPayloadProcessor(x)) => assert_eq!(x.operation, "prefix"),
        other => panic!("unexpected {other:?}"),
    }
    assert!(matches!(plan_fuzzer_action(fuzzer("list_payloads")), Some(FuzzerCall::ListPayloads)));
    assert!(plan_fuzzer_action(fuzzer("explode")).is_none());
}

#[test]
fn sitegraph_actions_pick_their_tools_and_defaults() {
    match plan_sitegraph_action(sitegraph("security_view")) {
        Some(SiteGraphCall::SecurityView { view, limit }) => {
            assert_eq!(view, "unauthenticated");
            assert_eq!(limit, 50);
        }
        other => panic!("unexpected {other:?}"),
    }
    match plan_sitegraph_action(sitegraph("import_spec")) {
        Some(SiteGraphCall::ImportSpec { spec, base_url }) => {
            assert_eq!(spec, "");
            assert_eq!(base_url, "https://localhost");
        }
        other => panic!("unexpected {other:?}"),
    }
    let mut input = sitegraph("history_search");
    input.profile = Some("burp_http_history".to_string());
    match plan_sitegraph_action(input) {
        Some(SiteGraphCall::HistorySearch(x)) => {
            assert_eq!(x.query, "");
            assert_eq!(x.source.as_deref(), Some("burp_http_history"));
        }
        other => panic!("unexpected {other:?}"),
    }
    match plan_sitegraph_action(sitegraph("diff")) {
        Some(SiteGraphCall::Diff(x)) => assert_eq!(x.since, 0),
        other => panic!("unexpected {other:?}"),
    }
    assert!(matches!(plan_sitegraph_action(sitegraph("config")), Some(SiteGraphCall::Config)));
    assert!(plan_sitegraph_action(sitegraph("unknown")).is_none());
}

fn scanner(action: &str) -> ScannerActionInput {
    ScannerActionInput {
        action: action.to_string(),
        url: None,
        audit_type: None,
        seed_urls: None,
        scan_configuration_id: None,
        resource_pool_id: None,
        timeout_seconds: None,
        stable_seconds: None,
        include_out_of_scope: None,
        job_id: None,
        limit: None,
        offset: None,
        cursor: None,
        index: None,
        status: None,
        severity: None,
        confidence: None,
        notes: None,
        format: None,
        path: None,
        issue_indexes: None,
        script: None,
        request: None,
        response: None,
        host: None,
        port: None,
        https: None,
    }
}

#[test]
fn scanner_actions_pick_their_tools_and_defaults() {
    match plan_scanner_action(scanner("update_issue")) {
        Some(ScannerCall::UpdateIssue(x)) => {
            assert_eq!(x.index, 0);
            assert_eq!(x.status, "confirmed");
        }
        other => panic!("unexpected {other:?}"),
    }
    match plan_scanner_action(scanner("report")) {
        Some(ScannerCall::Report(x)) => {
            assert_eq!(x.format, "html");
            assert_eq!(x.path, "");
        }
        other => panic!("unexpected {other:?}"),
    }
    let mut input = scanner("start_crawl");
    input.seed_urls = Some(vec!["https://a/".to_string()]);
    match plan_scanner_action(input) {
        Some(ScannerCall::StartCrawl(x)) => assert_eq!(x.seed_urls, vec!["https://a/".to_string()]),
        other => panic!("unexpected {other:?}"),
    }
    assert!(plan_scanner_action(scanner("pause")).is_none());
}

fn proxy(action: &str) -> ProxyActionInput {
    ProxyActionInput {
        action: action.to_string(),
        limit: None,
        offset: None,
        cursor: None,
        url_filter: None,
        method_filter: None,
        status_filter: None,
        has_notes: None,
        color: None,
        include_bodies: None,
        headers_only: None,
        extract_css: None,
        extract_json: None,
        max_body_length: None,
        index: None,
        notes: None,
        regex: None,
    }
}

fn http(action: HttpAction) -> HttpActionInput {
    HttpActionInput {
        action,
        method: None,
        url: None,
        body: None,
        headers: None,
        headers_only: None,
        extract_css: None,
        extract_json: None,
        max_body_length: None,
        requests: None,
        request: None,
        convert_to: None,
        host: None,
        port: None,
        https: None,
        format: None,
        tab_name: None,
    }
}

#[test]
fn proxy_and_http_actions_pick_their_tools() {
    let mut input = proxy("extract");
    input.limit = Some(3);
    input.regex = Some("token=(\\w+)".to_string());
    match plan_proxy_action(input) {
        Some(ProxyCall::Extract(x)) => {
            assert_eq!(x.index, 0);
            assert_eq!(x.limit, Some(3));
            assert_eq!(x.regex, "token=(\\w+)");
        }
        other => panic!("unexpected {other:?}"),
    }
    match plan_proxy_action(proxy("annotate")) {
        Some(ProxyCall::Annotate(x)) => assert_eq!(x.note, ""),
        other => panic!("unexpected {other:?}"),
    }
    assert!(plan_proxy_action(proxy("replay")).is_none());

    let mut input = http(HttpAction::Send);
    input.url = Some("https://a/".to_string());
    match plan_http_action(input) {
        HttpCall::Send(x) => assert_eq!(x.url, "https://a/"),
        other => panic!("unexpected {other:?}"),
    }
    match plan_http_action(http(HttpAction::SendToRepeater)) {
        HttpCall::SendToRepeater(x) => {
            assert_eq!(x.request, "");
            assert_eq!(x.host, "");
        }
        other => panic!("unexpected {other:?}"),
    }
    match plan_http_action(http(HttpAction::SendBatch)) {
        HttpCall::SendBatch(x) => assert!(x.requests.is_empty()),
        other => panic!("unexpected {other:?}"),
    }
}

fn scan_config(action: &str) -> ScanConfigActionInput {
    ScanConfigActionInput {
        action: action.to_string(),
        id: None,
        name: None,
        scan_type: None,
        audit_type: None,
        include_out_of_scope: None,
        timeout_seconds: None,
        stable_seconds: None,
        resource_pool_id: None,
        kind: None,
        existing_pool_name: None,
        concurrent_request_limit: None,
        throttle_millis: None,
        max_retries: None,
    }
}

#[test]
fn upserts_with_an_id_update_and_without_create() {
    match plan_scan_config_action(scan_config("upsert_config")) {
        Some(ScanConfigCall::CreateConfig(x)) => {
            assert_eq!(x.scan_type, "audit");
            assert_eq!(x.name, "");
        }
        other => panic!("unexpected {other:?}"),
    }
    let mut input = scan_config("upsert_pool");
    input.id = Some("p1".to_string());
    match plan_scan_config_action(input) {
        Some(ScanConfigCall::UpdatePool(x)) => {
            assert_eq!(x.kind, "custom");
            assert_eq!(x.id.as_deref(), Some("p1"));
        }
        other => panic!("unexpected {other:?}"),
    }
    assert!(matches!(plan_scan_config_action(scan_config("list_pools")), Some(ScanConfigCall::ListPools)));
    assert!(plan_scan_config_action(scan_config("drop")).is_none());
}

#[test]
fn target_collaborator_and_diff_actions() {
    let target = |action: &str| TargetActionInput {
        action: action.to_string(),
        url: None,
        url_prefix: Some("https://a/".to_string()),
        limit: Some(5),
        cursor: None,
    };
    match plan_target_action(target("info")) {
        Some(TargetCall::Info(x)) => {
            assert_eq!(x.url.as_deref(), Some("https://a/"));
            assert_eq!(x.limit, Some(5));
        }
        other => panic!("unexpected {other:?}"),
    }
    match plan_target_action(target("add_scope")) {
        Some(TargetCall::AddScope(x)) => assert_eq!(x.url, ""),
        other => panic!("unexpected {other:?}"),
    }
    let collab = |action: &str| CollaboratorActionInput {
        action: action.to_string(),
        count: Some(2),
        target_url: None,
        injection_point: None,
        limit: None,
        cursor: None,
    };
    assert!(matches!(plan_collaborator_action(collab("correlate")), Some(CollaboratorCall::Generate(x)) if x.count == Some(2)));
    assert!(matches!(plan_collaborator_action(collab("poll")), Some(CollaboratorCall::Poll(_))));
    assert!(plan_collaborator_action(collab("wait")).is_none());
    let diff = DiffActionInput {
        action: "compare_exchanges".to_string(),
        response_a: Some("A".to_string()),
        response_b: Some("B".to_string()),
        index_a: None,
        index_b: None,
        first: None,
        second: Some("second".to_string()),
    };
    match plan_diff_action(diff) {
        Some(DiffCall::CompareExchanges(x)) => {
            assert_eq!(x.first, "A");
            assert_eq!(x.second, "second");
        }
        other => panic!("unexpected {other:?}"),
    }
}

fn websocket(action: &str) -> WebSocketActionInput {
    WebSocketActionInput {
        action: action.to_string(),
        host: None,
        port: Some(8443),
        https: Some(true),
        path: Some("/ws".to_string()),
        id: None,
        text: None,
        data: None,
        limit: Some(10),
        cursor: None,
    }
}

#[test]
fn websocket_actions_pick_their_tools_and_defaults() {
    match plan_websocket_action(websocket("create")) {
        Some(WebSocketCall::Create(x)) => {
            assert_eq!(x.host, "");
            assert_eq!(x.port, Some(8443));
            assert_eq!(x.path.as_deref(), Some("/ws"));
        }
        other => panic!("unexpected {other:?}"),
    }
    let mut send = websocket("send_text");
    send.id = Some("ws-1".to_string());
    send.text = Some("hello".to_string());
    match plan_websocket_action(send) {
        Some(WebSocketCall::SendText(x)) => {
            assert_eq!(x.id, "ws-1");
            assert_eq!(x.text, "hello");
        }
        other => panic!("unexpected {other:?}"),
    }
    match plan_websocket_action(websocket("send_binary")) {
        Some(WebSocketCall::SendBinary(x)) => {
            assert_eq!(x.id, "");
            assert_eq!(x.data, "");
        }
        other => panic!("unexpected {other:?}"),
    }
    match plan_websocket_action(websocket("history")) {
        Some(WebSocketCall::History(x)) => {
            assert_eq!(x.limit, Some(10));
            assert_eq!(x.include_bodies, None);
        }
        other => panic!("unexpected {other:?}"),
    }
    assert!(matches!(plan_websocket_action(websocket("close")), Some(WebSocketCall::Close(x)) if x.id.is_empty()));
    assert!(matches!(plan_websocket_action(websocket("list")), Some(WebSocketCall::List)));
    assert!(plan_websocket_action(websocket("open")).is_none());
}

fn session(action: &str) -> SessionActionInput {
    SessionActionInput {
        action: action.to_string(),
        id: None,
        description: None,
        action_type: Some("use_cookies".to_string()),
        find: None,
        replace: None,
        header_name: None,
        parameter_name: None,
        macro_description: None,
        url_contains: None,
        tools: None,
        enabled: Some(true),
        serial_number: Some(7),
        items: None,
    }
}

#[test]
fn session_actions_pick_their_tools_and_defaults() {
    match plan_session_action(session("upsert_rule")) {
        Some(SessionCall::CreateRule(x)) => {
            assert_eq!(x.id, None);
            assert_eq!(x.action_type.as_deref(), Some("use_cookies"));
            assert_eq!(x.enabled, Some(true));
        }
        other => panic!("unexpected {other:?}"),
    }
    let mut update = session("upsert_rule");
    update.id = Some("r1".to_string());
    assert!(matches!(plan_session_action(update), Some(SessionCall::UpdateRule(x)) if x.id.as_deref() == Some("r1")));
    match plan_session_action(session("upsert_macro")) {
        Some(SessionCall::CreateMacro(x)) => {
            assert_eq!(x.description, "");
            assert_eq!(x.serial_number, Some(7));
            assert!(x.items.is_empty());
        }
        other => panic!("unexpected {other:?}"),
    }
    let mut run = session("run_macro");
    run.description = Some("login".to_string());
    assert!(matches!(plan_session_action(run), Some(SessionCall::RunMacro(x)) if x.description == "login"));
    assert!(matches!(plan_session_action(session("get_rule")), Some(SessionCall::GetRule(x)) if x.id.is_empty()));
    assert!(matches!(plan_session_action(session("delete_rule")), Some(SessionCall::DeleteRule(_))));
    assert!(matches!(plan_session_action(session("delete_macro")), Some(SessionCall::RemoveMacro(_))));
    assert!(matches!(plan_session_action(session("list_rules")), Some(SessionCall::ListRules)));
    assert!(matches!(plan_session_action(session("list_macros")), Some(SessionCall::ListMacros)));
    assert!(plan_session_action(session("rules")).is_none());
}

fn logger(action: &str) -> LoggerActionInput {
    LoggerActionInput {
        action: action.to_string(),
        limit: Some(20),
        offset: None,
        cursor: None,
        source_filter: Some("Proxy".to_string()),
        url_filter: None,
        method_filter: None,
        status_filter: Some(200),
        has_notes: None,
        color: None,
        include_bodies: Some(false),
        headers_only: None,
        extract_css: None,
        extract_json: None,
        max_body_length: Some(100),
        index: None,
    }
}

#[test]
fn logger_and_organizer_actions_pick_their_tools() {
    match plan_logger_action(logger("query")) {
        Some(LoggerCall::History(x)) => {
            assert_eq!(x.limit, Some(20));
            assert_eq!(x.source_filter.as_deref(), Some("Proxy"));
            assert_eq!(x.status_filter, Some(200));
            assert_eq!(x.max_body_length, Some(100));
        }
        other => panic!("unexpected {other:?}"),
    }
    match plan_logger_action(logger("detail")) {
        Some(LoggerCall::Detail(x)) => {
            assert_eq!(x.index, 0);
            assert_eq!(x.include_bodies, Some(false));
        }
        other => panic!("unexpected {other:?}"),
    }
    let mut detail = logger("detail");
    detail.index = Some(4);
    assert!(matches!(plan_logger_action(detail), Some(LoggerCall::Detail(x)) if x.index == 4));
    assert!(matches!(plan_logger_action(logger("clear")), Some(LoggerCall::Clear(_))));
    assert!(plan_logger_action(logger("purge")).is_none());

    let organizer = |action: &str| OrganizerActionInput {
        action: action.to_string(),
        request: None,
        response: Some("HTTP/1.1 200 OK".to_string()),
        host: Some("example.com".to_string()),
        port: Some(443),
        https: Some(true),
        notes: Some("note".to_string()),
        highlight: None,
        limit: Some(3),
        cursor: None,
        status_filter: Some("new".to_string()),
        url_filter: None,
    };
    match plan_organizer_action(organizer("add")) {
        Some(OrganizerCall::Send(x)) => {
            assert_eq!(x.request, "");
            assert_eq!(x.host, "example.com");
            assert_eq!(x.notes.as_deref(), Some("note"));
        }
        other => panic!("unexpected {other:?}"),
    }
    match plan_organizer_action(organizer("list")) {
        Some(OrganizerCall::List(x)) => {
            assert_eq!(x.limit, Some(3));
            assert_eq!(x.status_filter.as_deref(), Some("new"));
        }
        other => panic!("unexpected {other:?}"),
    }
    assert!(plan_organizer_action(organizer("remove")).is_none());
}

fn settings(action: SettingsAction) -> SettingsActionInput {
    SettingsActionInput {
        action,
        config: None,
        paths: None,
        enabled: None,
        operation: None,
        port: Some(8081),
        running: None,
        listen_mode: None,
        listen_specific_address: None,
        certificate_mode: None,
        enable_http2: None,
        support_invisible_proxying: None,
        target: None,
        mode: None,
        script: None,
        script_id: None,
        script_name: None,
        kind: None,
        match_text: Some("foo".to_string()),
        replace: Some("bar".to_string()),
        index: None,
        rule: None,
        master_enabled: Some(true),
        request_enabled: Some(false),
        response_enabled: None,
        id: None,
        url_contains: None,
        phase: None,
        rule_action: None,
        header_name: None,
        header_value: None,
    }
}

#[test]
fn settings_actions_pick_their_tools_and_defaults() {
    match plan_settings_action(settings(SettingsAction::UpdateProxySettings)) {
        Ok(SettingsCall::UpdateProxySettings(x)) => {
            assert_eq!(x.operation, "intercept_toggle");
            assert_eq!(x.port, Some(8081));
        }
        other => panic!("unexpected {other:?}"),
    }
    match plan_settings_action(settings(SettingsAction::SetInterceptState)) {
        Ok(SettingsCall::SetInterceptState(x)) => assert!(!x.enabled),
        other => panic!("unexpected {other:?}"),
    }
    match plan_settings_action(settings(SettingsAction::ImportConfig)) {
        Ok(SettingsCall::ImportConfig(x)) => assert_eq!(x.config, ""),
        other => panic!("unexpected {other:?}"),
    }
    match plan_settings_action(settings(SettingsAction::UpdateProxyInterceptConfig)) {
        Ok(SettingsCall::UpdateProxyInterceptConfig(x)) => {
            assert_eq!(x.master_intercept_enabled, Some(true));
            assert_eq!(x.request_do_intercept, Some(false));
            assert_eq!(x.response_do_intercept, None);
            assert_eq!(x.request_auto_content_length, None);
        }
        other => panic!("unexpected {other:?}"),
    }
    match plan_settings_action(settings(SettingsAction::RegisterHttpHandler)) {
        Ok(SettingsCall::RegisterHttpHandler(x)) => {
            assert_eq!(x.match_text.as_deref(), Some("foo"));
            assert_eq!(x.replace.as_deref(), Some("bar"));
        }
        other => panic!("unexpected {other:?}"),
    }
    assert!(matches!(plan_settings_action(settings(SettingsAction::ExportConfig)), Ok(SettingsCall::ExportConfig)));
    assert!(matches!(plan_settings_action(settings(SettingsAction::ListProxyRules)), Ok(SettingsCall::ListProxyRules)));
}

#[test]
fn proxy_rules_need_a_url_fragment() {
    let expected = "`url_contains` is required and must not be empty";
    match plan_settings_action(settings(SettingsAction::RegisterProxyRule)) {
        Err(message) => assert_eq!(message, expected),
        other => panic!("unexpected {other:?}"),
    }
    let mut blank = settings(SettingsAction::RegisterProxyRule);
    blank.url_contains = Some("  \t ".to_string());
    match plan_settings_action(blank) {
        Err(message) => assert_eq!(message, expected),
        other => panic!("unexpected {other:?}"),
    }
    let mut rule = settings(SettingsAction::RegisterProxyRule);
    rule.url_contains = Some("/api/".to_string());
    rule.id = Some("r7".to_string());
    match plan_settings_action(rule) {
        Ok(SettingsCall::RegisterProxyRule(x)) => {
            assert_eq!(x.url_contains, "/api/");
            assert_eq!(x.id.as_deref(), Some("r7"));
            assert_eq!(x.match_text.as_deref(), Some("foo"));
        }
        other => panic!("unexpected {other:?}"),
    }
    let mut remove = settings(SettingsAction::RemoveProxyRule);
    remove.id = Some("r7".to_string());
    assert!(matches!(plan_settings_action(remove), Ok(SettingsCall::RemoveProxyRule(x)) if x.id.as_deref() == Some("r7")));
}

#[test]
fn settings_proxy_rule_preserves_match_and_replacement() {
    let mut input = settings(SettingsAction::RegisterProxyRule);
    input.id = Some("replace-js".to_owned());
    input.url_contains = Some("example.test/app.js".to_owned());
    input.phase = Some(ProxyRulePhaseInput::Response);
    input.rule_action = Some(ProxyRuleActionInput::Edit);
    input.match_text = Some("old".to_owned());
    input.replace = Some("new".to_owned());
    input.header_name = None;
    input.header_value = None;
    input.enabled = Some(true);

    match plan_settings_action(input) {
        Ok(SettingsCall::RegisterProxyRule(rule_input)) => {
            assert_eq!(Some("old".to_owned()), rule_input.match_text);
            assert_eq!(Some("new".to_owned()), rule_input.replace);
            assert_eq!("example.test/app.js", rule_input.url_contains);
            assert_eq!(Some(ProxyRulePhaseInput::Response), rule_input.phase);
            assert_eq!(Some(ProxyRuleActionInput::Edit), rule_input.rule_action);
            assert_eq!(Some(true), rule_input.enabled);
        }
        _ => panic!("expected RegisterProxyRule variant"),
    }
}
