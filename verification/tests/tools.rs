use base64::Engine as _;
use burp_tools::inputs::{
    ExportRequestInput, ProxyHistoryInput, ProxyInterceptRuleBooleanOperatorInput,
    ProxyInterceptRuleInput, ProxyInterceptRuleMatchTypeInput, ProxyInterceptRuleRelationshipInput,
    ProxyRuleActionInput, ProxyRulePhaseInput, SendToRepeaterInput,
};
use burp_tools::request_text::{
    authority_from_raw_request, convert_request_text, export_request_text,
    normalize_repeater_input, parse_http_authority,
};
use burp_tools::tools::{
    encode_bounded_base64, normalize_decoder_operation, shell_quote, to_proxy_history_request,
    usize_value, validate_sitegraph_mode, validated_graph_limit, validated_index,
    DEFAULT_MAX_BODY_LENGTH,
};

#[test]
fn kotlin_indices_reject_unsigned_overflow() {
    assert_eq!(Ok(i32::MAX as u32), validated_index(i32::MAX as u32));
    assert_eq!(
        Err("index must be at most 2147483647"),
        validated_index(u32::MAX)
    );
}

#[test]
fn graph_limits_are_validated_before_storage_clamping() {
    assert_eq!(Ok(100), validated_graph_limit(None));
    assert_eq!(Ok(500), validated_graph_limit(Some(500)));
    assert_eq!(
        Err("limit must be between 1 and 500"),
        validated_graph_limit(Some(0))
    );
    assert_eq!(
        Err("limit must be between 1 and 500"),
        validated_graph_limit(Some(501))
    );
}

#[test]
fn disabled_sitegraph_rejects_indexing_modes() {
    assert_eq!(Ok(()), validate_sitegraph_mode(false, "off"));
    assert_eq!(
        Err("sitegraph must be enabled before selecting an indexing mode".to_owned()),
        validate_sitegraph_mode(false, "startup")
    );
    assert_eq!(Ok(()), validate_sitegraph_mode(true, "watch"));
}

#[test]
fn encode_bounded_base64_bounds_large_payload_by_default() {
    let large_payload = vec![b'X'; 1_700_000];
    let (encoded, truncated, length) = encode_bounded_base64(&large_payload, None);
    assert!(truncated, "1.7MB payload must be marked truncated");
    assert_eq!(length, 1_700_000);
    let decoded = base64::engine::general_purpose::STANDARD
        .decode(&encoded)
        .expect("must be valid Base64");
    assert_eq!(decoded.len(), DEFAULT_MAX_BODY_LENGTH);
    assert_eq!(decoded.len(), 4096);
}

#[test]
fn encode_bounded_base64_honors_explicit_max_body_length() {
    let large_payload = vec![b'Y'; 1_700_000];
    let (encoded, truncated, length) = encode_bounded_base64(&large_payload, Some(256));
    assert!(truncated, "payload must be marked truncated");
    assert_eq!(length, 1_700_000);
    let decoded = base64::engine::general_purpose::STANDARD
        .decode(&encoded)
        .expect("must be valid Base64");
    assert_eq!(decoded.len(), 256);
}

#[test]
fn encode_bounded_base64_preserves_small_payload_verbatim() {
    let small_payload = b"Hello, Burp MCP!".to_vec();
    let (encoded, truncated, length) = encode_bounded_base64(&small_payload, None);
    assert!(!truncated, "small payload must not be marked truncated");
    assert_eq!(length, small_payload.len());
    let decoded = base64::engine::general_purpose::STANDARD
        .decode(&encoded)
        .expect("must be valid Base64");
    assert_eq!(decoded, small_payload);
}

#[test]
fn decoder_accepts_legacy_base64_operation_name() {
    assert_eq!("base64.encode", normalize_decoder_operation("base64_encode"));
    assert_eq!("base64.decode", normalize_decoder_operation("base64_decode"));
    assert_eq!("custom.op", normalize_decoder_operation("custom.op"));
}

#[test]
fn repeater_raw_request_derives_host_and_port() {
    let (host, port) =
        authority_from_raw_request("GET / HTTP/1.1\r\nHost: example.test:8081\r\n\r\n")
            .expect("authority should parse");
    assert_eq!(Some("example.test".to_owned()), host);
    assert_eq!(Some(8081), port);
}

#[test]
fn raw_requests_need_a_request_line_and_valid_host() {
    assert_eq!(
        authority_from_raw_request(""),
        Err("raw `request` must include an HTTP request line".to_owned())
    );
    assert_eq!(
        authority_from_raw_request("GET /\r\n\r\n"),
        Err("raw `request` must start with `<METHOD> <request-target> HTTP/<version>`".to_owned())
    );
    assert_eq!(
        authority_from_raw_request("GET / HTTP/1.1\r\nHost:  \r\n\r\n"),
        Err("Host header must not be empty".to_owned())
    );
    assert_eq!(authority_from_raw_request("GET / HTTP/1.1\n\n"), Ok((None, None)));
    assert_eq!(parse_http_authority("example.test"), Ok(("example.test".to_owned(), None)));
}

#[test]
fn repeater_input_normalizes_host_port_and_tab() {
    let request = normalize_repeater_input(SendToRepeaterInput {
        request: "GET / HTTP/1.1\r\nHost: example.test\r\n\r\n".to_owned(),
        host: String::new(),
        port: None,
        https: Some(true),
        tab_name: None,
    })
    .unwrap();
    assert_eq!(request.host, "example.test");
    assert_eq!(request.port, 443);
    assert_eq!(request.tab_name, "MCP");
    let bad = normalize_repeater_input(SendToRepeaterInput {
        request: "GET / HTTP/1.1\r\n\r\n".to_owned(),
        host: String::new(),
        port: None,
        https: None,
        tab_name: None,
    });
    assert_eq!(bad.unwrap_err(), "raw `request` must contain a Host header when `host` is omitted");
    let port = normalize_repeater_input(SendToRepeaterInput {
        request: "GET / HTTP/1.1\r\n\r\n".to_owned(),
        host: "h".to_owned(),
        port: Some(70000),
        https: None,
        tab_name: None,
    });
    assert_eq!(port.unwrap_err(), "`port` must be between 1 and 65535");
}

#[test]
fn raw_request_export_preserves_input_without_host() {
    let request = "GET /health HTTP/1.1\r\n\r\n".to_owned();
    let exported = export_request_text(ExportRequestInput {
        request: request.clone(),
        host: None,
        format: Some("raw".to_owned()),
        https: None,
    })
    .expect("raw export must not require a host");

    assert_eq!(request, exported);
}

#[test]
fn python_request_export_preserves_headers_and_body() {
    let exported = export_request_text(ExportRequestInput {
        request: "POST /submit HTTP/1.1\r\nHost: example.test\r\nAuthorization: Bearer token\r\nContent-Type: application/json\r\nContent-Length: 2\r\n\r\n{}".to_owned(),
        host: None,
        format: Some("python".to_owned()),
        https: Some(true),
    })
    .expect("Python export must succeed");

    assert!(exported.contains("\"Host\": \"example.test\""));
    assert!(exported.contains("\"Authorization\": \"Bearer token\""));
    assert!(exported.contains("\"Content-Type\": \"application/json\""));
    assert!(!exported.contains("Content-Length"));
    assert!(exported.contains("data=\"{}\""));
}

#[test]
fn curl_export_quotes_every_word() {
    let exported = export_request_text(ExportRequestInput {
        request: "POST /a HTTP/1.1\nHost: h.test\nX: it's\nContent-Length: 1\n\nb".to_owned(),
        host: None,
        format: None,
        https: Some(false),
    })
    .unwrap();
    assert_eq!(
        exported,
        "curl -X 'POST' 'http://h.test/a' -H 'Host: h.test' -H 'X: it'\\''s' --data-raw 'b'"
    );
    let bad = export_request_text(ExportRequestInput {
        request: "GET / HTTP/1.1\n\n".to_owned(),
        host: None,
        format: None,
        https: None,
    });
    assert_eq!(bad.unwrap_err(), "host is required when the request has no Host header");
    assert_eq!(shell_quote("a'b"), "'a'\\''b'");
}

#[test]
fn method_conversion_moves_query_into_body() {
    let converted = convert_request_text("GET /s?q=1 HTTP/1.1\r\nHost: h\r\n\r\n", "post").unwrap();
    assert_eq!(
        converted,
        "POST /s HTTP/1.1\r\nHost: h\r\nContent-Length: 3\r\n\r\nq=1"
    );
    let back = convert_request_text("POST /s HTTP/1.1\nContent-Length: 3\n\nq=1", "GET").unwrap();
    assert_eq!(back, "GET /s HTTP/1.1\nContent-Length: 3\n\nq=1");
    assert_eq!(convert_request_text("", "GET"), Err("request line has no method".to_owned()));
    assert_eq!(convert_request_text("GET", "GET"), Err("request line has no target".to_owned()));
}

#[test]
fn enumerations_render_protocol_names() {
    assert_eq!(ProxyRulePhaseInput::Request.as_str(), "request");
    assert_eq!(ProxyRuleActionInput::Edit.as_str(), "edit");
    let rule = ProxyInterceptRuleInput {
        enabled: None,
        boolean_operator: Some(ProxyInterceptRuleBooleanOperatorInput::Or),
        match_type: ProxyInterceptRuleMatchTypeInput::ContentTypeHeader,
        match_relationship: ProxyInterceptRuleRelationshipInput::DoesNotMatch,
        match_condition: None,
    }
    .into_proto();
    assert!(rule.enabled);
    assert_eq!(rule.boolean_operator, "or");
    assert_eq!(rule.match_type, "content_type_header");
    assert_eq!(rule.match_relationship, "does_not_match");
    assert_eq!(rule.match_condition, "");
}

#[test]
fn history_requests_use_offset_as_cursor() {
    let req = to_proxy_history_request(
        ProxyHistoryInput {
            limit: None,
            offset: Some(40),
            cursor: None,
            url_filter: None,
            method_filter: Some("GET".to_owned()),
            status_filter: Some(200),
            has_notes: None,
            color: None,
            include_bodies: None,
            headers_only: None,
            extract_css: None,
            extract_json: None,
            max_body_length: None,
        },
        25,
    );
    let page = req.page.unwrap();
    assert_eq!(page.limit, 25);
    assert_eq!(page.cursor, "40");
    assert_eq!(req.method_filter, "GET");
    assert_eq!(req.url_filter, "");
    assert!(!req.has_notes);
}

#[test]
fn wire_counts_fit_usize() {
    assert_eq!(usize_value(7, "count"), Ok(7));
}

#[test]
fn repeater_url_builds_complete_request_and_service() {
    let input = burp_tools::request_text::repeater_input_from_http_action(
        SendToRepeaterInput {
            request: String::new(),
            host: String::new(),
            port: None,
            https: None,
            tab_name: Some("case".to_owned()),
        },
        Some("https://example.test:8443/a?q=1"),
        Some("post"),
        Some("{}"),
        None,
    )
    .expect("URL input should normalize");
    let request = normalize_repeater_input(input).expect("request should normalize");
    assert_eq!("example.test", request.host);
    assert_eq!(8443, request.port);
    assert!(request.https);
    assert_eq!("case", request.tab_name);
    assert_eq!(
        "POST /a?q=1 HTTP/1.1\r\nHost: example.test:8443\r\nContent-Length: 2\r\n\r\n{}",
        String::from_utf8(request.request).expect("request is UTF-8")
    );
}

#[test]
fn repeater_url_sorts_given_headers() {
    let headers = vec![
        ("X-B".to_owned(), "2".to_owned()),
        ("Host".to_owned(), "other".to_owned()),
        ("X-A".to_owned(), "1".to_owned()),
    ];
    let input = burp_tools::request_text::repeater_input_from_http_action(
        SendToRepeaterInput {
            request: String::new(),
            host: String::new(),
            port: None,
            https: None,
            tab_name: None,
        },
        Some("http://example.test/p"),
        None,
        None,
        Some(&headers),
    )
    .unwrap();
    assert_eq!(input.request, "GET /p HTTP/1.1\r\nHost: other\r\nX-A: 1\r\nX-B: 2\r\n\r\n");
    assert_eq!(input.port, Some(80));
    assert_eq!(input.https, Some(false));
    let missing = burp_tools::request_text::repeater_input_from_http_action(
        SendToRepeaterInput { request: String::new(), host: String::new(), port: None, https: None, tab_name: None },
        Some("ftp://example.test/"),
        None,
        None,
        None,
    );
    assert_eq!(missing.unwrap_err(), "unsupported URL scheme `ftp`; use `http` or `https`");
}

#[test]
fn proxy_history_forwards_all_filters() {
    let request = to_proxy_history_request(
        ProxyHistoryInput {
            url_filter: Some("https://mcl-staging.opswat.com/".to_owned()),
            method_filter: Some("POST".to_owned()),
            status_filter: Some(201),
            has_notes: Some(true),
            color: Some("red".to_owned()),
            limit: Some(5),
            offset: None,
            cursor: None,
            include_bodies: Some(false),
            headers_only: Some(false),
            extract_css: None,
            extract_json: None,
            max_body_length: None,
        },
        5,
    );
    assert_eq!(request.url_filter, "https://mcl-staging.opswat.com/");
    assert_eq!(request.method_filter, "POST");
    assert_eq!(request.status_filter, Some(201));
    assert!(request.has_notes);
    assert_eq!(request.color, "red");
    assert_eq!(request.page.expect("page is required").limit, 5);
}

#[test]
fn bodies_encode_as_padded_standard_base64() {
    assert_eq!(encode_bounded_base64(b"hello", None).0, "aGVsbG8=");
    assert_eq!(encode_bounded_base64(b"hi", None).0, "aGk=");
    assert_eq!(encode_bounded_base64(b"abc", None).0, "YWJj");
    assert_eq!(encode_bounded_base64(&[0xfb, 0xff], None).0, "+/8=");
    assert_eq!(encode_bounded_base64(b"", None).0, "");
}
