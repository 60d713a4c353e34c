use burp_tools::proto::SendRequestResponse;
use burp_tools::workflow_types::ParameterLocation;
use burp_tools::workflows::{
    append_query_parameter, form_body, classify_idor, cookie_samesite, cors_headers,
    correlated_interaction_count, csrf_is_vulnerable, csrf_poc, normalize_method,
    parameterized_request, resolve_fuzz_categories, split_http_response, header_values,
    validate_headers, validate_http_url, validate_name,
};

fn response(status: u32, raw: &str) -> SendRequestResponse {
    SendRequestResponse {
        request: Vec::new(),
        response: raw.as_bytes().to_vec(),
        status,
        has_response: true,
    }
}

#[test]
fn idor_pattern_on_denied_response_is_not_confirmation() {
    let baseline = response(200, "HTTP/1.1 200 OK\r\n\r\nsecret resource");
    let denied = response(
        403,
        "HTTP/1.1 403 Forbidden\r\n\r\nsecret marker in error message",
    );
    let similarity = 0.95;
    let (vulnerable, pattern_matched, verdict) =
        classify_idor(&baseline, &denied, Some("secret"), similarity > 0.85);
    assert!(!vulnerable);
    assert!(!pattern_matched);
    assert!(verdict.starts_with("PROTECTED"));
}

#[test]
fn idor_requires_successful_baseline_and_candidate() {
    let baseline = response(500, "HTTP/1.1 500 Error\r\n\r\nsame");
    let candidate = response(200, "HTTP/1.1 200 OK\r\n\r\nsame");
    let similarity = 1.0;
    assert!(!classify_idor(&baseline, &candidate, None, similarity > 0.85).0);
}

#[test]
fn idor_pattern_in_successful_body_confirms() {
    let baseline = response(200, "HTTP/1.1 200 OK\r\n\r\nmine");
    let candidate = response(204, "HTTP/1.1 204 OK\r\nX: secret\r\n\r\nthe secret");
    let (v, m, verdict) = classify_idor(&baseline, &candidate, Some("secret"), false);
    assert!(v && m);
    assert!(verdict.starts_with("POTENTIAL_IDOR_CONFIRMED"));
    let (v2, m2, verdict2) = classify_idor(&baseline, &candidate, Some("absent"), false);
    assert!(!v2 && !m2);
    assert!(verdict2.starts_with("INCONCLUSIVE"));
}

#[test]
fn cors_parser_ignores_header_like_response_body_text() {
    let raw = "HTTP/1.1 200 OK\r\nContent-Type: text/plain\r\n\r\nAccess-Control-Allow-Origin: https://evil.example\r\nAccess-Control-Allow-Credentials: true";
    assert_eq!((None, None), cors_headers(raw));
}

#[test]
fn cors_parser_matches_case_insensitive_names_and_preserves_values() {
    let raw = "HTTP/1.1 200 OK\r\naCcEsS-CoNtRoL-aLlOw-OrIgIn: https://Case.Example\r\nACCESS-CONTROL-ALLOW-CREDENTIALS: TRUE\r\n\r\nbody";
    assert_eq!(
        (
            Some("https://Case.Example".to_owned()),
            Some("TRUE".to_owned())
        ),
        cors_headers(raw)
    );
}

#[test]
fn ssrf_correlation_excludes_ambient_historical_interactions() {
    let payloads = vec!["current.oast.test".to_owned()];
    assert_eq!(
        1,
        correlated_interaction_count(
            &payloads,
            &vec![
                "old.oast.test".to_owned(),
                "current.oast.test".to_owned(),
                "unrelated.oast.test".to_owned()
            ]
        )
    );
}

#[test]
fn query_parameter_append_preserves_existing_query_and_fragment() {
    let output = append_query_parameter(
        "https://example.test/path?existing=1#section",
        "next",
        "a b&c",
    )
    .unwrap();
    let parsed = url::Url::parse(&output).unwrap();
    assert_eq!(Some("section"), parsed.fragment());
    assert_eq!(
        vec![
            ("existing".to_owned(), "1".to_owned()),
            ("next".to_owned(), "a b&c".to_owned())
        ],
        parsed
            .query_pairs()
            .map(|(name, value)| (name.into_owned(), value.into_owned()))
            .collect::<Vec<_>>()
    );
}

#[test]
fn body_parameter_mode_encodes_form_data() {
    let request = parameterized_request(
        "POST",
        "https://example.test/search",
        "id",
        "1' AND 1=2",
        ParameterLocation::Body,
    )
    .unwrap();
    assert_eq!("https://example.test/search", request.url);
    assert_eq!(b"id=1%27+AND+1%3D2", request.body.as_slice());
    assert_eq!(
        "application/x-www-form-urlencoded",
        request.headers[0].value
    );
    assert!(parameterized_request("GET", "x", "bad name", "v", ParameterLocation::Query).is_err());
}

#[test]
fn csrf_cookie_parser_targets_named_cookie_and_requires_success() {
    let raw = "HTTP/1.1 200 OK\r\nSet-Cookie: other=x; SameSite=Strict\r\nset-cookie: SESSION=abc; Path=/; samesite=None; Secure\r\n\r\n{}";
    assert_eq!(Some("None".to_owned()), cookie_samesite(raw, "session"));
    assert!(csrf_is_vulnerable(200, "None"));
    assert!(!csrf_is_vulnerable(403, "None"));
    assert!(!csrf_is_vulnerable(200, "Strict"));
    assert!(!csrf_is_vulnerable(200, "Unknown"));
}

#[test]
fn cookie_without_samesite_is_unset() {
    let raw = "HTTP/1.1 200 OK\nSet-Cookie: sid=1; Path=/\n\n";
    assert_eq!(Some("Unset".to_owned()), cookie_samesite(raw, "SID"));
    assert_eq!(None, cookie_samesite(raw, "other"));
    assert!(csrf_is_vulnerable(200, "unset"));
}

#[test]
fn csrf_poc_escapes_every_attribute_context() {
    let poc = csrf_poc(
        "https://example.test/?x=\" onmouseover=\"alert(1)",
        "POST",
        "\"/><script>alert(1)</script>",
    );
    assert!(!poc.contains("onmouseover=\"alert(1)"));
    assert!(!poc.contains("\"/><script>"));
    assert!(poc.contains("&quot;"));
}

#[test]
fn workflow_validation_rejects_injection_shaped_inputs() {
    assert!(validate_http_url("file:///tmp/test", "url").is_err());
    assert!(normalize_method(Some("GET\r\nInjected: x".to_owned()), "GET").is_err());
    assert!(
        validate_headers(&vec![(
            "X-Test".to_owned(),
            "ok\r\nInjected: yes".to_owned()
        )])
        .is_err()
    );
}

#[test]
fn validation_messages_name_the_problem() {
    assert_eq!(validate_http_url("", "target"), Err("target must contain between 1 and 8192 bytes".to_owned()));
    assert_eq!(validate_http_url("https://example.test/x", "url"), Ok(()));
    assert_eq!(
        validate_http_url("mailto:someone@example.test", "url"),
        Err("url must be an absolute HTTP(S) URL with a host".to_owned())
    );
    assert!(validate_http_url("not a url", "url").unwrap_err().starts_with("url must be an absolute HTTP(S) URL: "));
    assert_eq!(normalize_method(None, " post "), Ok("POST".to_owned()));
    assert_eq!(validate_name("X-Ok", "header name"), Ok(()));
    assert_eq!(
        validate_name("", "parameter name"),
        Err("parameter name must be a non-empty HTTP token of at most 256 bytes".to_owned())
    );
    let too_many: Vec<(String, String)> = (0..129).map(|i| (format!("h{i}"), "v".to_owned())).collect();
    assert_eq!(validate_headers(&too_many), Err("headers must contain at most 128 entries".to_owned()));
    assert_eq!(
        validate_headers(&vec![("Good".to_owned(), "x".repeat(16385))]),
        Err("header `Good` must contain at most 16384 bytes and no CR/LF".to_owned())
    );
}

#[test]
fn response_parts_skip_status_lines() {
    let parts = split_http_response("HTTP/1.1 100 Continue\nHTTP/1.1 200 OK\nA: 1\nno colon\nB : two \n\nbody");
    assert_eq!(parts.headers, vec![("A".to_owned(), "1".to_owned()), ("B".to_owned(), "two".to_owned())]);
    assert_eq!(parts.body, "body");
    assert_eq!(header_values(&parts, "b"), vec!["two".to_owned()]);
    let no_head = split_http_response("just body");
    assert!(no_head.headers.is_empty());
    assert_eq!(no_head.body, "just body");
}

#[test]
fn resolve_fuzz_categories_defaults_filtering_and_errors() {
    let defaults = resolve_fuzz_categories(None).unwrap();
    assert_eq!(
        vec!["sqli", "xss", "overflow", "traversal"],
        defaults.iter().map(|(name, _)| *name).collect::<Vec<_>>()
    );

    let requested = vec!["traversal".to_owned(), "sqli".to_owned(), "sqli".to_owned()];
    assert_eq!(
        vec!["sqli", "traversal"],
        resolve_fuzz_categories(Some(&requested))
            .unwrap()
            .iter()
            .map(|(name, _)| *name)
            .collect::<Vec<_>>()
    );

    let unknown = vec!["unknown".to_owned()];
    assert!(resolve_fuzz_categories(Some(&unknown)).is_err());
    let empty = Vec::<String>::new();
    assert!(resolve_fuzz_categories(Some(&empty)).unwrap().is_empty());
}

#[test]
fn fuzz_payloads_and_unknown_message() {
    let all = resolve_fuzz_categories(None).unwrap();
    assert_eq!(all[2].1, "A".repeat(1024));
    assert_eq!(all[0].1, "' OR '1'='1");
    let req = vec![" xss ".to_owned(), "bogus".to_owned()];
    assert_eq!(
        resolve_fuzz_categories(Some(&req)),
        Err("Unknown fuzz category 'bogus'. Supported categories are: sqli, xss, overflow, traversal".to_owned())
    );
}

#[test]
fn form_bodies_are_urlencoded() {
    assert_eq!(form_body("q", "a b&c=d").unwrap(), b"q=a+b%26c%3Dd".to_vec());
    assert_eq!(form_body("q", "*-._~Az09").unwrap(), b"q=*-._%7EAz09".to_vec());
    assert_eq!(form_body("q", "\u{e9}").unwrap(), b"q=%C3%A9".to_vec());
    assert_eq!(
        form_body("bad name", "x").unwrap_err(),
        "parameter name must be a non-empty HTTP token of at most 256 bytes"
    );
}
