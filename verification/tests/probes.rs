use burp_tools::probes::{
    auth_cell, auth_matrix_size, auth_violation, check_payload_count, cors_finding,
    cors_overall_vulnerable, cors_test_origins, is_time_based, plan_ssrf_probe, require_response,
    sqli_sleep_payload, sqli_sleep_seconds, sqli_verdict, ssrf_limits, ssrf_verdict,
    validate_role_name, validate_test_origin,
};
use burp_tools::probes::{
    csrf_remediation, fuzz_anomaly, fuzz_summary, require_fuzz_operations, require_fuzz_payloads,
    require_state_changing, samesite_or_unknown,
};
use burp_tools::proto::SendRequestResponse;
use std::collections::HashMap;

fn header_map(headers: &[(String, String)]) -> HashMap<String, String> {
    headers.iter().cloned().collect()
}

#[test]
fn responses_without_http_answer_are_errors() {
    let answered = SendRequestResponse {
        request: vec![],
        response: b"HTTP/1.1 200 OK\r\n\r\n".to_vec(),
        status: 200,
        has_response: true,
    };
    assert_eq!(require_response(answered, "probe").unwrap().status, 200);
    let silent = SendRequestResponse {
        request: vec![],
        response: vec![],
        status: 0,
        has_response: false,
    };
    assert_eq!(
        require_response(silent, "CORS probe for `x` failed").err().unwrap(),
        "CORS probe for `x` failed: Burp completed the request without an HTTP response"
    );
}

#[test]
fn cors_origins_default_and_are_bounded() {
    assert_eq!(
        cors_test_origins(None).unwrap(),
        vec!["https://evil.com", "null", "https://target.com.evil.com"]
    );
    assert_eq!(
        cors_test_origins(Some(vec!["https://a.test".to_string()])).unwrap(),
        vec!["https://a.test"]
    );
    let err = "test_origins must contain between 1 and 16 entries".to_string();
    assert_eq!(cors_test_origins(Some(vec![])), Err(err.clone()));
    assert_eq!(cors_test_origins(Some(vec!["o".to_string(); 17])), Err(err));
    assert!(validate_test_origin("https://evil.com").is_ok());
    for bad in ["", "https://a\r\nb", "a\nb"] {
        assert!(validate_test_origin(bad).is_err());
    }
    assert!(validate_test_origin(&"o".repeat(8193)).is_err());
}

#[test]
fn cors_answers_are_graded() {
    let f = |acao: Option<&str>, acac: Option<&str>, origin: &str| {
        cors_finding(
            origin.to_string(),
            acao.map(str::to_string),
            acac.map(str::to_string),
        )
    };
    let high = f(Some("*"), Some("TRUE"), "https://evil.com");
    assert!(high.vulnerable);
    assert_eq!(high.severity, "HIGH");
    let low = f(Some("*"), None, "https://evil.com");
    assert_eq!(low.severity, "LOW");
    let critical = f(Some("HTTPS://EVIL.COM"), Some("true"), "https://evil.com");
    assert_eq!(critical.severity, "CRITICAL");
    let medium = f(Some("https://evil.com"), Some("false"), "https://evil.com");
    assert_eq!(medium.severity, "MEDIUM");
    let info = f(Some("https://good.com"), Some("true"), "https://evil.com");
    assert!(!info.vulnerable);
    assert_eq!(info.severity, "INFO");
    assert_eq!(info.description, "Origin was rejected or restricted.");
    assert_eq!(f(None, None, "null").severity, "INFO");
    assert!(!cors_overall_vulnerable(&vec![low.clone(), info.clone()]));
    assert!(cors_overall_vulnerable(&vec![low, medium]));
}

#[test]
fn auth_matrix_limits_and_violations() {
    assert_eq!(auth_matrix_size(4, 8), Ok(32));
    assert_eq!(
        auth_matrix_size(0, 1),
        Err("endpoints must contain between 1 and 32 entries".to_string())
    );
    assert_eq!(
        auth_matrix_size(1, 17),
        Err("roles must contain between 1 and 16 entries".to_string())
    );
    assert_eq!(
        auth_matrix_size(32, 16),
        Err("endpoint × role combinations must not exceed 128".to_string())
    );
    assert!(validate_role_name("admin").is_ok());
    assert!(validate_role_name("   ").is_err());
    assert!(validate_role_name(&"r".repeat(129)).is_err());
    let cell = auth_cell("https://a/x".to_string(), "guest".to_string(), 302, 5);
    assert!(cell.accessible);
    assert!(!auth_cell("e".to_string(), "r".to_string(), 403, 0).accessible);
    assert_eq!(
        auth_violation("https://a/x", "Guest", 200),
        Some("Endpoint `https://a/x` is accessible by unauthenticated role `Guest` (HTTP 200)".to_string())
    );
    assert_eq!(auth_violation("https://a/x", "admin", 200), None);
    assert_eq!(auth_violation("https://a/x", "anonymous", 401), None);
}

#[test]
fn ssrf_limits_and_verdicts() {
    assert_eq!(ssrf_limits(1, None), Ok(4));
    assert_eq!(ssrf_limits(32, Some(30)), Ok(30));
    assert_eq!(
        ssrf_limits(0, None),
        Err("injection_points must contain between 1 and 32 entries".to_string())
    );
    assert_eq!(
        ssrf_limits(2, Some(31)),
        Err("wait_seconds must not exceed 30".to_string())
    );
    assert!(check_payload_count(2, 2).is_ok());
    assert_eq!(
        check_payload_count(1, 2),
        Err("Collaborator generated 1 payloads for 2 injection points".to_string())
    );
    assert_eq!(
        ssrf_verdict(2),
        (
            true,
            "CONFIRMED SSRF: received 2 interaction(s) correlated to this workflow's payloads"
                .to_string()
        )
    );
    assert!(!ssrf_verdict(0).0);
}

#[test]
fn ssrf_probes_place_the_payload_where_the_point_says() {
    let base = vec![("Accept".to_string(), "*/*".to_string())];
    let probe = plan_ssrf_probe("header:X-Forwarded-Host", "abc.oast", "https://t/x", "", &base).unwrap();
    let h = header_map(&probe.headers);
    assert_eq!(h["X-Forwarded-Host"], "http://abc.oast");
    assert_eq!(h["Accept"], "*/*");
    assert_eq!(probe.target, "https://t/x");

    let probe = plan_ssrf_probe("param:next", "abc.oast", "https://t/x?a=1", "", &base).unwrap();
    assert_eq!(probe.target, "https://t/x?a=1&next=http%3A%2F%2Fabc.oast");

    let probe = plan_ssrf_probe("body", "abc.oast", "https://t/x", "{\"u\":\"{{ssrf}}\",\"v\":\"{{ssrf}}\"}", &base).unwrap();
    assert_eq!(probe.body, b"{\"u\":\"http://abc.oast\",\"v\":\"{{ssrf}}\"}".to_vec());
    assert!(!header_map(&probe.headers).contains_key("Content-Type"));

    let probe = plan_ssrf_probe("body", "abc.oast", "https://t/x", "", &base).unwrap();
    assert_eq!(probe.body, b"url=http%3A%2F%2Fabc.oast".to_vec());
    assert_eq!(
        header_map(&probe.headers)["Content-Type"],
        "application/x-www-form-urlencoded"
    );

    let typed = vec![("Content-Type".to_string(), "text/plain".to_string())];
    let probe = plan_ssrf_probe("callback", "abc.oast", "https://t/x", "", &typed).unwrap();
    assert_eq!(probe.body, b"callback=http%3A%2F%2Fabc.oast".to_vec());
    assert_eq!(header_map(&probe.headers)["Content-Type"], "text/plain");

    assert_eq!(
        plan_ssrf_probe("cookie:sid", "abc.oast", "https://t/x", "", &base).err().unwrap(),
        "unsupported injection point `cookie:sid`; use header:NAME, param:NAME, body, or a bare body parameter name"
    );
    assert_eq!(
        plan_ssrf_probe("header:bad name", "abc.oast", "https://t/x", "", &base).err().unwrap(),
        "SSRF header injection name must be a non-empty HTTP token of at most 256 bytes"
    );
}

#[test]
fn sqli_timing_and_verdicts() {
    assert_eq!(sqli_sleep_seconds(None), Ok(4));
    assert_eq!(sqli_sleep_seconds(Some(10)), Ok(10));
    for bad in [0, 11] {
        assert_eq!(
            sqli_sleep_seconds(Some(bad)),
            Err("sleep_seconds must be between 1 and 10".to_string())
        );
    }
    assert_eq!(sqli_sleep_payload(4), "1' AND SLEEP(4)-- -");
    assert!(is_time_based(100, 3600, 4));
    assert!(!is_time_based(100, 3599, 4));
    assert!(!is_time_based(5000, 100, 1));
    let (v, technique, verdict) = sqli_verdict(true, true, 100, 4200, "0.10");
    assert!(v);
    assert_eq!(technique, "Time-Based Blind SQLi");
    assert_eq!(
        verdict,
        "CONFIRMED TIME-BASED SQLI: sleep probe added 4100ms over the 100ms baseline"
    );
    let (v, technique, verdict) = sqli_verdict(false, true, 100, 200, "0.42");
    assert!(v);
    assert_eq!(technique, "Boolean-Based Differential SQLi");
    assert_eq!(
        verdict,
        "CONFIRMED BOOLEAN SQLI: true and false response similarity was 0.42"
    );
    let (v, technique, _) = sqli_verdict(false, false, 100, 200, "0.99");
    assert!(!v);
    assert_eq!(technique, "None");
}

#[test]
fn csrf_probes_need_mutating_methods_and_explain_outcomes() {
    for safe in ["GET", "HEAD", "OPTIONS", "TRACE"] {
        assert!(require_state_changing(safe).is_err());
    }
    assert!(require_state_changing("POST").is_ok());
    assert_eq!(samesite_or_unknown(None), "Unknown");
    assert_eq!(samesite_or_unknown(Some("Lax".to_string())), "Lax");
    assert!(csrf_remediation(403, "None").starts_with("The unauthenticated cross-site-style request was denied"));
    assert!(csrf_remediation(200, "Unknown").starts_with("No matching Set-Cookie was observed."));
    assert!(csrf_remediation(200, "None").starts_with("Enforce SameSite=Lax or SameSite=Strict"));
}

#[test]
fn fuzzing_reports_server_errors() {
    assert!(fuzz_anomaly("GET", "https://a/x", 404, "sqli").is_none());
    let a = fuzz_anomaly("GET", "https://a/x", 500, "sqli").unwrap();
    assert_eq!(a.description, "Server returned HTTP 500 for the sqli mutation");
    assert_eq!(a.payload_category, "sqli");
    assert_eq!(
        fuzz_summary(3, 12, 1),
        "Fuzzed 3 endpoints with 12 completed requests; found 1 server-error anomalies."
    );
    assert!(require_fuzz_payloads(0).is_err());
    assert!(require_fuzz_operations(0).is_err());
    assert!(require_fuzz_payloads(1).is_ok() && require_fuzz_operations(2).is_ok());
}
