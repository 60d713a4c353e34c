use burp_tools::diff::{compare_http_messages, diff_headers, extract_bigrams, generate_line_diff, parse_http_message, shared_bigrams};
use burp_tools::sync::{
    committed_watermark, count_page, evaluate_http_annotation, has_annotation_room, is_last_page,
    is_medium_or_higher, page_run_id, raise_watermark, resume_cursor, resume_point, severity_rank,
    source_scope, split_http_body, sync_scope, Coverage, RuleMatch, sync_step, SyncPage, SyncRun,
    SyncStage,
};

#[test]
fn test_split_http_body() {
    let msg = b"HTTP/1.1 200 OK\r\nHeader: val\r\n\r\nHello World";
    assert_eq!(split_http_body(msg), b"Hello World");

    let lf_msg = b"HTTP/1.1 200 OK\nHeader: val\n\nHello LF";
    assert_eq!(split_http_body(lf_msg), b"Hello LF");

    let no_body = b"HTTP/1.1 200 OK\r\nHeader: val";
    assert_eq!(split_http_body(no_body), b"");
}

fn hit(rule: &str, severity: &str) -> RuleMatch {
    RuleMatch { rule_id: rule.to_owned(), severity: severity.to_owned() }
}

/// The matches that the rule pack of the original test (low_rule on request
/// messages and response bodies, med_rule on response bodies, crit_rule on
/// request messages) reports for each message of the test.
fn pack_matches(request: &[u8], response: &[u8]) -> (Vec<RuleMatch>, Vec<RuleMatch>, Vec<RuleMatch>) {
    let contains = |hay: &[u8], needle: &str| hay.windows(needle.len()).any(|w| w == needle.as_bytes());
    let body = split_http_body(response);
    let mut req = Vec::new();
    if contains(request, "low_marker") {
        req.push(hit("low_rule", "low"));
    }
    if contains(request, "crit_marker") {
        req.push(hit("crit_rule", "critical"));
    }
    let mut resp_body = Vec::new();
    if contains(body, "low_marker") {
        resp_body.push(hit("low_rule", "low"));
    }
    if contains(body, "med_marker") {
        resp_body.push(hit("med_rule", "medium"));
    }
    (req, Vec::new(), resp_body)
}

#[test]
fn test_evaluate_annotation_medium_plus_filter() {
    let (a, b, c) = pack_matches(b"low_marker", b"HTTP/1.1 200 OK\r\n\r\nlow_marker");
    let res_low = evaluate_http_annotation(&a, &b, &c);
    assert!(res_low.is_none());

    let (a, b, c) = pack_matches(b"nothing", b"HTTP/1.1 200 OK\r\n\r\nmed_marker");
    let res_med = evaluate_http_annotation(&a, &b, &c);
    assert!(res_med.is_some());
    let c_med = res_med.unwrap();
    assert_eq!(c_med.severity, "medium");
    assert_eq!(c_med.color, "ORANGE");
    assert_eq!(
        c_med.marker,
        "[SiteGraph] severity=medium rules=med_rule direction=response"
    );

    let (a, b, c) = pack_matches(b"crit_marker", b"HTTP/1.1 200 OK\r\n\r\nnothing");
    let res_crit = evaluate_http_annotation(&a, &b, &c);
    assert!(res_crit.is_some());
    let c_crit = res_crit.unwrap();
    assert_eq!(c_crit.severity, "critical");
    assert_eq!(c_crit.color, "RED");
    assert_eq!(
        c_crit.marker,
        "[SiteGraph] severity=critical rules=crit_rule direction=request"
    );

    let (a, b, c) = pack_matches(b"crit_marker", b"HTTP/1.1 200 OK\r\n\r\nmed_marker");
    let res_both = evaluate_http_annotation(&a, &b, &c);
    assert!(res_both.is_some());
    let c_both = res_both.unwrap();
    assert_eq!(c_both.severity, "critical");
    assert_eq!(c_both.color, "RED");
    assert_eq!(
        c_both.marker,
        "[SiteGraph] severity=critical rules=crit_rule,med_rule direction=both"
    );
}

#[test]
fn annotation_rules_are_sorted_and_unique() {
    let req = vec![hit("b", "HIGH"), hit("a", "medium"), hit("b", "high")];
    let c = evaluate_http_annotation(&req, &Vec::new(), &Vec::new()).unwrap();
    assert_eq!(c.severity, "high");
    assert_eq!(c.color, "RED");
    assert_eq!(c.marker, "[SiteGraph] severity=high rules=a,b direction=request");
    assert_eq!(severity_rank("Critical"), 3);
    assert!(!is_medium_or_higher("info"));
}

#[test]
fn messages_parse_into_status_headers_and_body() {
    let (headers, body, status) = parse_http_message(
        "HTTP/1.1 404 Not Found\r\nX-B: 2\r\nx-a: 1\r\nX-A:  3 \r\n\r\nmissing",
    );
    assert_eq!(status, Some(404));
    assert_eq!(body, "missing");
    assert_eq!(
        headers,
        vec![("x-a".to_owned(), "3".to_owned()), ("x-b".to_owned(), "2".to_owned())]
    );
    let (_, body2, status2) = parse_http_message("GET / HTTP/1.1\nHost: x");
    assert_eq!(status2, None);
    assert_eq!(body2, "");
}

#[test]
fn header_differences_are_reported_in_name_order() {
    let (a, _, _) = parse_http_message("HTTP/1.1 200 OK\r\nA: 1\r\nB: 2\r\nC: 3\r\n\r\n");
    let (b, _, _) = parse_http_message("HTTP/1.1 200 OK\r\nB: 20\r\nC: 3\r\nD: 4\r\n\r\n");
    let d = diff_headers(&a, &b);
    assert_eq!(d.len(), 3);
    assert_eq!((d[0].name.as_str(), d[0].change_type.as_str()), ("a", "removed"));
    assert_eq!(d[0].value_a.as_deref(), Some("1"));
    assert_eq!((d[1].name.as_str(), d[1].change_type.as_str()), ("b", "modified"));
    assert_eq!((d[1].value_a.as_deref(), d[1].value_b.as_deref()), (Some("2"), Some("20")));
    assert_eq!((d[2].name.as_str(), d[2].change_type.as_str()), ("d", "added"));
}

#[test]
fn line_diff_shows_changes_and_context() {
    assert_eq!(generate_line_diff("a\nb", "a\nb\n"), "--- Responses are identical ---");
    assert_eq!(generate_line_diff("x\nsame", "y\nsame"), "- x\n+ y\n  same\n");
    assert_eq!(generate_line_diff("a", ""), "- a\n");
    assert_eq!(generate_line_diff("", "b\nc"), "+ b\n+ c\n");
    let diff = generate_line_diff("Hello World A", "Hello World B");
    assert!(diff.contains("- Hello World A"));
    assert!(diff.contains("+ Hello World B"));
}

#[test]
fn bigrams_are_distinct_adjacent_pairs() {
    let a = extract_bigrams("abab");
    assert_eq!(a, vec![('a', 'b'), ('b', 'a')]);
    let b = extract_bigrams("abc");
    assert_eq!(shared_bigrams(&a, &b), 1);
    assert!(extract_bigrams("x").is_empty());
}

#[test]
fn sync_runs_resume_incomplete_checkpoints_only() {
    assert_eq!(sync_scope(""), "all");
    assert_eq!(sync_scope("https://a.test/"), "https://a.test/");
    let partial = Coverage {
        complete: false,
        last_cursor: Some("c7".to_string()),
        pages_read: 7,
        items_indexed: 3500,
    };
    let r = resume_point(Some(("run-1".to_string(), partial)));
    assert_eq!(r.run_id.as_deref(), Some("run-1"));
    assert_eq!(r.cursor, "c7");
    assert_eq!((r.pages_seen, r.items_seen), (7, 3500));
    let done = Coverage {
        complete: true,
        last_cursor: Some("c9".to_string()),
        pages_read: 9,
        items_indexed: 4500,
    };
    let r = resume_point(Some(("run-2".to_string(), done)));
    assert!(r.run_id.is_none());
    assert_eq!(r.cursor, "");
    assert_eq!((r.pages_seen, r.items_seen), (0, 0));
    assert!(resume_point(None).run_id.is_none());
}

#[test]
fn paging_stops_at_the_last_page_and_counts_saturate() {
    assert!(is_last_page(false, "next"));
    assert!(is_last_page(true, ""));
    assert!(!is_last_page(true, "next"));
    assert_eq!(resume_cursor(true, "next").as_deref(), Some("next"));
    assert_eq!(resume_cursor(false, "next"), None);
    assert_eq!(count_page(0, 10, 500), (1, 510));
    assert_eq!(count_page(1, u64::MAX - 1, 5), (2, u64::MAX));
    assert_eq!(raise_watermark(None, 4), Some(4));
    assert_eq!(raise_watermark(Some(9), 4), Some(9));
    assert_eq!(raise_watermark(Some(9), 12), Some(12));
    assert!(has_annotation_room(49));
    assert!(!has_annotation_room(50));
    assert_eq!(committed_watermark(true, Some(3), Some(8)), Some(8));
    assert_eq!(committed_watermark(false, Some(3), Some(8)), Some(3));
    assert_eq!(source_scope("all", "http_history"), "all:http_history");
    assert_eq!(page_run_id("r1", "websocket", "c2"), "r1-websocket-c2");
}

fn page(truncated: bool, next: &str, ids: Vec<u32>, candidates: usize) -> SyncPage {
    SyncPage { truncated, next_cursor: next.to_string(), ids, candidates }
}

#[test]
fn runs_read_their_sources_in_order() {
    let run = SyncRun {
        stage: SyncStage::Sitemap,
        cursor: String::new(),
        http_watermark: Some(7),
        websocket_watermark: None,
        annotations: 0,
    };
    let run = sync_step(run, page(true, "500", vec![], 0));
    assert_eq!(run.stage, SyncStage::Sitemap);
    assert_eq!(run.cursor, "500");
    let run = sync_step(run, page(false, "", vec![], 0));
    assert_eq!(run.stage, SyncStage::HttpHistory);
    assert_eq!(run.cursor, "");
    let run = sync_step(run, page(true, "p2", vec![9, 8, 12], 45));
    assert_eq!(run.http_watermark, Some(12));
    assert_eq!(run.annotations, 45);
    let run = sync_step(run, page(true, "", vec![3], 10));
    assert_eq!(run.http_watermark, Some(12));
    assert_eq!(run.annotations, 50);
    assert_eq!(run.stage, SyncStage::Issues);
    let run = sync_step(run, page(false, "x", vec![1], 0));
    assert_eq!(run.stage, SyncStage::WebSocketHistory);
    let run = sync_step(run, page(false, "", vec![4, 2], 0));
    assert_eq!(run.websocket_watermark, Some(4));
    assert_eq!(run.stage, SyncStage::Done);
    let run = sync_step(run, page(true, "again", vec![99], 3));
    assert_eq!(run.stage, SyncStage::Done);
    assert_eq!(run.websocket_watermark, Some(4));
}

#[test]
fn messages_compare_status_lengths_headers_and_body() {
    let a = "HTTP/1.1 200 OK\r\nServer: x\r\nX-Old: 1\r\n\r\nhello\nworld";
    let b = "HTTP/1.1 404 Not Found\r\nServer: y\r\nX-New: 2\r\n\r\nhello\u{e9}";
    let c = compare_http_messages(a, b);
    assert_eq!(c.status_a, Some(200));
    assert_eq!(c.status_b, Some(404));
    assert_eq!(c.body_a, "hello\nworld");
    assert_eq!(c.body_b, "hello\u{e9}");
    assert_eq!(c.length_a, 11);
    assert_eq!(c.length_b, 7);
    assert_eq!(c.length_delta, -4);
    let names: Vec<(&str, &str)> = c
        .headers_diff
        .iter()
        .map(|d| (d.name.as_str(), d.change_type.as_str()))
        .collect();
    assert_eq!(names.len(), 3);
    assert!(names.iter().all(|(_, t)| ["added", "removed", "modified"].contains(t)));
    assert_eq!(c.body_diff, generate_line_diff(&c.body_a, &c.body_b));
    let same = compare_http_messages(a, a);
    assert!(same.headers_diff.is_empty());
    assert_eq!(same.length_delta, 0);
}
