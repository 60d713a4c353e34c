use burp_tools::http_text::extract_headers_only;
use burp_tools::payload::{
    filter_and_truncate_payload, is_binary_mime_type, is_binary_payload, truncate_text,
};

#[test]
fn test_extract_headers_only() {
    let raw = "HTTP/1.1 200 OK\r\nContent-Type: text/plain\r\n\r\nHello World";
    assert_eq!(
        extract_headers_only(raw),
        "HTTP/1.1 200 OK\r\nContent-Type: text/plain"
    );
}

#[test]
fn test_is_binary_mime_type() {
    assert!(is_binary_mime_type("image/png"));
    assert!(is_binary_mime_type("application/octet-stream"));
    assert!(!is_binary_mime_type("application/json"));
    assert!(!is_binary_mime_type("text/html"));
}

#[test]
fn test_filter_and_truncate_payload() {
    let body = b"HTTP/1.1 200 OK\r\nContent-Type: text/html\r\n\r\n<div>Hello</div>";
    let (out, trunc) =
        filter_and_truncate_payload(body, Some("text/html"), false, Some("div"), None, None);
    assert!(!trunc);
    assert!(out.contains("<div>Hello</div>"));
}

#[test]
fn test_filter_and_truncate_utf8_boundary() {
    // "🦀" is 4 bytes: [0xF0, 0x9F, 0x96, 0x80]
    let raw = "Hello 🦀 World".as_bytes();
    // Truncate at 8 bytes (middle of crab emoji)
    let (out, trunc) = filter_and_truncate_payload(raw, None, false, None, None, Some(8));
    assert!(trunc);
    assert!(out.starts_with("Hello "));
    assert!(!out.starts_with("Hello 🦀"));
}

#[test]
fn css_projection_respects_output_limit() {
    let html = format!("<div>{}</div>", "y".repeat(1024));
    let (css_output, css_truncated) =
        filter_and_truncate_payload(html.as_bytes(), None, false, Some("div"), None, Some(64));
    assert!(css_truncated);
    assert!(css_output.starts_with("--- CSS Matches"));
}

#[test]
fn json_projection_is_used_when_css_is_absent() {
    let (out, truncated) = filter_and_truncate_payload(
        b"{\"a\":1}",
        None,
        false,
        None,
        Some("--- JSONPath Matches for `$.a` (1) ---\n[\n  1\n]"),
        None,
    );
    assert!(!truncated);
    assert_eq!(out, "--- JSONPath Matches for `$.a` (1) ---\n[\n  1\n]");
}

#[test]
fn binary_payloads_are_summarised() {
    let (out, t) = filter_and_truncate_payload(&[0u8, 1, 2, 3], None, false, None, None, None);
    assert_eq!(out, "<binary data: 4 bytes>");
    assert!(!t);
    let (out2, _) = filter_and_truncate_payload(b"abc", Some("IMAGE/PNG"), false, None, None, None);
    assert_eq!(out2, "<binary data: 3 bytes [IMAGE/PNG]>");
    let (empty, _) = filter_and_truncate_payload(b"", None, false, None, None, None);
    assert_eq!(empty, "");
}

#[test]
fn binary_sniffing_counts_control_bytes() {
    assert!(!is_binary_payload(b""));
    assert!(is_binary_payload(&[b'a', 0, b'b']));
    assert!(!is_binary_payload(b"plain text\r\n\twith tabs"));
    let mostly_controls: Vec<u8> = vec![1, 2, 3, b'a', b'b', b'c', b'd', b'e', b'f', b'g'];
    assert!(is_binary_payload(&mostly_controls));
}

#[test]
fn headers_only_view_is_truncated_too() {
    let (out, t) = filter_and_truncate_payload(
        b"HTTP/1.1 200 OK\nX: 1\n\nbody",
        None,
        true,
        None,
        None,
        Some(8),
    );
    assert!(t);
    assert_eq!(out, "HTTP/1.1\n\n... [truncated 12 bytes]");
}

#[test]
fn truncation_reports_dropped_bytes() {
    assert_eq!(truncate_text("abcdef", Some(4)), ("abcd\n\n... [truncated 2 bytes]".to_owned(), true));
    assert_eq!(truncate_text("abc", Some(4)), ("abc".to_owned(), false));
    assert_eq!(truncate_text("abc", None), ("abc".to_owned(), false));
    assert_eq!(truncate_text("é", Some(1)), ("\n\n... [truncated 2 bytes]".to_owned(), true));
}

#[test]
fn headers_only_falls_back_to_lf_and_whole_text() {
    assert_eq!(extract_headers_only("A: 1\n\nbody"), "A: 1");
    assert_eq!(extract_headers_only("no blank line"), "no blank line");
}
