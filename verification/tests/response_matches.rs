use burp_tools::requests::websocket_binary_data;
use burp_tools::response_matches::extract_matches;

#[test]
fn matches_are_limited_and_errors_reported() {
    let body = b"HTTP/1.1 200 OK\r\n\r\nid=1 id=22 id=333";
    assert_eq!(
        extract_matches(body, r"id=\d+", None).unwrap(),
        vec!["id=1".to_string(), "id=22".to_string(), "id=333".to_string()]
    );
    assert_eq!(extract_matches(body, r"id=\d+", Some(2)).unwrap().len(), 2);
    assert_eq!(extract_matches(body, r"id=\d+", Some(501)).unwrap_err(), "limit must be at most 500");
    assert!(extract_matches(b"", "(", None).unwrap().is_empty());
    assert!(extract_matches(body, "(", None).unwrap_err().starts_with("invalid regex: "));
    assert_eq!(extract_matches(b"caf\xff", "caf.", None).unwrap(), vec!["caf\u{fffd}".to_string()]);
}

#[test]
fn binary_websocket_data_is_base64() {
    assert_eq!(websocket_binary_data("aGk=").unwrap(), b"hi".to_vec());
    assert!(websocket_binary_data("%%").unwrap_err().starts_with("invalid base64: "));
}
