use burp_tools::daemon::{plan_graph_operation, signed_field, to_u32, unsigned_field, GraphQuery};
use burp_tools::json_value::JsonValue;

fn payload(members: Vec<(&str, JsonValue)>) -> JsonValue {
    JsonValue::Object(members.into_iter().map(|(k, v)| (k.to_string(), v)).collect())
}

fn num(text: &str) -> JsonValue {
    JsonValue::Number(text.to_string())
}

fn s(text: &str) -> JsonValue {
    JsonValue::String(text.to_string())
}

#[test]
fn numeric_fields_must_be_integers_in_range() {
    let p = payload(vec![
        ("a", num("18446744073709551615")),
        ("b", num("18446744073709551616")),
        ("c", num("1.5")),
        ("d", num("-3")),
        ("e", s("7")),
    ]);
    assert_eq!(unsigned_field(&p, "a"), Ok(u64::MAX));
    assert_eq!(unsigned_field(&p, "b"), Err("missing unsigned field b".to_string()));
    assert_eq!(unsigned_field(&p, "c"), Err("missing unsigned field c".to_string()));
    assert_eq!(unsigned_field(&p, "d"), Err("missing unsigned field d".to_string()));
    assert_eq!(unsigned_field(&p, "e"), Err("missing unsigned field e".to_string()));
    assert_eq!(signed_field(&p, "d"), Ok(-3));
    let q = payload(vec![("min", num("-9223372036854775808")), ("over", num("9223372036854775808"))]);
    assert_eq!(signed_field(&q, "min"), Ok(i64::MIN));
    assert!(signed_field(&q, "over").is_err());
    assert_eq!(to_u32(5, "limit"), Ok(5));
    assert_eq!(to_u32(1 << 32, "limit"), Err("limit exceeds u32".to_string()));
}

#[test]
fn operations_read_their_arguments_in_order() {
    let p = payload(vec![("query", s("login")), ("cursor", num("0")), ("limit", num("25"))]);
    match plan_graph_operation("search", &p).unwrap() {
        GraphQuery::Search { query, cursor, limit } => {
            assert_eq!(query, "login");
            assert_eq!((cursor, limit), (0, 25));
        }
        other => panic!("unexpected {other:?}"),
    }
    let p = payload(vec![("start_id", s("n1")), ("max_depth", num("4294967296")), ("limit", num("5"))]);
    assert_eq!(
        plan_graph_operation("trace", &p).err(),
        Some("max_depth exceeds u32".to_string())
    );
    let p = payload(vec![("since", num("-5")), ("cursor", num("1"))]);
    assert_eq!(
        plan_graph_operation("diff", &p).err(),
        Some("missing unsigned field limit".to_string())
    );
    assert_eq!(
        plan_graph_operation("checkpoint", &payload(vec![])).err(),
        Some("missing string field source".to_string())
    );
    assert!(matches!(plan_graph_operation("status", &JsonValue::Null), Ok(GraphQuery::Status)));
    assert_eq!(
        plan_graph_operation("drop_all", &JsonValue::Null).err(),
        Some("unsupported operation: drop_all".to_string())
    );
}
