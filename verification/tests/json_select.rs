use burp_tools::json_path::{parse_json_path, FilterOp, FilterVal, JsonSegment};
use burp_tools::json_select::{filter_candidates, filter_target, select_step};
use burp_tools::json_value::JsonValue;
use serde_json::Value;

fn json_value_of(value: &Value) -> JsonValue {
    match value {
        Value::Null => JsonValue::Null,
        Value::Bool(b) => JsonValue::Bool(*b),
        Value::Number(n) => JsonValue::Number(n.to_string()),
        Value::String(s) => JsonValue::String(s.clone()),
        Value::Array(items) => JsonValue::Array(items.iter().map(json_value_of).collect()),
        Value::Object(map) => {
            JsonValue::Object(map.iter().map(|(k, v)| (k.clone(), json_value_of(v))).collect())
        }
    }
}

fn value_of(value: &JsonValue) -> Value {
    match value {
        JsonValue::Null => Value::Null,
        JsonValue::Bool(b) => Value::Bool(*b),
        JsonValue::Number(n) => Value::Number(serde_json::from_str(n).unwrap()),
        JsonValue::String(s) => Value::String(s.clone()),
        JsonValue::Array(items) => Value::Array(items.iter().map(value_of).collect()),
        JsonValue::Object(members) => {
            Value::Object(members.iter().map(|(k, v)| (k.clone(), value_of(v))).collect())
        }
    }
}

// Only the string-equality filter of these scenarios is evaluated here.
fn passes(item: &JsonValue, path: &Vec<String>, op: &Option<FilterOp>, value: &Option<FilterVal>) -> bool {
    let current = match filter_target(item, path) {
        Some(target) => target,
        None => return false,
    };
    match (op, value, current) {
        (Some(FilterOp::Eq), Some(FilterVal::String(expected)), JsonValue::String(actual)) => {
            actual == expected
        }
        (Some(FilterOp::Eq), Some(FilterVal::String(_)), _) => false,
        _ => panic!("unexpected filter"),
    }
}

fn extract(json: &str, path: &str) -> Result<Vec<Value>, String> {
    let parsed: Value = serde_json::from_str(json).map_err(|e| e.to_string())?;
    let document = json_value_of(&parsed);
    let mut current: Vec<&JsonValue> = vec![&document];
    for segment in &parse_json_path(path)? {
        current = match select_step(&current, segment) {
            Some(next) => next,
            None => match segment {
                JsonSegment::Filter { path, op, value } => current
                    .iter()
                    .flat_map(|v| filter_candidates(*v))
                    .filter(|item| passes(item, path, op, value))
                    .collect(),
                _ => panic!("only filters are left to the caller"),
            },
        };
    }
    Ok(current.into_iter().map(value_of).collect())
}

const USERS: &str = r#"{
    "data": {
        "users": [
            {"id": 1, "name": "Alice", "role": "admin", "active": true},
            {"id": 2, "name": "Bob", "role": "user", "active": false}
        ],
        "meta": {
            "total": 2
        }
    }
}"#;

fn check_users_scenarios(json: &str) {
    let res = extract(json, "$.data.users[*].name").unwrap();
    assert_eq!(res.len(), 2);
    assert_eq!(res[0], "Alice");
    assert_eq!(res[1], "Bob");

    let res_single = extract(json, "data.meta.total").unwrap();
    assert_eq!(res_single.len(), 1);
    assert_eq!(res_single[0], 2);

    let res_idx = extract(json, "$.data.users[0].id").unwrap();
    assert_eq!(res_idx.len(), 1);
    assert_eq!(res_idx[0], 1);

    let res_rec = extract(json, "$..name").unwrap();
    assert_eq!(res_rec.len(), 2);
    assert_eq!(res_rec[0], "Alice");
    assert_eq!(res_rec[1], "Bob");

    let res_filter = extract(json, "$.data.users[?(@.role == 'admin')].name").unwrap();
    assert_eq!(res_filter.len(), 1);
    assert_eq!(res_filter[0], "Alice");

    let res_slice = extract(json, "$.data.users[0:1].name").unwrap();
    assert_eq!(res_slice.len(), 1);
    assert_eq!(res_slice[0], "Alice");

    let res_union = extract(json, "$.data.users[0]['id', 'name']").unwrap();
    assert_eq!(res_union.len(), 2);
    assert_eq!(res_union[0], 1);
    assert_eq!(res_union[1], "Alice");
}

#[test]
fn body_filter_test_pest_json_path() {
    check_users_scenarios(USERS);
}

#[test]
fn json_path_test_pest_json_path() {
    check_users_scenarios(USERS);
}

#[test]
fn negative_indices_count_from_the_end() {
    let json = r#"{"a": [10, 20, 30]}"#;
    assert_eq!(extract(json, "$.a[-1]").unwrap(), vec![Value::from(30)]);
    assert_eq!(extract(json, "$.a[-3]").unwrap(), vec![Value::from(10)]);
    assert!(extract(json, "$.a[-4]").unwrap().is_empty());
    assert!(extract(json, "$.a[3]").unwrap().is_empty());
}

#[test]
fn slices_clamp_and_step() {
    let json = r#"{"a": [0, 1, 2, 3, 4, 5]}"#;
    let nums = |p: &str| extract(json, p).unwrap();
    assert_eq!(nums("$.a[1:5:2]"), vec![Value::from(1), Value::from(3)]);
    assert_eq!(nums("$.a[-2:]"), vec![Value::from(4), Value::from(5)]);
    assert_eq!(nums("$.a[:100]").len(), 6);
    assert!(nums("$.a[4:2]").is_empty());
    assert!(nums("$.a[::0]").is_empty());
    assert_eq!(nums("$.a[::4]"), vec![Value::from(0), Value::from(4)]);
}

#[test]
fn recursive_wildcard_lists_each_value_before_its_children() {
    let json = r#"{"a": {"b": 1}, "c": [2]}"#;
    let all = extract(json, "$..*").unwrap();
    let expected: Vec<Value> = serde_json::from_str(r#"[{"b": 1}, 1, [2], 2]"#).unwrap();
    assert_eq!(all, expected);
    let names = extract(r#"{"b": {"b": 2}, "c": [{"b": 3}]}"#, "$..b").unwrap();
    let expected: Vec<Value> = serde_json::from_str(r#"[{"b": 2}, 2, 3]"#).unwrap();
    assert_eq!(names, expected);
}

#[test]
fn filter_paths_follow_members() {
    let doc: Value = serde_json::from_str(r#"{"a": {"b": [1]}, "c": 2}"#).unwrap();
    let doc = json_value_of(&doc);
    let path = |keys: &[&str]| keys.iter().map(|k| k.to_string()).collect::<Vec<String>>();
    assert_eq!(value_of(filter_target(&doc, &path(&["a", "b"])).unwrap()), serde_json::from_str::<Value>("[1]").unwrap());
    assert_eq!(value_of(filter_target(&doc, &path(&[])).unwrap()), value_of(&doc));
    assert!(filter_target(&doc, &path(&["a", "x"])).is_none());
    assert!(filter_target(&doc, &path(&["c", "d"])).is_none());
}
