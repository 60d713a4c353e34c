use burp_tools::json_path::{parse_json_path, unquote_str, FilterOp, FilterVal, JsonSegment};

fn field(name: &str) -> JsonSegment {
    JsonSegment::Field(name.to_string())
}

#[test]
fn dotted_paths_with_wildcards_and_indices() {
    assert_eq!(
        parse_json_path("$.data.users[*].name").unwrap(),
        vec![field("data"), field("users"), JsonSegment::Wildcard, field("name")]
    );
    assert_eq!(
        parse_json_path("$.data.users[0].id").unwrap(),
        vec![field("data"), field("users"), JsonSegment::Index(0), field("id")]
    );
    assert_eq!(
        parse_json_path("$.items[-1]").unwrap(),
        vec![field("items"), JsonSegment::Index(-1)]
    );
}

#[test]
fn a_leading_name_is_the_first_field() {
    assert_eq!(
        parse_json_path("data.meta.total").unwrap(),
        vec![field("data"), field("meta"), field("total")]
    );
    assert_eq!(parse_json_path("$").unwrap(), vec![]);
    assert_eq!(parse_json_path("").unwrap(), vec![]);
}

#[test]
fn recursive_descent_segments() {
    assert_eq!(
        parse_json_path("$..name").unwrap(),
        vec![JsonSegment::RecursiveField("name".to_string())]
    );
    assert_eq!(
        parse_json_path("$..*").unwrap(),
        vec![JsonSegment::RecursiveWildcard]
    );
    assert_eq!(
        parse_json_path("$..['a b']").unwrap(),
        vec![JsonSegment::RecursiveField("a b".to_string())]
    );
    // A recursive bracket holding an index contributes nothing.
    assert_eq!(parse_json_path("$..[0]").unwrap(), vec![]);
}

#[test]
fn filters_keep_path_operator_and_value() {
    assert_eq!(
        parse_json_path("$.data.users[?(@.role == 'admin')].name").unwrap(),
        vec![
            field("data"),
            field("users"),
            JsonSegment::Filter {
                path: vec!["role".to_string()],
                op: Some(FilterOp::Eq),
                value: Some(FilterVal::String("admin".to_string())),
            },
            field("name"),
        ]
    );
    assert_eq!(
        parse_json_path("$[?(@.a.b >= -2.5)]").unwrap(),
        vec![JsonSegment::Filter {
            path: vec!["a".to_string(), "b".to_string()],
            op: Some(FilterOp::Gte),
            value: Some(FilterVal::Number("-2.5".to_string())),
        }]
    );
    assert_eq!(
        parse_json_path("$[?(@.active)]").unwrap(),
        vec![JsonSegment::Filter {
            path: vec!["active".to_string()],
            op: None,
            value: None,
        }]
    );
    assert_eq!(
        parse_json_path("$[?(@.x != null)]").unwrap(),
        vec![JsonSegment::Filter {
            path: vec!["x".to_string()],
            op: Some(FilterOp::Neq),
            value: Some(FilterVal::Null),
        }]
    );
    assert_eq!(
        parse_json_path("$[?(@.name =~ \"^A\")]").unwrap(),
        vec![JsonSegment::Filter {
            path: vec!["name".to_string()],
            op: Some(FilterOp::RegexMatch),
            value: Some(FilterVal::String("^A".to_string())),
        }]
    );
    assert_eq!(
        parse_json_path("$[?(@.ok == true)]").unwrap(),
        vec![JsonSegment::Filter {
            path: vec!["ok".to_string()],
            op: Some(FilterOp::Eq),
            value: Some(FilterVal::Bool(true)),
        }]
    );
}

#[test]
fn slices_and_unions() {
    assert_eq!(
        parse_json_path("$.data.users[0:1].name").unwrap(),
        vec![
            field("data"),
            field("users"),
            JsonSegment::Slice { start: Some(0), end: Some(1), step: None },
            field("name"),
        ]
    );
    assert_eq!(
        parse_json_path("$[::2]").unwrap(),
        vec![JsonSegment::Slice { start: None, end: None, step: Some(2) }]
    );
    assert_eq!(
        parse_json_path("$[-2:]").unwrap(),
        vec![JsonSegment::Slice { start: Some(-2), end: None, step: None }]
    );
    assert_eq!(
        parse_json_path("$.data.users[0]['id', 'name']").unwrap(),
        vec![
            field("data"),
            field("users"),
            JsonSegment::Index(0),
            JsonSegment::Union(vec![field("id"), field("name")]),
        ]
    );
    assert_eq!(
        parse_json_path("$[1, 2]").unwrap(),
        vec![JsonSegment::Union(vec![JsonSegment::Index(1), JsonSegment::Index(2)])]
    );
}

#[test]
fn quoted_fields_and_out_of_range_indices() {
    assert_eq!(
        parse_json_path("$['first name']").unwrap(),
        vec![field("first name")]
    );
    assert_eq!(parse_json_path("$[\"x\"]").unwrap(), vec![field("x")]);
    // An index that does not fit an isize contributes nothing.
    assert_eq!(
        parse_json_path("$[99999999999999999999999]").unwrap(),
        vec![]
    );
}

#[test]
fn malformed_paths_are_refused_with_the_path_in_the_message() {
    for bad in ["$.", "$[", "$[0", "$.a b", "$[?(@.x ==)]", "$..", "1abc", "$['open]"] {
        assert_eq!(
            parse_json_path(bad),
            Err(format!("JSONPath parse error: {bad}"))
        );
    }
}

#[test]
fn unquote_strips_one_pair_of_matching_quotes() {
    assert_eq!(unquote_str("'abc'"), "abc");
    assert_eq!(unquote_str("\"a'b\""), "a'b");
    assert_eq!(unquote_str("'abc\""), "'abc\"");
    assert_eq!(unquote_str("'"), "'");
    assert_eq!(unquote_str("plain"), "plain");
}
