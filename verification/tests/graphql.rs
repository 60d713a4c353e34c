use burp_tools::graphql::{
    graphql_batch_supported, graphql_checks, graphql_has_introspection, graphql_has_suggestions,
    graphql_issues, graphql_status_check,
};
use burp_tools::json_value::JsonValue;

fn obj(members: Vec<(&str, JsonValue)>) -> JsonValue {
    JsonValue::Object(members.into_iter().map(|(k, v)| (k.to_string(), v)).collect())
}

fn s(text: &str) -> JsonValue {
    JsonValue::String(text.to_string())
}

fn typename_result() -> JsonValue {
    obj(vec![("data", obj(vec![("__typename", s("Query"))]))])
}

#[test]
fn graphql_evidence_requires_structural_json_shapes() {
    let misleading = obj(vec![("message", s("__schema types Did you mean __typename"))]);
    assert!(!graphql_has_introspection(&misleading));
    assert!(!graphql_has_suggestions(&misleading));
    assert!(!graphql_batch_supported(&misleading));

    assert!(graphql_has_introspection(&obj(vec![(
        "data",
        obj(vec![("__schema", obj(vec![("types", JsonValue::Array(vec![]))]))])
    )])));
    assert!(graphql_has_suggestions(&obj(vec![(
        "errors",
        JsonValue::Array(vec![obj(vec![("message", s("Did you mean 'user'?"))])])
    )])));
    assert!(graphql_batch_supported(&JsonValue::Array(vec![
        typename_result(),
        typename_result(),
        typename_result()
    ])));
}

#[test]
fn suggestions_may_come_as_arrays() {
    let direct = obj(vec![(
        "errors",
        JsonValue::Array(vec![
            obj(vec![("message", s("unknown field"))]),
            obj(vec![("suggestions", JsonValue::Array(vec![s("user")]))]),
        ]),
    )]);
    assert!(graphql_has_suggestions(&direct));
    let nested = obj(vec![(
        "errors",
        JsonValue::Array(vec![obj(vec![(
            "extensions",
            obj(vec![("suggestions", JsonValue::Array(vec![s("user")]))]),
        )])]),
    )]);
    assert!(graphql_has_suggestions(&nested));
    let empty = obj(vec![(
        "errors",
        JsonValue::Array(vec![obj(vec![("suggestions", JsonValue::Array(vec![]))])]),
    )]);
    assert!(!graphql_has_suggestions(&empty));
}

#[test]
fn batching_needs_exactly_three_typed_results() {
    assert!(!graphql_batch_supported(&JsonValue::Array(vec![
        typename_result(),
        typename_result()
    ])));
    assert!(!graphql_batch_supported(&JsonValue::Array(vec![
        typename_result(),
        typename_result(),
        obj(vec![("data", obj(vec![("__typename", JsonValue::Null)]))])
    ])));
    // The types are not a list.
    assert!(!graphql_has_introspection(&obj(vec![(
        "data",
        obj(vec![("__schema", obj(vec![("types", s("none"))]))])
    )])));
}

#[test]
fn checks_statuses_and_issues() {
    assert_eq!(graphql_checks(None, None, None), Ok((true, true, true)));
    assert_eq!(graphql_checks(Some(false), None, Some(false)), Ok((false, true, false)));
    assert_eq!(
        graphql_checks(Some(false), Some(false), Some(false)),
        Err("at least one GraphQL audit check must be enabled".to_string())
    );
    assert!(graphql_status_check(499, "batching").is_ok());
    assert_eq!(
        graphql_status_check(502, "batching"),
        Err("GraphQL batching probe returned server error HTTP 502".to_string())
    );
    assert_eq!(
        graphql_issues(true, false, true),
        vec![
            "GraphQL introspection is enabled and exposed the schema",
            "GraphQL array batching is supported and may amplify rate-limit bypasses"
        ]
    );
    assert!(graphql_issues(false, false, false).is_empty());
}
