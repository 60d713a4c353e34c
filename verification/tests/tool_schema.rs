use burp_tools::json_value::{member_of, JsonValue};
use burp_tools::tool_schema::{
    has_nonempty_error, invalid_arguments_result, ref_target_of, refs_terminate, resolve_schema_ref,
    schema_hints,
    tool_error_details, tool_input_error,
};

fn text(s: &str) -> JsonValue {
    JsonValue::String(s.to_string())
}

fn obj(members: Vec<(&str, JsonValue)>) -> JsonValue {
    JsonValue::Object(members.into_iter().map(|(k, v)| (k.to_string(), v)).collect())
}

fn texts(items: &[&str]) -> JsonValue {
    JsonValue::Array(items.iter().map(|s| text(s)).collect())
}

fn text_list(v: Option<&JsonValue>) -> Vec<String> {
    match v {
        Some(JsonValue::Array(items)) => items
            .iter()
            .map(|i| match i {
                JsonValue::String(s) => s.clone(),
                other => panic!("not a text: {other:?}"),
            })
            .collect(),
        other => panic!("not an array: {other:?}"),
    }
}

fn text_of(v: Option<&JsonValue>) -> String {
    match v {
        Some(JsonValue::String(s)) => s.clone(),
        other => panic!("not a text: {other:?}"),
    }
}

fn strings(items: &[&str]) -> Vec<String> {
    items.iter().map(|s| s.to_string()).collect()
}

/// A settings-like schema: the root refers to its input type, whose
/// `action` property refers to an enum of actions.
fn settings_schema() -> JsonValue {
    obj(vec![
        ("$ref", text("#/$defs/SettingsActionInput")),
        (
            "$defs",
            obj(vec![
                (
                    "SettingsAction",
                    obj(vec![
                        ("type", text("string")),
                        ("enum", texts(&["get_proxy_settings", "register_proxy_rule"])),
                    ]),
                ),
                (
                    "SettingsActionInput",
                    obj(vec![
                        ("type", text("object")),
                        (
                            "properties",
                            obj(vec![
                                ("action", obj(vec![("$ref", text("#/$defs/SettingsAction"))])),
                                ("match", obj(vec![("type", text("string"))])),
                                ("url_contains", obj(vec![("type", text("string"))])),
                            ]),
                        ),
                        ("required", texts(&["action"])),
                    ]),
                ),
            ]),
        ),
    ])
}

fn alternatives_schema(key: &str) -> JsonValue {
    obj(vec![
        (
            key,
            JsonValue::Array(vec![
                obj(vec![
                    (
                        "properties",
                        obj(vec![
                            ("action", obj(vec![("const", text("scan"))])),
                            ("url", obj(vec![])),
                        ]),
                    ),
                    ("required", texts(&["url", "action"])),
                ]),
                obj(vec![("$ref", text("#/definitions/Stop"))]),
            ]),
        ),
        (
            "definitions",
            obj(vec![(
                "Stop",
                obj(vec![
                    (
                        "properties",
                        obj(vec![
                            ("action", obj(vec![("enum", texts(&["stop", "scan"]))])),
                            ("id", obj(vec![])),
                        ]),
                    ),
                    ("required", JsonValue::Array(vec![text("id"), JsonValue::Null, text("action")])),
                ]),
            )]),
        ),
    ])
}

#[test]
fn schema_hints_follow_references_to_the_action_enum() {
    let schema = settings_schema();
    let (required, accepted, actions) = schema_hints(&schema);
    assert_eq!(required, strings(&["action"]));
    assert_eq!(accepted, strings(&["action", "match", "url_contains"]));
    assert_eq!(actions, strings(&["get_proxy_settings", "register_proxy_rule"]));
}

#[test]
fn schema_hints_merge_alternatives() {
    for key in ["oneOf", "anyOf"] {
        let schema = alternatives_schema(key);
        let (required, accepted, actions) = schema_hints(&schema);
        assert_eq!(required, strings(&["action"]));
        assert_eq!(accepted, strings(&["action", "url", "id"]));
        assert_eq!(actions, strings(&["scan", "stop"]));
    }
    let plain = obj(vec![("oneOf", text("not a list")), ("required", texts(&["b", "a", "b"]))]);
    let (required, accepted, actions) = schema_hints(&plain);
    assert_eq!(required, strings(&["b", "a", "b"]));
    assert!(accepted.is_empty());
    assert!(actions.is_empty());
}

#[test]
fn required_fields_of_alternatives_are_sorted() {
    let schema = obj(vec![(
        "anyOf",
        JsonValue::Array(vec![
            obj(vec![("required", texts(&["zeta", "alpha", "mid"]))]),
            obj(vec![("required", texts(&["mid", "zeta", "alpha", "other"]))]),
        ]),
    )]);
    let (required, _, _) = schema_hints(&schema);
    assert_eq!(required, strings(&["alpha", "mid", "zeta"]));
}

#[test]
fn references_resolve_through_definitions() {
    let schema = settings_schema();
    let resolved = resolve_schema_ref(&schema, &schema);
    assert_eq!(text_of(member_of(resolved, "type")), "object");
    let dangling = obj(vec![("$ref", text("#/$defs/Missing"))]);
    let same = resolve_schema_ref(&dangling, &schema);
    assert_eq!(text_of(member_of(same, "$ref")), "#/$defs/Missing");
    assert!(ref_target_of(&dangling, &schema).is_none());
    let elsewhere = obj(vec![("$ref", text("https://example.test/schema"))]);
    assert!(ref_target_of(&elsewhere, &schema).is_none());
}

#[test]
fn nonempty_errors_are_recognised() {
    assert!(has_nonempty_error(&obj(vec![("error", text("boom"))])));
    assert!(has_nonempty_error(&obj(vec![("error", obj(vec![]))])));
    assert!(!has_nonempty_error(&obj(vec![("error", text(""))])));
    assert!(!has_nonempty_error(&obj(vec![("error", JsonValue::Null)])));
    assert!(!has_nonempty_error(&obj(vec![("ok", JsonValue::Bool(true))])));
    assert!(!has_nonempty_error(&text("error")));
}

#[test]
fn invalid_arguments_list_what_the_schema_accepts() {
    let schema = settings_schema();
    let result = invalid_arguments_result(&schema, "burp_settings", &strings(&["actoin"]), "bad action".to_owned());
    assert_eq!(text_of(member_of(&result, "error")), "invalid_tool_arguments");
    assert_eq!(text_of(member_of(&result, "message")), "bad action");
    assert_eq!(text_of(member_of(&result, "tool")), "burp_settings");
    assert_eq!(text_list(member_of(&result, "received_fields")), strings(&["actoin"]));
    assert_eq!(text_list(member_of(&result, "required_fields")), strings(&["action"]));
    assert!(text_list(member_of(&result, "accepted_fields")).contains(&"match".to_owned()));
    assert!(text_list(member_of(&result, "valid_actions")).contains(&"register_proxy_rule".to_owned()));
    assert!(text_of(member_of(&result, "correction")).starts_with("Retry the same tool"));
}

#[test]
fn error_answers_gain_what_they_lack() {
    let schema = settings_schema();
    let answer = obj(vec![("error", text("boom")), ("tool", text("custom")), ("status", JsonValue::Bool(false))]);
    let detailed = tool_error_details(answer, &schema, "burp_settings");
    assert_eq!(text_of(member_of(&detailed, "tool")), "custom");
    assert_eq!(text_of(member_of(&detailed, "message")), "boom");
    assert_eq!(text_of(member_of(&detailed, "error")), "boom");
    assert!(matches!(member_of(&detailed, "status"), Some(JsonValue::Bool(false))));
    assert_eq!(text_list(member_of(&detailed, "required_fields")), strings(&["action"]));
    assert_eq!(
        text_list(member_of(&detailed, "valid_actions")),
        strings(&["get_proxy_settings", "register_proxy_rule"])
    );
    assert!(text_of(member_of(&detailed, "correction")).starts_with("Use message"));

    let plain = obj(vec![("properties", obj(vec![("url", obj(vec![]))]))]);
    let answer = obj(vec![("error", obj(vec![("code", text("E1"))])), ("message", text("kept"))]);
    let detailed = tool_error_details(answer, &plain, "burp_http");
    assert_eq!(text_of(member_of(&detailed, "tool")), "burp_http");
    assert_eq!(text_of(member_of(&detailed, "message")), "kept");
    assert_eq!(text_list(member_of(&detailed, "accepted_fields")), strings(&["url"]));
    assert!(member_of(&detailed, "valid_actions").is_none());

    let no_text = obj(vec![("error", JsonValue::Bool(true))]);
    let detailed = tool_error_details(no_text, &plain, "burp_http");
    assert!(member_of(&detailed, "message").is_none());
}

#[test]
fn input_errors_name_tool_and_action() {
    let e = tool_input_error("burp_settings", "register_proxy_rule", "`url_contains` is required".to_owned());
    match &e {
        JsonValue::Object(members) => {
            let keys: Vec<&str> = members.iter().map(|(k, _)| k.as_str()).collect();
            assert_eq!(keys, vec!["error", "message", "tool", "action", "correction"]);
        }
        other => panic!("not an object: {other:?}"),
    }
    assert_eq!(text_of(member_of(&e, "error")), "invalid_tool_arguments");
    assert_eq!(text_of(member_of(&e, "action")), "register_proxy_rule");
    assert_eq!(
        text_of(member_of(&e, "correction")),
        "Correct the arguments described by message and retry the same tool call."
    );
}

#[test]
fn reference_cycles_are_detected() {
    assert!(refs_terminate(&settings_schema()));
    assert!(refs_terminate(&alternatives_schema("oneOf")));
    assert!(refs_terminate(&obj(vec![("$ref", text("#/$defs/Missing"))])));
    let cyclic = obj(vec![
        ("$ref", text("#/$defs/A")),
        (
            "$defs",
            obj(vec![
                ("A", obj(vec![("$ref", text("#/definitions/B"))])),
            ]),
        ),
        ("definitions", obj(vec![("B", obj(vec![("$ref", text("#/$defs/A"))]))])),
    ]);
    assert!(!refs_terminate(&cyclic));
    let unused_loop = obj(vec![(
        "$defs",
        obj(vec![("Self", obj(vec![("$ref", text("#/$defs/Self"))])), ("Ok", obj(vec![]))]),
    )]);
    assert!(!refs_terminate(&unused_loop));
}
