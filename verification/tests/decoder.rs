use burp_tools::decoder::{
    plan_decoder, utility_value, DataValue, DecoderInput, DecoderPlan, DecoderStepInput,
    UtilityValueInput,
};
use burp_tools::json_value::JsonValue;

fn request(input: UtilityValueInput) -> DecoderInput {
    DecoderInput {
        input,
        operation: None,
        args: JsonValue::Null,
        query: None,
        describe: None,
        magic: false,
        steps: Vec::new(),
    }
}

fn text_input(s: &str) -> UtilityValueInput {
    UtilityValueInput::Text { value: s.to_string() }
}

#[test]
fn inputs_become_values() {
    assert!(matches!(utility_value(text_input("hi")), Ok(DataValue::Text(t)) if t == "hi"));
    assert!(matches!(
        utility_value(UtilityValueInput::Bytes { base64: "aGk=".to_string() }),
        Ok(DataValue::Bytes(b)) if b == b"hi".to_vec()
    ));
    match utility_value(UtilityValueInput::Bytes { base64: "a$b".to_string() }) {
        Err(e) => assert!(e.starts_with("invalid base64 input: "), "{e}"),
        other => panic!("unexpected {other:?}"),
    }
    assert!(matches!(
        utility_value(UtilityValueInput::Json { value: JsonValue::Bool(true) }),
        Ok(DataValue::Json(JsonValue::Bool(true)))
    ));
}

#[test]
fn queries_and_descriptions_come_first() {
    let mut r = request(UtilityValueInput::Bytes { base64: "not base64!".to_string() });
    r.query = Some("base64".to_string());
    r.describe = Some("hex.encode".to_string());
    assert!(matches!(plan_decoder(r), DecoderPlan::Search(q) if q == "base64"));
    let mut r = request(UtilityValueInput::Bytes { base64: "not base64!".to_string() });
    r.describe = Some("hex.encode".to_string());
    assert!(matches!(plan_decoder(r), DecoderPlan::Describe(d) if d == "hex.encode"));
    let r = request(UtilityValueInput::Bytes { base64: "not base64!".to_string() });
    assert!(matches!(plan_decoder(r), DecoderPlan::Refused(e) if e.starts_with("invalid base64 input: ")));
}

#[test]
fn operations_and_recipes_use_dotted_names() {
    let mut r = request(text_input("abc"));
    r.operation = Some("base64_encode".to_string());
    r.args = JsonValue::Number("3".to_string());
    match plan_decoder(r) {
        DecoderPlan::Run { operation, value, args } => {
            assert_eq!(operation, "base64.encode");
            assert!(matches!(value, DataValue::Text(t) if t == "abc"));
            assert!(matches!(args, JsonValue::Number(n) if n == "3"));
        }
        other => panic!("unexpected {other:?}"),
    }
    let mut r = request(text_input("abc"));
    r.steps = vec![
        DecoderStepInput { op: "url_encode".to_string(), args: JsonValue::Null },
        DecoderStepInput { op: "rot13".to_string(), args: JsonValue::Bool(false) },
    ];
    match plan_decoder(r) {
        DecoderPlan::Recipe { steps, .. } => {
            assert_eq!(steps.len(), 2);
            assert_eq!(steps[0].0, "url.encode");
            assert_eq!(steps[1].0, "rot13");
            assert!(matches!(steps[1].1, JsonValue::Bool(false)));
        }
        other => panic!("unexpected {other:?}"),
    }
}

#[test]
fn magic_and_conflicting_requests() {
    let mut r = request(text_input("abc"));
    r.magic = true;
    r.operation = Some("hex_encode".to_string());
    assert!(matches!(plan_decoder(r), DecoderPlan::Magic(DataValue::Text(_))));
    let mut r = request(text_input("abc"));
    r.operation = Some("hex_encode".to_string());
    r.steps = vec![DecoderStepInput { op: "hex_decode".to_string(), args: JsonValue::Null }];
    assert!(matches!(plan_decoder(r), DecoderPlan::Refused(e) if e == "provide either operation or steps, not both"));
    let r = request(text_input("abc"));
    assert!(matches!(
        plan_decoder(r),
        DecoderPlan::Refused(e) if e == "provide an operation, steps, query, describe, or magic mode"
    ));
}
