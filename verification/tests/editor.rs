use burp_tools::editor::{editor_patch_operation, PatchOperation};
use burp_tools::suite::EditorPatchInput;

fn patch(mode: Option<&str>) -> EditorPatchInput {
    EditorPatchInput {
        token: "t".to_string(),
        expected_sha256: "00".to_string(),
        mode: mode.map(str::to_string),
        text: None,
        payload_base64: None,
        selection_replacement: None,
        header_name: None,
        header_value: None,
        header_remove: None,
        regex_pattern: None,
        regex_replacement: None,
        regex_replace_all: None,
        regex_case_insensitive: None,
        json_path: None,
        json_value: None,
        param_name: None,
        param_value: None,
        param_remove: None,
        param_type: None,
    }
}

#[test]
fn patch_modes_choose_their_operation() {
    let mut input = patch(Some("replace_selection"));
    input.text = Some("fallback".to_string());
    match editor_patch_operation(input).unwrap() {
        PatchOperation::ReplaceSelection(t) => assert_eq!(t, "fallback"),
        other => panic!("unexpected {other:?}"),
    }
    let mut input = patch(Some("set_header"));
    input.header_name = Some("X-A".to_string());
    match editor_patch_operation(input).unwrap() {
        PatchOperation::HeaderPatch(h) => {
            assert_eq!(h.name, "X-A");
            assert_eq!(h.value, "");
            assert!(!h.remove);
        }
        other => panic!("unexpected {other:?}"),
    }
    let mut input = patch(Some("json_patch"));
    input.json_value = Some("1".to_string());
    input.text = Some("2".to_string());
    match editor_patch_operation(input).unwrap() {
        PatchOperation::JsonPatch(j) => assert_eq!(j.value_json, "1"),
        other => panic!("unexpected {other:?}"),
    }
    match editor_patch_operation(patch(Some("regex_replace"))).unwrap() {
        PatchOperation::RegexPatch(x) => assert!(!x.replace_all && !x.case_insensitive),
        other => panic!("unexpected {other:?}"),
    }
}

#[test]
fn replacing_everything_decodes_base64_payloads() {
    let mut input = patch(None);
    input.payload_base64 = Some("aGk=".to_string());
    match editor_patch_operation(input).unwrap() {
        PatchOperation::ReplaceAllPayload(b) => assert_eq!(b, b"hi".to_vec()),
        other => panic!("unexpected {other:?}"),
    }
    let mut input = patch(None);
    input.text = Some("body".to_string());
    match editor_patch_operation(input).unwrap() {
        PatchOperation::ReplaceAllText(t) => assert_eq!(t, "body"),
        other => panic!("unexpected {other:?}"),
    }
    let mut input = patch(Some("replace_all"));
    input.payload_base64 = Some("!!".to_string());
    let err = editor_patch_operation(input).err().unwrap();
    assert!(err.starts_with("invalid base64: "), "{err}");
    assert!(err.len() > "invalid base64: ".len());
}
