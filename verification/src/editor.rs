//! The patch an editor-lease request applies.
use crate::suite::EditorPatchInput;
use crate::text::{chars_eq, chars_of, string_from_chars};
use crate::css_escape::concat_chars;
use base64::Engine;
use vstd::prelude::*;

verus! {

/// What standard Base64 (with padding) decodes `s` to, or the text of the
/// decoding error.
pub uninterp spec fn base64_standard_decode(s: Seq<char>) -> Result<Seq<u8>, Seq<char>>;

/// `base64::engine::general_purpose::STANDARD.decode`, its error turned
/// into its display text.  Both outcomes are named, not stated.
#[verifier::external_body]
pub(crate) fn base64_decode(text: &str) -> (r: Result<Vec<u8>, String>)
    ensures
        match (r, base64_standard_decode(text@)) {
            (Ok(b), Ok(c)) => b@ == c,
            (Err(e), Err(m)) => e@ == m,
            _ => false,
        },
{
    match base64::engine::general_purpose::STANDARD.decode(text) {
        Ok(bytes) => Ok(bytes),
        Err(error) => Err(error.to_string()),
    }
}

#[derive(Debug, Clone)]
pub struct HeaderPatch {
    pub name: String,
    pub value: String,
    pub remove: bool,
}

#[derive(Debug, Clone)]
pub struct JsonPatch {
    pub json_path: String,
    pub value_json: String,
}

#[derive(Debug, Clone)]
pub struct ParamPatch {
    pub name: String,
    pub value: String,
    pub remove: bool,
    pub param_type: Option<String>,
}

#[derive(Debug, Clone)]
pub struct RegexPatch {
    pub pattern: String,
    pub replacement: String,
    pub replace_all: bool,
    pub case_insensitive: bool,
}

/// A change to the message held by an editor lease.
#[derive(Debug, Clone)]
pub enum PatchOperation {
    ReplaceSelection(String),
    HeaderPatch(HeaderPatch),
    JsonPatch(JsonPatch),
    ParamPatch(ParamPatch),
    RegexPatch(RegexPatch),
    ReplaceAllPayload(Vec<u8>),
    ReplaceAllText(String),
}

pub open spec fn text_or_empty(o: Option<String>) -> Seq<char> {
    match o {
        Some(s) => s@,
        None => Seq::empty(),
    }
}

/// The first text given.
pub open spec fn first_text(a: Option<String>, b: Option<String>) -> Seq<char> {
    match a {
        Some(s) => s@,
        None => text_or_empty(b),
    }
}

pub open spec fn flag(o: Option<bool>) -> bool {
    match o {
        Some(b) => b,
        None => false,
    }
}

/// The patch mode: `replace_all` unless given.
pub open spec fn patch_mode(i: EditorPatchInput) -> Seq<char> {
    match i.mode {
        Some(m) => m@,
        None => "replace_all"@,
    }
}

/// `op` is the patch that `i` asks for: by its mode (`replace_selection`,
/// `set_header`, `json_patch`, `set_param`, `regex` or `regex_replace`),
/// missing texts empty and flags off; any other mode replaces the whole
/// message with the decoded Base64 payload when one is given, else with the
/// text.
pub open spec fn patch_ok(i: EditorPatchInput, op: PatchOperation) -> bool {
    let m = patch_mode(i);
    if m == "replace_selection"@ {
        op matches PatchOperation::ReplaceSelection(t) && t@ == first_text(
            i.selection_replacement,
            i.text,
        )
    } else if m == "set_header"@ {
        op matches PatchOperation::HeaderPatch(h) && h.name@ == text_or_empty(i.header_name)
            && h.value@ == text_or_empty(i.header_value) && h.remove == flag(i.header_remove)
    } else if m == "json_patch"@ {
        op matches PatchOperation::JsonPatch(j) && j.json_path@ == text_or_empty(i.json_path)
            && j.value_json@ == first_text(i.json_value, i.text)
    } else if m == "set_param"@ {
        op matches PatchOperation::ParamPatch(p) && p.name@ == text_or_empty(i.param_name)
            && p.value@ == text_or_empty(i.param_value) && p.remove == flag(i.param_remove)
            && p.param_type == i.param_type
    } else if m == "regex"@ || m == "regex_replace"@ {
        op matches PatchOperation::RegexPatch(x) && x.pattern@ == text_or_empty(i.regex_pattern)
            && x.replacement@ == text_or_empty(i.regex_replacement) && x.replace_all == flag(
            i.regex_replace_all,
        ) && x.case_insensitive == flag(i.regex_case_insensitive)
    } else {
        match i.payload_base64 {
            Some(b) => base64_standard_decode(b@) matches Ok(bytes) && op matches PatchOperation::ReplaceAllPayload(
                v,
            ) && v@ == bytes,
            None => op matches PatchOperation::ReplaceAllText(t) && t@ == text_or_empty(i.text),
        }
    }
}

fn or_empty(o: Option<String>) -> (r: String)
    ensures
        r@ == text_or_empty(o),
{
    match o {
        Some(s) => s,
        None => string_from_chars(Vec::<char>::new().as_slice()),
    }
}

fn first_of(a: Option<String>, b: Option<String>) -> (r: String)
    ensures
        r@ == first_text(a, b),
{
    match a {
        Some(s) => s,
        None => or_empty(b),
    }
}

fn is_mode(m: &str, name: &str) -> (r: bool)
    ensures
        r == (m@ == name@),
{
    chars_eq(chars_of(m).as_slice(), chars_of(name).as_slice())
}

/// The patch an editor request asks for (see `patch_ok`); a payload that is
/// not Base64 is refused with `invalid base64: ` and the decoder's message.
pub fn editor_patch_operation(input: EditorPatchInput) -> (r: Result<PatchOperation, String>)
    ensures
        match r {
            Ok(op) => patch_ok(input, op),
            Err(e) => {
                &&& !(patch_mode(input) == "replace_selection"@ || patch_mode(input) == "set_header"@
                    || patch_mode(input) == "json_patch"@ || patch_mode(input) == "set_param"@
                    || patch_mode(input) == "regex"@ || patch_mode(input) == "regex_replace"@)
                &&& input.payload_base64 is Some
                &&& base64_standard_decode(input.payload_base64->0@) matches Err(m)
                &&& e@ == "invalid base64: "@ + m
            },
        },
        !(patch_mode(input) == "replace_selection"@ || patch_mode(input) == "set_header"@
            || patch_mode(input) == "json_patch"@ || patch_mode(input) == "set_param"@
            || patch_mode(input) == "regex"@ || patch_mode(input) == "regex_replace"@)
            && input.payload_base64 is Some && base64_standard_decode(input.payload_base64->0@) is Err
            ==> r is Err,
{
    let mode = match &input.mode {
        Some(m) => string_from_chars(chars_of(m.as_str()).as_slice()),
        None => string_from_chars(chars_of("replace_all").as_slice()),
    };
    let m = mode.as_str();
    if is_mode(m, "replace_selection") {
        Ok(PatchOperation::ReplaceSelection(first_of(input.selection_replacement, input.text)))
    } else if is_mode(m, "set_header") {
        Ok(
            PatchOperation::HeaderPatch(
                HeaderPatch {
                    name: or_empty(input.header_name),
                    value: or_empty(input.header_value),
                    remove: match input.header_remove {
                        Some(b) => b,
                        None => false,
                    },
                },
            ),
        )
    } else if is_mode(m, "json_patch") {
        Ok(
            PatchOperation::JsonPatch(
                JsonPatch {
                    json_path: or_empty(input.json_path),
                    value_json: first_of(input.json_value, input.text),
                },
            ),
        )
    } else if is_mode(m, "set_param") {
        Ok(
            PatchOperation::ParamPatch(
                ParamPatch {
                    name: or_empty(input.param_name),
                    value: or_empty(input.param_value),
                    remove: match input.param_remove {
                        Some(b) => b,
                        None => false,
                    },
                    param_type: input.param_type,
                },
            ),
        )
    } else if is_mode(m, "regex") || is_mode(m, "regex_replace") {
        Ok(
            PatchOperation::RegexPatch(
                RegexPatch {
                    pattern: or_empty(input.regex_pattern),
                    replacement: or_empty(input.regex_replacement),
                    replace_all: match input.regex_replace_all {
                        Some(b) => b,
                        None => false,
                    },
                    case_insensitive: match input.regex_case_insensitive {
                        Some(b) => b,
                        None => false,
                    },
                },
            ),
        )
    } else {
        match input.payload_base64 {
            Some(b64) => match base64_decode(b64.as_str()) {
                Ok(bytes) => Ok(PatchOperation::ReplaceAllPayload(bytes)),
                Err(message) => {
                    let v = concat_chars(chars_of("invalid base64: "), chars_of(message.as_str()).as_slice());
                    Err(string_from_chars(v.as_slice()))
                },
            },
            None => Ok(PatchOperation::ReplaceAllText(or_empty(input.text))),
        }
    }
}

} // verus!
