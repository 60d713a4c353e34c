//! Verified request/response processing helpers for a Burp Suite tool server:
//! CSS selection over HTML, payload filtering, HTTP message diffing and the
//! decision logic of the security workflows.
pub mod text;
pub mod html;
pub mod css;
pub mod css_escape;
pub mod css_grammar;
pub mod css_parse;
pub mod css_match;
pub mod css_extract;
pub mod http_text;
pub mod payload;
pub mod inputs;
pub mod suite;
pub mod consolidated;
pub mod workflow_types;
pub mod diff_types;
pub mod json_path;
pub mod json_grammar;
pub mod json_select;
pub mod jwt;
pub mod probes;
pub mod json_value;
pub mod graphql;
pub mod outputs;
pub mod dispatch;
pub mod editor;
pub mod daemon;
pub mod diff;
pub mod workflows;
pub mod proto;
pub mod urls;
pub mod tools;
pub mod request_text;
pub mod sync;
pub mod tool_schema;
pub mod decoder;
pub mod requests;
pub mod client_errors;
pub mod response_matches;
