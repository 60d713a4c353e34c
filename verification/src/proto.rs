//! The messages exchanged with the Burp extension, as plain values.
use crate::inputs::InterceptActionInput;
use vstd::prelude::*;

verus! {

#[derive(Debug, Clone)]
pub struct HttpHeaderEntry {
    pub name: String,
    pub value: String,
}

#[derive(Debug, Clone)]
pub struct SendRequestRequest {
    pub method: String,
    pub url: String,
    pub body: Vec<u8>,
    pub headers: Vec<HttpHeaderEntry>,
}

#[derive(Debug, Clone)]
pub struct SendRequestResponse {
    pub request: Vec<u8>,
    pub response: Vec<u8>,
    pub status: u32,
    pub has_response: bool,
}

#[derive(Debug, Clone)]
pub struct ProxyInterceptRule {
    pub enabled: bool,
    pub boolean_operator: String,
    pub match_type: String,
    pub match_relationship: String,
    pub match_condition: String,
}

#[derive(Debug, Clone)]
pub struct SendToRepeaterRequest {
    pub request: Vec<u8>,
    pub host: String,
    pub port: u32,
    pub https: bool,
    pub tab_name: String,
}

#[derive(Debug, Clone)]
pub struct PageRequest {
    pub limit: u32,
    pub cursor: String,
}

#[derive(Debug, Clone)]
pub struct ProxyHistoryRequest {
    pub page: Option<PageRequest>,
    pub url_filter: String,
    pub method_filter: String,
    pub status_filter: Option<u32>,
    pub has_notes: bool,
    pub color: String,
    pub after_id: Option<u64>,
}

#[derive(Debug, Clone)]
pub struct UpsertScanConfigurationRequest {
    pub id: String,
    pub name: String,
    pub scan_type: String,
    pub audit_type: String,
    pub include_out_of_scope: bool,
    pub timeout_seconds: u64,
    pub stable_seconds: u64,
    pub resource_pool_id: String,
}

#[derive(Debug, Clone)]
pub struct UpsertScanResourcePoolRequest {
    pub id: String,
    pub name: String,
    pub kind: String,
    pub existing_pool_name: String,
    pub concurrent_request_limit: u32,
    pub throttle_millis: u64,
    pub max_retries: u32,
}

#[derive(Debug, Clone)]
pub struct UpsertSessionRuleRequest {
    pub id: String,
    pub find: String,
    pub replacement: String,
    pub description: String,
    pub action_type: String,
    pub header_name: String,
    pub parameter_name: String,
    pub macro_description: String,
    pub url_contains: String,
    pub tools: Vec<String>,
    pub enabled: bool,
}

#[derive(Debug, Clone)]
pub struct MacroParameter {
    pub name: String,
    pub original_value: String,
    pub parameter_handling: String,
    pub preset_value: String,
    pub parameter_type: String,
}

#[derive(Debug, Clone)]
pub struct MacroItem {
    pub request: String,
    pub method: String,
    pub url: String,
    pub response: String,
    pub status_code: u32,
    pub cookies_received: String,
    pub request_parameters: Vec<MacroParameter>,
    pub custom_parameters: Vec<String>,
}

#[derive(Debug, Clone)]
pub struct MacroDefinition {
    pub description: String,
    pub serial_number: u64,
    pub items: Vec<MacroItem>,
}

#[derive(Debug, Clone)]
pub struct ProxyInterceptConfigRequest {
    pub master_intercept_enabled: Option<bool>,
    pub request_do_intercept: Option<bool>,
    pub request_auto_content_length: Option<bool>,
    pub response_do_intercept: Option<bool>,
    pub response_auto_content_length: Option<bool>,
    pub websocket_client_to_server: Option<bool>,
    pub websocket_server_to_client: Option<bool>,
    pub websocket_in_scope_only: Option<bool>,
    pub request_rules: Vec<ProxyInterceptRule>,
    pub response_rules: Vec<ProxyInterceptRule>,
    pub replace_request_rules: bool,
    pub replace_response_rules: bool,
    pub response_unhide_hidden_fields: Option<bool>,
    pub response_enable_disabled_fields: Option<bool>,
    pub response_remove_input_length_limits: Option<bool>,
    pub response_remove_javascript_validation: Option<bool>,
    pub response_remove_all_javascript: Option<bool>,
    pub request_fix_missing_new_lines: Option<bool>,
}

/// What to do with an intercepted message, and its replacement (empty for
/// none).
#[derive(Debug, Clone)]
pub struct ControlInterceptedMessageRequest {
    pub id: u64,
    pub action: InterceptActionInput,
    pub message: Vec<u8>,
}

/// What to do with an intercepted WebSocket message, and whether its payload
/// is replaced.
#[derive(Debug, Clone)]
pub struct ControlInterceptedWebSocketMessageRequest {
    pub id: u64,
    pub action: InterceptActionInput,
    pub payload: Vec<u8>,
    pub replace_payload: bool,
}

#[derive(Debug, Clone)]
pub struct RegisterProxyRuleRequest {
    pub id: String,
    pub url_contains: String,
    pub phase: String,
    pub action: String,
    pub match_text: String,
    pub replacement: String,
    pub header_name: String,
    pub header_value: String,
    pub enabled: bool,
}

#[derive(Debug, Clone)]
pub struct StartAuditRequest {
    pub url: String,
    pub audit_type: String,
    pub scan_configuration_id: String,
    pub resource_pool_id: String,
    pub timeout_seconds: u64,
    pub stable_seconds: u64,
    pub include_out_of_scope: bool,
}

#[derive(Debug, Clone)]
pub struct TestBCheckRequest {
    pub script: String,
    pub request: Vec<u8>,
    pub response: Vec<u8>,
    pub host: String,
    pub port: u32,
    pub https: bool,
}

} // verus!
