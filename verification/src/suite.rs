use std::collections::HashMap;
use crate::inputs::{MacroItemInput, MacroParameterInput, ProxyInterceptRuleInput, SendRequestInput, ProxyInterceptRuleBooleanOperatorInput, ProxyRuleActionInput, ProxyRulePhaseInput};
use vstd::prelude::*;

verus! {

#[derive(Debug, Clone, Copy, PartialEq, Eq, Structural)]
pub enum HttpAction {
    Send,
    SendBatch,
    Convert,
    Export,
    SendToRepeater,
}

#[derive(Debug, Clone, Copy, PartialEq, Eq, Structural)]
pub enum SettingsAction {
    GetProxySettings,
    UpdateProxySettings,
    ExportConfig,
    InspectConfig,
    ImportConfig,
    InterceptState,
    SetInterceptState,
    ProxyInterceptConfig,
    UpdateProxyInterceptConfig,
    RegisterHttpHandler,
    RemoveHttpHandler,
    RegisterProxyRule,
    ListProxyRules,
    RemoveProxyRule,
}

#[derive(Debug, Clone)]
pub struct ProxyActionInput {
    /// One of: history, detail, annotate, highlight, extract, websocket_history.
    pub action: String,
    pub limit: Option<u32>,
    pub offset: Option<u32>,
    pub cursor: Option<String>,
    pub url_filter: Option<String>,
    pub method_filter: Option<String>,
    pub status_filter: Option<u32>,
    pub has_notes: Option<bool>,
    pub color: Option<String>,
    pub include_bodies: Option<bool>,
    pub headers_only: Option<bool>,
    pub extract_css: Option<String>,
    pub extract_json: Option<String>,
    pub max_body_length: Option<usize>,
    pub index: Option<u32>,
    pub notes: Option<String>,
    pub regex: Option<String>,
}

#[derive(Debug, Clone)]
pub struct HttpActionInput {
    pub action: HttpAction,
    pub method: Option<String>,
    pub url: Option<String>,
    pub body: Option<String>,
    pub headers: Option<HashMap<String, String>>,
    pub headers_only: Option<bool>,
    pub extract_css: Option<String>,
    pub extract_json: Option<String>,
    pub max_body_length: Option<usize>,
    pub requests: Option<Vec<SendRequestInput>>,
    pub request: Option<String>,
    pub convert_to: Option<String>,
    pub host: Option<String>,
    pub port: Option<u32>,
    pub https: Option<bool>,
    pub format: Option<String>,
    pub tab_name: Option<String>,
}

#[derive(Debug, Clone)]
pub struct TargetActionInput {
    /// One of: get_scope, add_scope, remove_scope, info, sitemap.
    pub action: String,
    pub url: Option<String>,
    pub url_prefix: Option<String>,
    pub limit: Option<u32>,
    pub cursor: Option<String>,
}

#[derive(Debug, Clone)]
pub struct ScannerActionInput {
    /// One of: start_audit, start_crawl, stop, list_issues, issue_detail, update_issue, report, test_bcheck, remove.
    pub action: String,
    pub url: Option<String>,
    pub audit_type: Option<String>,
    pub seed_urls: Option<Vec<String>>,
    pub scan_configuration_id: Option<String>,
    pub resource_pool_id: Option<String>,
    pub timeout_seconds: Option<u64>,
    pub stable_seconds: Option<u64>,
    pub include_out_of_scope: Option<bool>,
    pub job_id: Option<String>,
    pub limit: Option<u32>,
    pub offset: Option<u32>,
    pub cursor: Option<String>,
    pub index: Option<u32>,
    pub status: Option<String>,
    pub severity: Option<String>,
    pub confidence: Option<String>,
    pub notes: Option<String>,
    pub format: Option<String>,
    pub path: Option<String>,
    pub issue_indexes: Option<Vec<u32>>,
    pub script: Option<String>,
    pub request: Option<String>,
    pub response: Option<String>,
    pub host: Option<String>,
    pub port: Option<u32>,
    pub https: Option<bool>,
}

#[derive(Debug, Clone)]
pub struct ScanConfigActionInput {
    /// One of: list_configs, get_config, upsert_config, delete_config, list_pools, get_pool, upsert_pool, delete_pool.
    pub action: String,
    pub id: Option<String>,
    pub name: Option<String>,
    pub scan_type: Option<String>,
    pub audit_type: Option<String>,
    pub include_out_of_scope: Option<bool>,
    pub timeout_seconds: Option<u64>,
    pub stable_seconds: Option<u64>,
    pub resource_pool_id: Option<String>,
    pub kind: Option<String>,
    pub existing_pool_name: Option<String>,
    pub concurrent_request_limit: Option<u32>,
    pub throttle_millis: Option<u64>,
    pub max_retries: Option<u32>,
}

#[derive(Debug, Clone)]
pub struct FuzzerActionInput {
    /// One of: fuzz, race, send_to_intruder, list_payloads, get_payload_list, create_payload_list, import_payload_list, upsert_payloads, delete_payload_list, register_payload_processor, list_payload_processors, remove_payload_processor, register_payload_generator, list_payload_generators, remove_payload_generator.
    pub action: String,
    pub template: Option<String>,
    pub host: Option<String>,
    pub port: Option<u32>,
    pub https: Option<bool>,
    pub marker: Option<String>,
    pub wordlist: Option<Vec<String>>,
    pub payload_list_id: Option<String>,
    pub payload_offset: Option<u32>,
    pub attack_mode: Option<String>,
    pub markers: Option<HashMap<String, Vec<String>>>,
    pub request: Option<String>,
    pub count: Option<u32>,
    pub single_packet_attack: Option<bool>,
    pub tab_name: Option<String>,
    pub id: Option<String>,
    pub name: Option<String>,
    pub payloads: Option<Vec<String>>,
}

#[derive(Debug, Clone)]
pub struct CollaboratorActionInput {
    /// One of: generate, poll, correlate.
    pub action: String,
    pub count: Option<u32>,
    pub target_url: Option<String>,
    pub injection_point: Option<String>,
    pub limit: Option<u32>,
    pub cursor: Option<String>,
}

#[derive(Debug, Clone)]
pub struct WebSocketActionInput {
    /// One of: create, send_text, send_binary, history, close, list.
    pub action: String,
    pub host: Option<String>,
    pub port: Option<u32>,
    pub https: Option<bool>,
    pub path: Option<String>,
    pub id: Option<String>,
    pub text: Option<String>,
    /// A binary payload in Base64.
    pub data: Option<String>,
    pub limit: Option<u32>,
    pub cursor: Option<String>,
}

#[derive(Debug, Clone)]
pub struct SessionActionInput {
    /// One of: list_rules, get_rule, upsert_rule, delete_rule, run_macro, upsert_macro, list_macros, delete_macro.
    pub action: String,
    pub id: Option<String>,
    pub description: Option<String>,
    pub action_type: Option<String>,
    pub find: Option<String>,
    pub replace: Option<String>,
    pub header_name: Option<String>,
    pub parameter_name: Option<String>,
    pub macro_description: Option<String>,
    pub url_contains: Option<String>,
    pub tools: Option<Vec<String>>,
    pub enabled: Option<bool>,
    pub serial_number: Option<u64>,
    pub items: Option<Vec<MacroItemInput>>,
}

#[derive(Debug, Clone)]
pub struct SettingsActionInput {
    pub action: SettingsAction,
    pub config: Option<String>,
    pub paths: Option<Vec<String>>,
    pub enabled: Option<bool>,
    pub operation: Option<String>,
    pub port: Option<u32>,
    pub running: Option<bool>,
    pub listen_mode: Option<String>,
    pub listen_specific_address: Option<String>,
    pub certificate_mode: Option<String>,
    pub enable_http2: Option<bool>,
    pub support_invisible_proxying: Option<bool>,
    pub target: Option<String>,
    pub mode: Option<String>,
    pub script: Option<String>,
    pub script_id: Option<String>,
    pub script_name: Option<String>,
    pub kind: Option<String>,
    pub match_text: Option<String>,
    pub replace: Option<String>,
    pub index: Option<u32>,
    pub rule: Option<ProxyInterceptRuleInput>,
    pub master_enabled: Option<bool>,
    pub request_enabled: Option<bool>,
    pub response_enabled: Option<bool>,
    /// The rule id of `register_proxy_rule` and `remove_proxy_rule`.
    pub id: Option<String>,
    /// What a proxy rule's URL must contain; required, and not blank, for
    /// `register_proxy_rule`.
    pub url_contains: Option<String>,
    pub phase: Option<ProxyRulePhaseInput>,
    pub rule_action: Option<ProxyRuleActionInput>,
    pub header_name: Option<String>,
    pub header_value: Option<String>,
}

#[derive(Debug, Clone)]
pub struct LoggerActionInput {
    /// One of: query, detail, clear.
    pub action: String,
    pub limit: Option<u32>,
    pub offset: Option<u32>,
    pub cursor: Option<String>,
    pub source_filter: Option<String>,
    pub url_filter: Option<String>,
    pub method_filter: Option<String>,
    pub status_filter: Option<u32>,
    pub has_notes: Option<bool>,
    pub color: Option<String>,
    pub include_bodies: Option<bool>,
    pub headers_only: Option<bool>,
    pub extract_css: Option<String>,
    pub extract_json: Option<String>,
    pub max_body_length: Option<usize>,
    pub index: Option<u32>,
}

#[derive(Debug, Clone)]
pub struct OrganizerActionInput {
    /// One of: add, list.
    pub action: String,
    pub request: Option<String>,
    pub response: Option<String>,
    pub host: Option<String>,
    pub port: Option<u32>,
    pub https: Option<bool>,
    pub notes: Option<String>,
    pub highlight: Option<String>,
    pub limit: Option<u32>,
    pub cursor: Option<String>,
    pub status_filter: Option<String>,
    pub url_filter: Option<String>,
}

#[derive(Debug, Clone)]
pub struct DiffActionInput {
    /// One of: compare_exchanges, diff_responses.
    pub action: String,
    pub response_a: Option<String>,
    pub response_b: Option<String>,
    pub index_a: Option<u32>,
    pub index_b: Option<u32>,
    pub first: Option<String>,
    pub second: Option<String>,
}

#[derive(Debug, Clone)]
pub struct EditorGetInput {
    pub target_hint: Option<String>,
    pub ttl_seconds: Option<u32>,
}

#[derive(Debug, Clone)]
pub struct EditorPatchInput {
    pub token: String,
    pub expected_sha256: String,
    pub mode: Option<String>,
    pub text: Option<String>,
    pub payload_base64: Option<String>,
    pub selection_replacement: Option<String>,
    pub header_name: Option<String>,
    pub header_value: Option<String>,
    pub header_remove: Option<bool>,
    pub regex_pattern: Option<String>,
    pub regex_replacement: Option<String>,
    pub regex_replace_all: Option<bool>,
    pub regex_case_insensitive: Option<bool>,
    pub json_path: Option<String>,
    pub json_value: Option<String>,
    pub param_name: Option<String>,
    pub param_value: Option<String>,
    pub param_remove: Option<bool>,
    pub param_type: Option<String>,
}

#[derive(Debug, Clone)]
pub struct EditorRenewInput {
    pub token: String,
    pub extend_seconds: Option<u32>,
}

#[derive(Debug, Clone)]
pub struct SiteGraphActionInput {
    /// One of: status, sync, search, security_view, neighbors, trace, shortest_path, clusters, impact, diff, export, import_spec, history_search, endpoint_detail, projects, config.
    pub action: String,
    pub url_prefix: Option<String>,
    pub query: Option<String>,
    pub id: Option<String>,
    pub from_id: Option<String>,
    pub to_id: Option<String>,
    pub limit: Option<u32>,
    pub cursor: Option<u32>,
    pub max_depth: Option<u32>,
    pub since: Option<i64>,
    pub profile: Option<String>,
    pub format: Option<String>,
    pub snapshot_id: Option<String>,
    pub spec_content: Option<String>,
    pub view_name: Option<String>,
}

} // verus!
