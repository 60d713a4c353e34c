use std::collections::HashMap;
use vstd::prelude::*;

verus! {

#[derive(Debug, Clone)]
pub struct ProxyHistoryInput {
    pub limit: Option<u32>,
    pub offset: Option<u32>,
    pub cursor: Option<String>,
    pub url_filter: Option<String>,
    pub method_filter: Option<String>,
    pub status_filter: Option<u32>,
    pub has_notes: Option<bool>,
    pub color: Option<String>,
    pub include_bodies: Option<bool>,
    pub headers_only: Option<bool>,
    pub extract_css: Option<String>,
    pub extract_json: Option<String>,
    pub max_body_length: Option<usize>,
}

#[derive(Debug, Clone)]
pub struct ProxyDetailInput {
    pub index: u32,
    pub include_bodies: Option<bool>,
    pub headers_only: Option<bool>,
    pub extract_css: Option<String>,
    pub extract_json: Option<String>,
    pub max_body_length: Option<usize>,
}

#[derive(Debug, Clone)]
pub struct SitemapInput {
    pub url_prefix: Option<String>,
    pub limit: Option<u32>,
    pub cursor: Option<String>,
}

#[derive(Debug, Clone)]
pub struct TargetInfoInput {
    pub url: Option<String>,
    pub limit: Option<u32>,
}

#[derive(Debug, Clone)]
pub struct ScopeCheckInput {
    pub url: String,
}

#[derive(Debug, Clone)]
pub struct CookieJarInput {
    pub limit: Option<u32>,
    pub domain: Option<String>,
}

#[derive(Debug, Clone)]
pub struct SetCookieInput {
    pub name: String,
    pub value: String,
    pub domain: String,
    pub path: Option<String>,
    pub expiration: Option<String>,
}

#[derive(Debug, Clone)]
pub struct AddIssueInput {
    pub name: String,
    pub url: String,
    pub detail: Option<String>,
    pub remediation: Option<String>,
    pub severity: Option<String>,
    pub confidence: Option<String>,
}

#[derive(Debug, Clone)]
pub struct ScanIssueDetailInput {
    pub index: u32,
}

#[derive(Debug, Clone)]
pub struct SetInterceptStateInput {
    pub enabled: bool,
}

#[derive(Debug, Clone)]
pub struct InterceptControllerInput {
    pub enabled: Option<bool>,
    pub timeout_seconds: Option<u32>,
    pub url_filter: Option<String>,
    pub in_scope_only: Option<bool>,
}

#[derive(Debug, Clone)]
pub struct InterceptedMessagesInput {
    pub limit: Option<u32>,
    pub cursor: Option<String>,
    pub include_bodies: Option<bool>,
    pub max_body_length: Option<usize>,
}

#[derive(Debug, Clone, Copy, PartialEq, Eq, Structural)]
pub enum InterceptActionInput {
    Forward,
    Drop,
    Intercept,
}

#[derive(Debug, Clone)]
pub struct ControlInterceptedMessageInput {
    pub id: u64,
    pub action: InterceptActionInput,
    pub message_base64: Option<String>,
    pub max_body_length: Option<usize>,
}

#[derive(Debug, Clone, Copy, PartialEq, Eq, Structural)]
pub enum ProxyInterceptRuleBooleanOperatorInput {
    And,
    Or,
}

#[derive(Debug, Clone, Copy, PartialEq, Eq, Structural)]
pub enum ProxyInterceptRuleMatchTypeInput {
    FileExtension,
    Request,
    HttpMethod,
    Url,
    ContentTypeHeader,
    StatusCode,
}

#[derive(Debug, Clone, Copy, PartialEq, Eq, Structural)]
pub enum ProxyInterceptRuleRelationshipInput {
    Matches,
    DoesNotMatch,
    ContainsParameters,
    IsInTargetScope,
    WasModified,
    WasIntercepted,
}

#[derive(Debug, Clone)]
pub struct ProxyInterceptRuleInput {
    pub enabled: Option<bool>,
    pub boolean_operator: Option<ProxyInterceptRuleBooleanOperatorInput>,
    pub match_type: ProxyInterceptRuleMatchTypeInput,
    pub match_relationship: ProxyInterceptRuleRelationshipInput,
    pub match_condition: Option<String>,
}

#[derive(Debug, Clone)]
pub struct ProxyInterceptConfigInput {
    pub master_intercept_enabled: Option<bool>,
    pub request_do_intercept: Option<bool>,
    pub request_auto_content_length: Option<bool>,
    pub request_fix_missing_new_lines: Option<bool>,
    pub response_do_intercept: Option<bool>,
    pub response_auto_content_length: Option<bool>,
    pub websocket_client_to_server: Option<bool>,
    pub websocket_server_to_client: Option<bool>,
    pub websocket_in_scope_only: Option<bool>,
    pub request_rules: Option<Vec<ProxyInterceptRuleInput>>,
    pub response_rules: Option<Vec<ProxyInterceptRuleInput>>,
    pub replace_request_rules: Option<bool>,
    pub replace_response_rules: Option<bool>,
    pub response_unhide_hidden_fields: Option<bool>,
    pub response_enable_disabled_fields: Option<bool>,
    pub response_remove_input_length_limits: Option<bool>,
    pub response_remove_javascript_validation: Option<bool>,
    pub response_remove_all_javascript: Option<bool>,
}

#[derive(Debug, Clone)]
pub struct ProxyWebSocketHistoryInput {
    pub limit: Option<u32>,
    pub cursor: Option<String>,
    pub include_bodies: Option<bool>,
    pub max_body_length: Option<usize>,
}

#[derive(Debug, Clone)]
pub struct WebSocketInterceptControllerInput {
    pub enabled: Option<bool>,
    pub timeout_seconds: Option<u32>,
}

#[derive(Debug, Clone)]
pub struct InterceptedWebSocketMessagesInput {
    pub limit: Option<u32>,
    pub cursor: Option<String>,
    pub include_bodies: Option<bool>,
    pub max_body_length: Option<usize>,
}

#[derive(Debug, Clone)]
pub struct ControlInterceptedWebSocketMessageInput {
    pub id: u64,
    pub action: InterceptActionInput,
    pub payload_base64: Option<String>,
    pub max_body_length: Option<usize>,
}

#[derive(Debug, Clone)]
pub struct SendRequestInput {
    pub method: Option<String>,
    pub url: String,
    pub body: Option<String>,
    pub headers: Option<HashMap<String, String>>,
    pub headers_only: Option<bool>,
    pub extract_css: Option<String>,
    pub extract_json: Option<String>,
    pub max_body_length: Option<usize>,
}

#[derive(Debug, Clone)]
pub struct SendRequestsInput {
    pub requests: Vec<SendRequestInput>,
}

#[derive(Debug, Clone)]
pub struct SendToRepeaterInput {
    pub request: String,
    pub host: String,
    pub port: Option<u32>,
    pub https: Option<bool>,
    pub tab_name: Option<String>,
}

#[derive(Debug, Clone)]
pub struct SendToIntruderInput {
    pub request: String,
    pub host: String,
    pub port: Option<u32>,
    pub https: Option<bool>,
    pub tab_name: Option<String>,
}

#[derive(Debug, Clone)]
pub struct ConvertRequestInput {
    pub request: String,
    pub convert_to: Option<String>,
}

#[derive(Debug, Clone)]
pub struct ExportRequestInput {
    pub request: String,
    pub host: Option<String>,
    pub format: Option<String>,
    pub https: Option<bool>,
}

#[derive(Debug, Clone)]
pub struct ExtractResponseInput {
    pub index: u32,
    pub regex: String,
    pub limit: Option<usize>,
}

#[derive(Debug, Clone)]
pub struct HighlightInput {
    pub index: u32,
    pub color: Option<String>,
}

#[derive(Debug, Clone)]
pub struct GenerateScannerReportInput {
    pub format: String,
    pub path: String,
    pub issue_indexes: Option<Vec<u32>>,
}

#[derive(Debug, Clone)]
pub struct LoggerHistoryInput {
    pub limit: Option<u32>,
    pub offset: Option<u32>,
    pub cursor: Option<String>,
    pub source_filter: Option<String>,
    pub url_filter: Option<String>,
    pub method_filter: Option<String>,
    pub status_filter: Option<u32>,
    pub has_notes: Option<bool>,
    pub color: Option<String>,
    pub include_bodies: Option<bool>,
    pub headers_only: Option<bool>,
    pub extract_css: Option<String>,
    pub extract_json: Option<String>,
    pub max_body_length: Option<usize>,
}

#[derive(Debug, Clone)]
pub struct LoggerDetailInput {
    pub index: u32,
    pub include_bodies: Option<bool>,
    pub headers_only: Option<bool>,
    pub extract_css: Option<String>,
    pub extract_json: Option<String>,
    pub max_body_length: Option<usize>,
}

#[derive(Debug, Clone)]
pub struct LoggerClearInput {}

#[derive(Debug, Clone)]
pub struct OrganizerSendInput {
    pub request: String,
    pub response: Option<String>,
    pub host: String,
    pub port: Option<u32>,
    pub https: Option<bool>,
    pub notes: Option<String>,
    pub highlight: Option<String>,
}

#[derive(Debug, Clone)]
pub struct OrganizerListInput {
    pub limit: Option<u32>,
    pub cursor: Option<String>,
    pub status_filter: Option<String>,
    pub url_filter: Option<String>,
}

#[derive(Debug, Clone)]
pub struct BCheckTestInput {
    pub script: String,
    pub request: String,
    pub response: Option<String>,
    pub host: Option<String>,
    pub port: Option<u32>,
    pub https: Option<bool>,
}

#[derive(Debug, Clone)]
pub struct ScanIssueUpdateInput {
    pub index: u32,
    pub status: String,
    pub severity: Option<String>,
    pub confidence: Option<String>,
    pub notes: Option<String>,
}

#[derive(Debug, Clone)]
pub struct AnnotateInput {
    pub index: u32,
    pub note: String,
}

#[derive(Debug, Clone)]
pub struct ScopeMutationInput {
    pub url: String,
}

#[derive(Debug, Clone)]
pub struct ImportConfigInput {
    pub config: String,
}

#[derive(Debug, Clone)]
pub struct ProxySettingsUpdateInput {
    /// listener_upsert, listener_delete, script_filter_upsert, script_filter_delete,
    /// intercept_rule_upsert, intercept_rule_delete, or intercept_toggle.
    pub operation: String,
    pub port: Option<u32>,
    pub running: Option<bool>,
    pub listen_mode: Option<String>,
    pub listen_specific_address: Option<String>,
    pub certificate_mode: Option<String>,
    pub enable_http2: Option<bool>,
    pub support_invisible_proxying: Option<bool>,
    pub target: Option<String>,
    pub mode: Option<String>,
    pub script: Option<String>,
    pub script_id: Option<String>,
    pub script_name: Option<String>,
    /// request or response for interception-rule operations.
    pub kind: Option<String>,
    /// Omit to append for intercept_rule_upsert; required for update and delete.
    pub index: Option<u32>,
    pub rule: Option<ProxyInterceptRuleInput>,
    pub master_enabled: Option<bool>,
    pub request_enabled: Option<bool>,
    pub response_enabled: Option<bool>,
}

#[derive(Debug, Clone)]
pub struct RegisterHttpHandlerInput {
    pub header_name: Option<String>,
    pub header_value: Option<String>,
    pub match_text: Option<String>,
    pub replace: Option<String>,
}

#[derive(Debug, Clone)]
pub struct InspectConfigInput {
    pub paths: Option<Vec<String>>,
}

#[derive(Debug, Clone, Copy, PartialEq, Eq, Structural)]
pub enum ProxyRulePhaseInput {
    Request,
    Response,
}

#[derive(Debug, Clone, Copy, PartialEq, Eq, Structural)]
pub enum ProxyRuleActionInput {
    Forward,
    Intercept,
    Drop,
    Edit,
}

#[derive(Debug, Clone)]
pub struct RegisterProxyRuleInput {
    pub id: Option<String>,
    pub url_contains: String,
    pub phase: Option<ProxyRulePhaseInput>,
    pub rule_action: Option<ProxyRuleActionInput>,
    pub match_text: Option<String>,
    pub replace: Option<String>,
    pub header_name: Option<String>,
    pub header_value: Option<String>,
    pub enabled: Option<bool>,
}

#[derive(Debug, Clone)]
pub struct RemoveProxyRuleInput {
    pub id: Option<String>,
}

#[derive(Debug, Clone)]
pub struct RegisterPayloadProcessorInput {
    pub id: String,
    pub display_name: String,
    pub operation: String,
    pub argument: Option<String>,
    pub replacement: Option<String>,
}

#[derive(Debug, Clone)]
pub struct PayloadRegistrationInput {
    pub id: String,
}

#[derive(Debug, Clone)]
pub struct RegisterPayloadGeneratorInput {
    pub id: String,
    pub display_name: String,
    pub payloads: Vec<String>,
    pub max_output_count: Option<u32>,
    pub payload_list_id: Option<String>,
    pub payload_offset: Option<u32>,
}

#[derive(Debug, Clone)]
pub struct CreatePayloadListInput {
    pub id: String,
    pub display_name: String,
    pub payloads: Vec<String>,
}

#[derive(Debug, Clone)]
pub struct ImportPayloadListInput {
    pub id: String,
    pub display_name: String,
    pub content: String,
    pub format: Option<String>,
    pub keep_empty: Option<bool>,
}

#[derive(Debug, Clone)]
pub struct PayloadListIdInput {
    pub id: String,
}

#[derive(Debug, Clone)]
pub struct GetPayloadListInput {
    pub id: String,
    pub offset: Option<u32>,
    pub limit: Option<u32>,
}

#[derive(Debug, Clone)]
pub struct UpdatePayloadListInput {
    pub id: String,
    pub operation: String,
    pub payloads: Option<Vec<String>>,
    pub index: Option<u32>,
    pub indexes: Option<Vec<u32>>,
    pub display_name: Option<String>,
}

#[derive(Debug, Clone)]
pub struct SessionRuleUpsertInput {
    pub id: Option<String>,
    pub description: Option<String>,
    pub action_type: Option<String>,
    pub find: Option<String>,
    pub replace: Option<String>,
    pub header_name: Option<String>,
    pub parameter_name: Option<String>,
    pub macro_description: Option<String>,
    pub url_contains: Option<String>,
    pub tools: Option<Vec<String>>,
    pub enabled: Option<bool>,
}

#[derive(Debug, Clone)]
pub struct SessionRuleIdInput {
    pub id: String,
}

#[derive(Debug, Clone)]
pub struct MacroParameterInput {
    pub name: String,
    pub original_value: Option<String>,
    pub parameter_handling: Option<String>,
    pub preset_value: Option<String>,
    pub parameter_type: Option<String>,
}

#[derive(Debug, Clone)]
pub struct MacroItemInput {
    pub request: String,
    pub method: Option<String>,
    pub url: String,
    pub response: Option<String>,
    pub status_code: Option<u32>,
    pub cookies_received: Option<String>,
    pub request_parameters: Option<Vec<MacroParameterInput>>,
    pub custom_parameters: Option<Vec<String>>,
}

#[derive(Debug, Clone)]
pub struct CreateMacroInput {
    pub description: String,
    pub serial_number: Option<u64>,
    pub items: Vec<MacroItemInput>,
}

#[derive(Debug, Clone)]
pub struct MacroDescriptionInput {
    pub description: String,
}

#[derive(Debug, Clone)]
pub struct ConcurrentRequestCheckInput {
    pub request: String,
    pub host: String,
    pub port: Option<u32>,
    pub https: Option<bool>,
    pub count: Option<u32>,
    pub single_packet_attack: Option<bool>,
}

#[derive(Debug, Clone)]
pub struct BoundedInputMatrixInput {
    pub template: String,
    pub host: String,
    pub port: Option<u32>,
    pub https: Option<bool>,
    pub marker: Option<String>,
    pub wordlist: Option<Vec<String>>,
    pub payload_list_id: Option<String>,
    pub payload_offset: Option<u32>,
    pub attack_mode: Option<String>,
    pub markers: Option<HashMap<String, Vec<String>>>,
}

#[derive(Debug, Clone)]
pub struct CrawlInput {
    pub seed_urls: Vec<String>,
    pub scan_configuration_id: Option<String>,
    pub resource_pool_id: Option<String>,
    pub timeout_seconds: Option<u64>,
    pub stable_seconds: Option<u64>,
    pub include_out_of_scope: Option<bool>,
}

#[derive(Debug, Clone)]
pub struct AuditInput {
    pub url: String,
    pub audit_type: Option<String>,
    pub scan_configuration_id: Option<String>,
    pub resource_pool_id: Option<String>,
    pub timeout_seconds: Option<u64>,
    pub stable_seconds: Option<u64>,
    pub include_out_of_scope: Option<bool>,
}

#[derive(Debug, Clone)]
pub struct ScanConfigurationIdInput {
    pub id: String,
}

#[derive(Debug, Clone)]
pub struct ScanConfigurationUpsertInput {
    pub id: Option<String>,
    pub name: String,
    pub scan_type: String,
    pub audit_type: Option<String>,
    pub include_out_of_scope: Option<bool>,
    pub timeout_seconds: Option<u64>,
    pub stable_seconds: Option<u64>,
    pub resource_pool_id: Option<String>,
}

#[derive(Debug, Clone)]
pub struct ScanResourcePoolIdInput {
    pub id: String,
}

#[derive(Debug, Clone)]
pub struct ScanResourcePoolUpsertInput {
    pub id: Option<String>,
    pub name: String,
    pub kind: String,
    pub existing_pool_name: Option<String>,
    pub concurrent_request_limit: Option<u32>,
    pub throttle_millis: Option<u64>,
    pub max_retries: Option<u32>,
}

#[derive(Debug, Clone)]
pub struct JobInput {
    pub job_id: String,
}

#[derive(Debug, Clone)]
pub struct JobResultInput {
    pub job_id: String,
    pub limit: Option<u32>,
    pub cursor: Option<String>,
}

#[derive(Debug, Clone)]
pub struct CollaboratorGenerateInput {
    pub count: Option<u32>,
    pub target_url: Option<String>,
    pub injection_point: Option<String>,
}

#[derive(Debug, Clone)]
pub struct CollaboratorPollInput {
    pub limit: Option<u32>,
    pub cursor: Option<String>,
}

#[derive(Debug, Clone)]
pub struct WebSocketCreateInput {
    pub host: String,
    pub port: Option<u32>,
    pub https: Option<bool>,
    pub path: Option<String>,
}

#[derive(Debug, Clone)]
pub struct WebSocketTextInput {
    pub id: String,
    pub text: String,
}

#[derive(Debug, Clone)]
pub struct WebSocketBinaryInput {
    pub id: String,
    pub data: String,
}

#[derive(Debug, Clone)]
pub struct WebSocketIdInput {
    pub id: String,
}

#[derive(Debug, Clone)]
pub struct ManagedWebSocketHistoryInput {
    pub id: Option<String>,
    pub limit: Option<u32>,
    pub cursor: Option<String>,
    pub include_bodies: Option<bool>,
    pub max_body_length: Option<usize>,
}

#[derive(Debug, Clone)]
pub struct BambdaImportInput {
    pub script: String,
}

#[derive(Debug, Clone)]
pub struct BCheckImportInput {
    pub script: String,
    pub enabled: bool,
}

#[derive(Debug, Clone)]
pub struct SiteGraphSyncInput {
    pub url_prefix: Option<String>,
}

#[derive(Debug, Clone)]
pub struct SiteGraphSearchInput {
    pub query: String,
    pub limit: Option<u32>,
    pub cursor: Option<u32>,
}

#[derive(Debug, Clone)]
pub struct SiteGraphHistorySearchInput {
    pub query: String,
    pub source: Option<String>,
    pub limit: Option<u32>,
    pub cursor: Option<u32>,
}

#[derive(Debug, Clone)]
pub struct SiteGraphEndpointInput {
    pub id: String,
}

#[derive(Debug, Clone)]
pub struct SiteGraphNeighborsInput {
    pub id: String,
    pub limit: Option<u32>,
    pub cursor: Option<u32>,
}

#[derive(Debug, Clone)]
pub struct SiteGraphTraceInput {
    pub id: String,
    pub max_depth: Option<u32>,
    pub limit: Option<u32>,
}

#[derive(Debug, Clone)]
pub struct SiteGraphDiffInput {
    pub since: i64,
    pub limit: Option<u32>,
    pub cursor: Option<u32>,
}

#[derive(Debug, Clone)]
pub struct SiteGraphShortestPathInput {
    pub from_id: String,
    pub to_id: String,
    pub max_depth: Option<u32>,
}

#[derive(Debug, Clone)]
pub struct SiteGraphClustersInput {
    pub limit: Option<u32>,
}

#[derive(Debug, Clone)]
pub struct SiteGraphImpactInput {
    pub id: String,
    pub max_depth: Option<u32>,
    pub limit: Option<u32>,
}

#[derive(Debug, Clone)]
pub struct SiteGraphExportInput {
    pub profile: Option<String>,
    pub format: Option<String>,
    pub snapshot_id: Option<String>,
    pub cursor: Option<u32>,
    pub limit: Option<u32>,
}

#[derive(Debug, Clone)]
pub struct DiffResponsesInput {
    pub response_a: Option<String>,
    pub response_b: Option<String>,
    pub index_a: Option<u32>,
    pub index_b: Option<u32>,
}

#[derive(Debug, Clone)]
pub struct SendToComparerInput {
    pub first: String,
    pub second: String,
}

#[derive(Debug, Clone)]
pub struct ScanIssuesInput {
    pub limit: Option<u32>,
    pub cursor: Option<String>,
}

} // verus!
