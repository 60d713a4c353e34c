use std::collections::HashMap;
use crate::inputs::{MacroItemInput, MacroParameterInput, ProxyInterceptRuleInput, SendRequestInput, ProxyInterceptRuleBooleanOperatorInput, ProxyRuleActionInput, ProxyRulePhaseInput};
use vstd::prelude::*;

verus! {

#[derive(Debug, Clone, Copy, PartialEq, Eq, Structural)]
pub enum ParameterLocation {
    Query,
    Body,
}

#[derive(Debug, Clone)]
pub struct VerifyIdorInput {
    pub url: String,
    pub method: Option<String>,
    pub body: Option<String>,
    pub headers: Option<HashMap<String, String>>,
    pub original_auth_header: String,
    pub victim_auth_header: String,
    pub auth_header_name: Option<String>,
    pub match_pattern: Option<String>,
}

#[derive(Debug, Clone)]
pub struct CheckCorsInput {
    pub url: String,
    pub method: Option<String>,
    pub test_origins: Option<Vec<String>>,
    pub headers: Option<HashMap<String, String>>,
}

#[derive(Debug, Clone)]
pub struct CorsFinding {
    pub origin: String,
    pub allowed_origin: Option<String>,
    pub allow_credentials: Option<String>,
    pub vulnerable: bool,
    pub severity: String,
    pub description: String,
}

#[derive(Debug, Clone)]
pub struct CheckCorsOutput {
    pub url: String,
    pub findings: Vec<CorsFinding>,
    pub overall_vulnerable: bool,
}

#[derive(Debug, Clone)]
pub struct AuthMatrixInput {
    pub endpoints: Vec<String>,
    pub method: Option<String>,
    pub body: Option<String>,
    pub roles: HashMap<String, HashMap<String, String>>,
}

#[derive(Debug, Clone)]
pub struct AuthMatrixCell {
    pub endpoint: String,
    pub role: String,
    pub status: Option<u32>,
    pub length: usize,
    pub accessible: bool,
}

#[derive(Debug, Clone)]
pub struct AuthMatrixOutput {
    pub matrix: Vec<AuthMatrixCell>,
    pub potential_access_control_violations: Vec<String>,
}

#[derive(Debug, Clone)]
pub struct JwtTestResult {
    pub vector: String,
    pub modified_jwt: String,
    pub status: Option<u32>,
    pub length: usize,
    pub bypass_detected: bool,
    pub description: String,
}

#[derive(Debug, Clone)]
pub struct AuditJwtOutput {
    pub original_jwt: String,
    pub results: Vec<JwtTestResult>,
    pub vulnerable: bool,
    pub summary: String,
}

#[derive(Debug, Clone)]
pub struct VerifySsrfInput {
    pub target_url: String,
    pub method: Option<String>,
    pub headers: Option<HashMap<String, String>>,
    pub body: Option<String>,
    pub injection_points: Vec<String>,
    pub wait_seconds: Option<u64>,
}

#[derive(Debug, Clone)]
pub struct VerifySsrfOutput {
    pub target_url: String,
    pub payloads_sent: Vec<String>,
    pub interactions_detected: usize,
    pub vulnerable: bool,
    pub verdict: String,
}

#[derive(Debug, Clone)]
pub struct VerifySqliBlindInput {
    pub url: String,
    pub method: Option<String>,
    pub param_name: String,
    pub param_type: Option<ParameterLocation>,
    pub sleep_seconds: Option<u64>,
}

#[derive(Debug, Clone)]
pub struct AuditGraphqlInput {
    pub endpoint: String,
    pub headers: Option<HashMap<String, String>>,
    pub test_batching: Option<bool>,
    pub test_introspection: Option<bool>,
    pub test_field_suggestions: Option<bool>,
}

#[derive(Debug, Clone)]
pub struct AuditGraphqlOutput {
    pub endpoint: String,
    pub introspection_enabled: bool,
    pub field_suggestions_enabled: bool,
    pub batching_supported: bool,
    pub vulnerable: bool,
    pub issues_found: Vec<String>,
}

#[derive(Debug, Clone)]
pub struct VerifyCsrfInput {
    pub url: String,
    pub method: Option<String>,
    pub body: Option<String>,
    pub session_cookie_name: String,
}

#[derive(Debug, Clone)]
pub struct VerifyCsrfOutput {
    pub url: String,
    pub samesite_attribute: String,
    pub is_vulnerable: bool,
    pub poc_html: String,
    pub remediation: String,
}

#[derive(Debug, Clone)]
pub struct ApiFuzzOrchestratorInput {
    pub spec_content: String,
    pub target_base_url: String,
    pub auth_headers: Option<HashMap<String, String>>,
    pub fuzz_categories: Option<Vec<String>>,
}

#[derive(Debug, Clone)]
pub struct ApiFuzzAnomaly {
    pub method: String,
    pub endpoint: String,
    pub status: u32,
    pub payload_category: String,
    pub description: String,
}

#[derive(Debug, Clone)]
pub struct ApiFuzzOrchestratorOutput {
    pub total_endpoints_fuzzed: usize,
    pub total_requests_sent: usize,
    pub anomalies: Vec<ApiFuzzAnomaly>,
    pub summary: String,
}

} // verus!
