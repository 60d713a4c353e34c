use std::collections::HashMap;
use crate::inputs::{MacroItemInput, MacroParameterInput, ProxyInterceptRuleInput, SendRequestInput, ProxyInterceptRuleBooleanOperatorInput, ProxyRuleActionInput, ProxyRulePhaseInput};
use vstd::prelude::*;

verus! {

#[derive(Debug, Clone)]
pub struct ConsolidatedProxyInput {
    /// One of: history, detail, annotate, highlight, extract.
    pub action: String,
    pub limit: Option<u32>,
    pub offset: Option<u32>,
    pub cursor: Option<String>,
    pub url_filter: Option<String>,
    pub method_filter: Option<String>,
    pub status_filter: Option<u32>,
    pub has_notes: Option<bool>,
    pub color: Option<String>,
    pub include_bodies: Option<bool>,
    pub headers_only: Option<bool>,
    pub extract_css: Option<String>,
    pub extract_json: Option<String>,
    pub max_body_length: Option<usize>,
    pub index: Option<u32>,
    pub notes: Option<String>,
    pub regex: Option<String>,
}

#[derive(Debug, Clone)]
pub struct ConsolidatedHttpInput {
    /// One of: send, send_batch, convert, export, send_to_repeater.
    pub action: String,
    pub method: Option<String>,
    pub url: Option<String>,
    pub body: Option<String>,
    pub headers: Option<HashMap<String, String>>,
    pub headers_only: Option<bool>,
    pub extract_css: Option<String>,
    pub extract_json: Option<String>,
    pub max_body_length: Option<usize>,
    pub requests: Option<Vec<SendRequestInput>>,
    pub request: Option<String>,
    pub convert_to: Option<String>,
    pub host: Option<String>,
    pub port: Option<u32>,
    pub https: Option<bool>,
    pub format: Option<String>,
    pub tab_name: Option<String>,
}

#[derive(Debug, Clone)]
pub struct ConsolidatedTargetInput {
    /// One of: get_scope, add_scope, remove_scope, info, sitemap.
    pub action: String,
    pub url: Option<String>,
    pub url_prefix: Option<String>,
    pub limit: Option<u32>,
    pub cursor: Option<String>,
}

#[derive(Debug, Clone)]
pub struct ConsolidatedScannerInput {
    /// One of: start_audit, start_crawl, stop, list_issues, issue_detail, update_issue, report.
    pub action: String,
    pub url: Option<String>,
    pub audit_type: Option<String>,
    pub seed_urls: Option<Vec<String>>,
    pub scan_configuration_id: Option<String>,
    pub resource_pool_id: Option<String>,
    pub timeout_seconds: Option<u64>,
    pub stable_seconds: Option<u64>,
    pub include_out_of_scope: Option<bool>,
    pub job_id: Option<String>,
    pub limit: Option<u32>,
    pub offset: Option<u32>,
    pub cursor: Option<String>,
    pub index: Option<u32>,
    pub status: Option<String>,
    pub severity: Option<String>,
    pub confidence: Option<String>,
    pub notes: Option<String>,
    pub format: Option<String>,
    pub path: Option<String>,
    pub issue_indexes: Option<Vec<u32>>,
}

#[derive(Debug, Clone)]
pub struct ConsolidatedFuzzerInput {
    /// One of: fuzz, race, send_to_intruder, list_payloads, upsert_payloads.
    pub action: String,
    pub template: Option<String>,
    pub host: Option<String>,
    pub port: Option<u32>,
    pub https: Option<bool>,
    pub marker: Option<String>,
    pub wordlist: Option<Vec<String>>,
    pub payload_list_id: Option<String>,
    pub payload_offset: Option<u32>,
    pub attack_mode: Option<String>,
    pub markers: Option<HashMap<String, Vec<String>>>,
    pub request: Option<String>,
    pub count: Option<u32>,
    pub single_packet_attack: Option<bool>,
    pub tab_name: Option<String>,
    pub id: Option<String>,
    pub name: Option<String>,
    pub payloads: Option<Vec<String>>,
}

#[derive(Debug, Clone)]
pub struct ConsolidatedCollaboratorInput {
    /// One of: generate, poll, correlate.
    pub action: String,
    pub count: Option<u32>,
    pub target_url: Option<String>,
    pub injection_point: Option<String>,
    pub limit: Option<u32>,
    pub cursor: Option<String>,
}

#[derive(Debug, Clone)]
pub struct ConsolidatedDiffInput {
    /// One of: compare_exchanges, diff_responses.
    pub action: String,
    pub response_a: Option<String>,
    pub response_b: Option<String>,
    pub index_a: Option<u32>,
    pub index_b: Option<u32>,
    pub first: Option<String>,
    pub second: Option<String>,
}

} // verus!
