//! The requests sent to the Burp extension for tool inputs, with the
//! defaults the extension is given for what the caller leaves out.
use crate::dispatch::{or_list, or_text};
use crate::editor::{base64_decode, base64_standard_decode};
use crate::inputs::{
    AuditInput, BCheckTestInput, ControlInterceptedMessageInput,
    ControlInterceptedWebSocketMessageInput, CreateMacroInput,
    MacroItemInput, MacroParameterInput, ProxyInterceptConfigInput,
    ProxyInterceptRuleInput, ProxyRuleActionInput, ProxyRulePhaseInput, RegisterProxyRuleInput,
    ScanConfigurationUpsertInput, ScanResourcePoolUpsertInput,
    SessionRuleUpsertInput,
};
use crate::proto::{
    ControlInterceptedMessageRequest, ControlInterceptedWebSocketMessageRequest, MacroDefinition,
    MacroItem, MacroParameter, ProxyInterceptConfigRequest, ProxyInterceptRule,
    RegisterProxyRuleRequest, StartAuditRequest, TestBCheckRequest, UpsertScanConfigurationRequest, UpsertScanResourcePoolRequest, UpsertSessionRuleRequest,
};
use crate::text::{
    chars_of, string_from_chars, to_unicode_lowercase, trim_chars, trim_seq, unicode_lowercase,
};
use vstd::utf8::encode_utf8;
use crate::tools::proto_rule_of;
use vstd::prelude::*;

verus! {

pub open spec fn or_number<T>(o: Option<T>, d: T) -> T {
    match o {
        Some(x) => x,
        None => d,
    }
}

fn text_or(o: Option<String>, default: &str) -> (r: String)
    ensures
        r@ == or_text(o, default@),
{
    match o {
        Some(s) => s,
        None => string_from_chars(chars_of(default).as_slice()),
    }
}

fn list_or_empty(o: Option<Vec<String>>) -> (r: Vec<String>)
    ensures
        r@ == or_list(o),
{
    match o {
        Some(v) => v,
        None => Vec::new(),
    }
}

/// The scan configuration to store: a new one has an empty id; it scans
/// for 900 seconds and waits 2 seconds for stability unless told otherwise.
pub fn scan_configuration_request(input: ScanConfigurationUpsertInput) -> (r: UpsertScanConfigurationRequest)
    ensures
        r.id@ == or_text(input.id, Seq::empty()),
        r.name == input.name,
        r.scan_type == input.scan_type,
        r.audit_type@ == or_text(input.audit_type, Seq::empty()),
        r.include_out_of_scope == or_number(input.include_out_of_scope, false),
        r.timeout_seconds == or_number(input.timeout_seconds, 900u64),
        r.stable_seconds == or_number(input.stable_seconds, 2u64),
        r.resource_pool_id@ == or_text(input.resource_pool_id, Seq::empty()),
{
    proof {
        reveal_strlit("");
        assert(""@ =~= Seq::<char>::empty());
    }
    UpsertScanConfigurationRequest {
        id: text_or(input.id, ""),
        name: input.name,
        scan_type: input.scan_type,
        audit_type: text_or(input.audit_type, ""),
        include_out_of_scope: match input.include_out_of_scope {
            Some(b) => b,
            None => false,
        },
        timeout_seconds: match input.timeout_seconds {
            Some(t) => t,
            None => 900,
        },
        stable_seconds: match input.stable_seconds {
            Some(t) => t,
            None => 2,
        },
        resource_pool_id: text_or(input.resource_pool_id, ""),
    }
}

/// The resource pool to store: at most 10 concurrent requests, no throttle
/// and no retries unless told otherwise.
pub fn scan_pool_request(input: ScanResourcePoolUpsertInput) -> (r: UpsertScanResourcePoolRequest)
    ensures
        r.id@ == or_text(input.id, Seq::empty()),
        r.name == input.name,
        r.kind == input.kind,
        r.existing_pool_name@ == or_text(input.existing_pool_name, Seq::empty()),
        r.concurrent_request_limit == or_number(input.concurrent_request_limit, 10u32),
        r.throttle_millis == or_number(input.throttle_millis, 0u64),
        r.max_retries == or_number(input.max_retries, 0u32),
{
    proof {
        reveal_strlit("");
        assert(""@ =~= Seq::<char>::empty());
    }
    UpsertScanResourcePoolRequest {
        id: text_or(input.id, ""),
        name: input.name,
        kind: input.kind,
        existing_pool_name: text_or(input.existing_pool_name, ""),
        concurrent_request_limit: match input.concurrent_request_limit {
            Some(n) => n,
            None => 10,
        },
        throttle_millis: match input.throttle_millis {
            Some(n) => n,
            None => 0,
        },
        max_retries: match input.max_retries {
            Some(n) => n,
            None => 0,
        },
    }
}

/// The session rule to store: described as `Burp MCP session rule`,
/// replacing text, for all tools and enabled unless told otherwise.
pub fn session_rule_request(input: SessionRuleUpsertInput) -> (r: UpsertSessionRuleRequest)
    ensures
        r.id@ == or_text(input.id, Seq::empty()),
        r.find@ == or_text(input.find, Seq::empty()),
        r.replacement@ == or_text(input.replace, Seq::empty()),
        r.description@ == or_text(input.description, "Burp MCP session rule"@),
        r.action_type@ == or_text(input.action_type, "replace_text"@),
        r.header_name@ == or_text(input.header_name, Seq::empty()),
        r.parameter_name@ == or_text(input.parameter_name, Seq::empty()),
        r.macro_description@ == or_text(input.macro_description, Seq::empty()),
        r.url_contains@ == or_text(input.url_contains, Seq::empty()),
        r.tools@ == or_list(input.tools),
        r.enabled == or_number(input.enabled, true),
{
    proof {
        reveal_strlit("");
        assert(""@ =~= Seq::<char>::empty());
    }
    UpsertSessionRuleRequest {
        id: text_or(input.id, ""),
        find: text_or(input.find, ""),
        replacement: text_or(input.replace, ""),
        description: text_or(input.description, "Burp MCP session rule"),
        action_type: text_or(input.action_type, "replace_text"),
        header_name: text_or(input.header_name, ""),
        parameter_name: text_or(input.parameter_name, ""),
        macro_description: text_or(input.macro_description, ""),
        url_contains: text_or(input.url_contains, ""),
        tools: list_or_empty(input.tools),
        enabled: match input.enabled {
            Some(b) => b,
            None => true,
        },
    }
}

/// A macro parameter as sent: handled as a `preset_value` unless told
/// otherwise, other texts empty when left out.
pub open spec fn parameter_ok(i: MacroParameterInput, p: MacroParameter) -> bool {
    &&& p.name == i.name
    &&& p.original_value@ == or_text(i.original_value, Seq::empty())
    &&& p.parameter_handling@ == or_text(i.parameter_handling, "preset_value"@)
    &&& p.preset_value@ == or_text(i.preset_value, Seq::empty())
    &&& p.parameter_type@ == or_text(i.parameter_type, Seq::empty())
}

pub open spec fn parameters_of(o: Option<Vec<MacroParameterInput>>) -> Seq<MacroParameterInput> {
    match o {
        Some(v) => v@,
        None => Seq::empty(),
    }
}

/// A macro item as sent: texts and the status code empty or 0 when left
/// out, each parameter as `parameter_ok` says.
pub open spec fn item_ok(i: MacroItemInput, m: MacroItem) -> bool {
    &&& m.request == i.request
    &&& m.method@ == or_text(i.method, Seq::empty())
    &&& m.url == i.url
    &&& m.response@ == or_text(i.response, Seq::empty())
    &&& m.status_code == or_number(i.status_code, 0u32)
    &&& m.cookies_received@ == or_text(i.cookies_received, Seq::empty())
    &&& m.request_parameters@.len() == parameters_of(i.request_parameters).len()
    &&& forall|k: int|
        0 <= k < m.request_parameters@.len() ==> parameter_ok(
            parameters_of(i.request_parameters)[k],
            #[trigger] m.request_parameters@[k],
        )
    &&& m.custom_parameters@ == or_list(i.custom_parameters)
}

fn macro_parameter(p: MacroParameterInput) -> (r: MacroParameter)
    ensures
        parameter_ok(p, r),
{
    proof {
        reveal_strlit("");
        assert(""@ =~= Seq::<char>::empty());
    }
    MacroParameter {
        name: p.name,
        original_value: text_or(p.original_value, ""),
        parameter_handling: text_or(p.parameter_handling, "preset_value"),
        preset_value: text_or(p.preset_value, ""),
        parameter_type: text_or(p.parameter_type, ""),
    }
}

fn macro_item(i: MacroItemInput) -> (r: MacroItem)
    ensures
        item_ok(i, r),
{
    proof {
        reveal_strlit("");
        assert(""@ =~= Seq::<char>::empty());
    }
    let ghost i0 = i;
    let MacroItemInput {
        request,
        method,
        url,
        response,
        status_code,
        cookies_received,
        request_parameters,
        custom_parameters,
    } = i;
    let mut rest = match request_parameters {
        Some(v) => v,
        None => Vec::new(),
    };
    let ghost all = rest@;
    let n = rest.len();
    let mut params: Vec<MacroParameter> = Vec::new();
    let mut k: usize = 0;
    proof {
        assert(all.subrange(0, n as int) =~= all);
    }
    while k < n
        invariant
            n == all.len(),
            all == parameters_of(i0.request_parameters),
            k <= n,
            rest@ == all.subrange(k as int, n as int),
            params@.len() == k,
            forall|j: int| 0 <= j < k ==> parameter_ok(all[j], #[trigger] params@[j]),
        decreases n - k,
    {
        let p = rest.remove(0);
        proof {
            assert(p == all[k as int]);
            assert(rest@ =~= all.subrange(k + 1, n as int));
        }
        params.push(macro_parameter(p));
        k += 1;
    }
    MacroItem {
        request,
        method: text_or(method, ""),
        url,
        response: text_or(response, ""),
        status_code: match status_code {
            Some(c) => c,
            None => 0,
        },
        cookies_received: text_or(cookies_received, ""),
        request_parameters: params,
        custom_parameters: list_or_empty(custom_parameters),
    }
}

/// The macro a create request defines: its description, its serial number
/// (0 when left out) and its items as `item_ok` says.
pub fn macro_definition(input: CreateMacroInput) -> (r: MacroDefinition)
    ensures
        r.description == input.description,
        r.serial_number == or_number(input.serial_number, 0u64),
        r.items@.len() == input.items@.len(),
        forall|k: int| 0 <= k < r.items@.len() ==> item_ok(input.items@[k], #[trigger] r.items@[k]),
{
    let CreateMacroInput { description, serial_number, items } = input;
    let mut rest = items;
    let ghost all = rest@;
    let n = rest.len();
    let mut out: Vec<MacroItem> = Vec::new();
    let mut k: usize = 0;
    proof {
        assert(all.subrange(0, n as int) =~= all);
    }
    while k < n
        invariant
            n == all.len(),
            k <= n,
            rest@ == all.subrange(k as int, n as int),
            out@.len() == k,
            forall|j: int| 0 <= j < k ==> item_ok(all[j], #[trigger] out@[j]),
        decreases n - k,
    {
        let item = rest.remove(0);
        proof {
            assert(item == all[k as int]);
            assert(rest@ =~= all.subrange(k + 1, n as int));
        }
        out.push(macro_item(item));
        k += 1;
    }
    MacroDefinition {
        description,
        serial_number: match serial_number {
            Some(s) => s,
            None => 0,
        },
        items: out,
    }
}

pub open spec fn rules_of(o: Option<Vec<ProxyInterceptRuleInput>>) -> Seq<ProxyInterceptRuleInput> {
    match o {
        Some(v) => v@,
        None => Seq::empty(),
    }
}

/// Each of `rules` is the sent form of the corresponding input rule.
pub open spec fn rules_ok(inputs: Seq<ProxyInterceptRuleInput>, rules: Seq<ProxyInterceptRule>) -> bool {
    rules.len() == inputs.len() && forall|k: int|
        0 <= k < rules.len() ==> proto_rule_of(inputs[k], #[trigger] rules[k])
}

fn proto_rules(o: Option<Vec<ProxyInterceptRuleInput>>) -> (r: Vec<ProxyInterceptRule>)
    ensures
        rules_ok(rules_of(o), r@),
{
    let mut rest = match o {
        Some(v) => v,
        None => Vec::new(),
    };
    let ghost all = rest@;
    let n = rest.len();
    let mut out: Vec<ProxyInterceptRule> = Vec::new();
    let mut k: usize = 0;
    proof {
        assert(all.subrange(0, n as int) =~= all);
    }
    while k < n
        invariant
            n == all.len(),
            all == rules_of(o),
            k <= n,
            rest@ == all.subrange(k as int, n as int),
            out@.len() == k,
            forall|j: int| 0 <= j < k ==> proto_rule_of(all[j], #[trigger] out@[j]),
        decreases n - k,
    {
        let rule = rest.remove(0);
        proof {
            assert(rule == all[k as int]);
            assert(rest@ =~= all.subrange(k + 1, n as int));
        }
        out.push(rule.into_proto());
        k += 1;
    }
    out
}

/// The intercept configuration to apply: the switches as given, the rule
/// lists converted (none when left out), and the existing rules kept
/// unless a replacement is asked for.
pub fn proxy_intercept_config_request(input: ProxyInterceptConfigInput) -> (r: ProxyInterceptConfigRequest)
    ensures
        r.master_intercept_enabled == input.master_intercept_enabled,
        r.request_do_intercept == input.request_do_intercept,
        r.request_auto_content_length == input.request_auto_content_length,
        r.response_do_intercept == input.response_do_intercept,
        r.response_auto_content_length == input.response_auto_content_length,
        r.websocket_client_to_server == input.websocket_client_to_server,
        r.websocket_server_to_client == input.websocket_server_to_client,
        r.websocket_in_scope_only == input.websocket_in_scope_only,
        rules_ok(rules_of(input.request_rules), r.request_rules@),
        rules_ok(rules_of(input.response_rules), r.response_rules@),
        r.replace_request_rules == or_number(input.replace_request_rules, false),
        r.replace_response_rules == or_number(input.replace_response_rules, false),
        r.response_unhide_hidden_fields == input.response_unhide_hidden_fields,
        r.response_enable_disabled_fields == input.response_enable_disabled_fields,
        r.response_remove_input_length_limits == input.response_remove_input_length_limits,
        r.response_remove_javascript_validation == input.response_remove_javascript_validation,
        r.response_remove_all_javascript == input.response_remove_all_javascript,
        r.request_fix_missing_new_lines == input.request_fix_missing_new_lines,
{
    ProxyInterceptConfigRequest {
        master_intercept_enabled: input.master_intercept_enabled,
        request_do_intercept: input.request_do_intercept,
        request_auto_content_length: input.request_auto_content_length,
        response_do_intercept: input.response_do_intercept,
        response_auto_content_length: input.response_auto_content_length,
        websocket_client_to_server: input.websocket_client_to_server,
        websocket_server_to_client: input.websocket_server_to_client,
        websocket_in_scope_only: input.websocket_in_scope_only,
        request_rules: proto_rules(input.request_rules),
        response_rules: proto_rules(input.response_rules),
        replace_request_rules: match input.replace_request_rules {
            Some(b) => b,
            None => false,
        },
        replace_response_rules: match input.replace_response_rules {
            Some(b) => b,
            None => false,
        },
        response_unhide_hidden_fields: input.response_unhide_hidden_fields,
        response_enable_disabled_fields: input.response_enable_disabled_fields,
        response_remove_input_length_limits: input.response_remove_input_length_limits,
        response_remove_javascript_validation: input.response_remove_javascript_validation,
        response_remove_all_javascript: input.response_remove_all_javascript,
        request_fix_missing_new_lines: input.request_fix_missing_new_lines,
    }
}

/// An intercept configuration request that changes nothing: no switch set,
/// no rules, nothing replaced.
pub fn empty_proxy_intercept_config_request() -> (r: ProxyInterceptConfigRequest)
    ensures
        r.master_intercept_enabled is None && r.request_do_intercept is None
            && r.request_auto_content_length is None && r.response_do_intercept is None
            && r.response_auto_content_length is None && r.websocket_client_to_server is None
            && r.websocket_server_to_client is None && r.websocket_in_scope_only is None,
        r.request_rules@.len() == 0 && r.response_rules@.len() == 0,
        !r.replace_request_rules && !r.replace_response_rules,
        r.response_unhide_hidden_fields is None && r.response_enable_disabled_fields is None
            && r.response_remove_input_length_limits is None
            && r.response_remove_javascript_validation is None
            && r.response_remove_all_javascript is None && r.request_fix_missing_new_lines is None,
{
    ProxyInterceptConfigRequest {
        master_intercept_enabled: None,
        request_do_intercept: None,
        request_auto_content_length: None,
        response_do_intercept: None,
        response_auto_content_length: None,
        websocket_client_to_server: None,
        websocket_server_to_client: None,
        websocket_in_scope_only: None,
        request_rules: Vec::new(),
        response_rules: Vec::new(),
        replace_request_rules: false,
        replace_response_rules: false,
        response_unhide_hidden_fields: None,
        response_enable_disabled_fields: None,
        response_remove_input_length_limits: None,
        response_remove_javascript_validation: None,
        response_remove_all_javascript: None,
        request_fix_missing_new_lines: None,
    }
}

fn prefixed(prefix: &str, message: String) -> (r: String)
    ensures
        r@ == prefix@ + message@,
{
    let p = chars_of(prefix);
    let m = chars_of(message.as_str());
    string_from_chars(crate::css_escape::concat_chars(p, m.as_slice()).as_slice())
}

/// The decision on an intercepted message: its replacement is the decoded
/// `message_base64` (none when absent); Base64 that does not decode is
/// refused with `invalid message_base64: ` and the decoder's message.
pub fn control_message_request(input: ControlInterceptedMessageInput) -> (r: Result<
    ControlInterceptedMessageRequest,
    String,
>)
    ensures
        match r {
            Ok(q) => q.id == input.id && q.action == input.action && match input.message_base64 {
                Some(b) => base64_standard_decode(b@) matches Ok(bytes) && q.message@ == bytes,
                None => q.message@.len() == 0,
            },
            Err(e) => input.message_base64 matches Some(b) && base64_standard_decode(b@) matches Err(
                m,
            ) && e@ == "invalid message_base64: "@ + m,
        },
        (input.message_base64 is None || base64_standard_decode(input.message_base64->0@) is Ok)
            ==> r is Ok,
{
    let message = match input.message_base64 {
        Some(value) => match base64_decode(value.as_str()) {
            Ok(bytes) => bytes,
            Err(m) => {
                return Err(prefixed("invalid message_base64: ", m));
            },
        },
        None => Vec::new(),
    };
    Ok(ControlInterceptedMessageRequest { id: input.id, action: input.action, message })
}

/// The decision on an intercepted WebSocket message: the payload is replaced
/// exactly when `payload_base64` is given (empty Base64 replaces it with
/// nothing); Base64 that does not decode is refused with
/// `invalid payload_base64: ` and the decoder's message.
pub fn control_websocket_message_request(input: ControlInterceptedWebSocketMessageInput) -> (r: Result<
    ControlInterceptedWebSocketMessageRequest,
    String,
>)
    ensures
        match r {
            Ok(q) => q.id == input.id && q.action == input.action && q.replace_payload
                == (input.payload_base64 is Some) && match input.payload_base64 {
                Some(b) => base64_standard_decode(b@) matches Ok(bytes) && q.payload@ == bytes,
                None => q.payload@.len() == 0,
            },
            Err(e) => input.payload_base64 matches Some(b) && base64_standard_decode(b@) matches Err(
                m,
            ) && e@ == "invalid payload_base64: "@ + m,
        },
        (input.payload_base64 is None || base64_standard_decode(input.payload_base64->0@) is Ok)
            ==> r is Ok,
{
    let replace_payload = input.payload_base64.is_some();
    let payload = match input.payload_base64 {
        Some(value) => match base64_decode(value.as_str()) {
            Ok(bytes) => bytes,
            Err(m) => {
                return Err(prefixed("invalid payload_base64: ", m));
            },
        },
        None => Vec::new(),
    };
    Ok(
        ControlInterceptedWebSocketMessageRequest {
            id: input.id,
            action: input.action,
            payload,
            replace_payload,
        },
    )
}

pub open spec fn phase_text(p: Option<ProxyRulePhaseInput>) -> Seq<char> {
    match p {
        Some(ProxyRulePhaseInput::Response) => "response"@,
        _ => "request"@,
    }
}

pub open spec fn rule_action_text(a: Option<ProxyRuleActionInput>) -> Seq<char> {
    match a {
        Some(ProxyRuleActionInput::Intercept) => "intercept"@,
        Some(ProxyRuleActionInput::Drop) => "drop"@,
        Some(ProxyRuleActionInput::Edit) => "edit"@,
        _ => "forward"@,
    }
}

/// The proxy rule to register: id `default`, the request phase, forwarding
/// and enabled unless told otherwise; a blank `url_contains` is refused
/// with the message `url_contains_required`.
pub fn proxy_rule_request(input: RegisterProxyRuleInput) -> (r: Result<RegisterProxyRuleRequest, String>)
    ensures
        match r {
            Ok(q) => {
                &&& trim_seq(input.url_contains@).len() > 0
                &&& q.id@ == or_text(input.id, "default"@)
                &&& q.url_contains == input.url_contains
                &&& q.phase@ == phase_text(input.phase)
                &&& q.action@ == rule_action_text(input.rule_action)
                &&& q.match_text@ == or_text(input.match_text, Seq::empty())
                &&& q.replacement@ == or_text(input.replace, Seq::empty())
                &&& q.header_name@ == or_text(input.header_name, Seq::empty())
                &&& q.header_value@ == or_text(input.header_value, Seq::empty())
                &&& q.enabled == or_number(input.enabled, true)
            },
            Err(e) => trim_seq(input.url_contains@).len() == 0 && e@
                == crate::dispatch::url_contains_required(),
        },
{
    proof {
        reveal_strlit("");
        assert(""@ =~= Seq::<char>::empty());
    }
    if trim_chars(chars_of(input.url_contains.as_str()).as_slice()).len() == 0 {
        return Err(
            string_from_chars(chars_of("`url_contains` is required and must not be empty").as_slice()),
        );
    }
    let phase = match input.phase {
        Some(p) => p.as_str(),
        None => "request",
    };
    let action = match input.rule_action {
        Some(a) => a.as_str(),
        None => "forward",
    };
    Ok(
        RegisterProxyRuleRequest {
            id: text_or(input.id, "default"),
            url_contains: input.url_contains,
            phase: string_from_chars(chars_of(phase).as_slice()),
            action: string_from_chars(chars_of(action).as_slice()),
            match_text: text_or(input.match_text, ""),
            replacement: text_or(input.replace, ""),
            header_name: text_or(input.header_name, ""),
            header_value: text_or(input.header_value, ""),
            enabled: match input.enabled {
                Some(b) => b,
                None => true,
            },
        },
    )
}

/// The audit kind a scan asks for: its `audit_type` in lower case,
/// `passive` when left out.
pub open spec fn audit_kind(i: AuditInput) -> Seq<char> {
    match i.audit_type {
        Some(t) => unicode_lowercase(t@),
        None => "passive"@,
    }
}

/// The audit to start: a passive or active audit of `url` (any other kind is
/// refused with `audit_type must be passive or active`), with no
/// configuration, pool or time limits and in scope only unless told
/// otherwise.
pub fn audit_request(input: AuditInput) -> (r: Result<StartAuditRequest, String>)
    ensures
        match r {
            Ok(q) => {
                &&& (audit_kind(input) == "passive"@ || audit_kind(input) == "active"@)
                &&& q.url == input.url
                &&& q.audit_type@ == audit_kind(input)
                &&& q.scan_configuration_id@ == or_text(input.scan_configuration_id, Seq::empty())
                &&& q.resource_pool_id@ == or_text(input.resource_pool_id, Seq::empty())
                &&& q.timeout_seconds == or_number(input.timeout_seconds, 0u64)
                &&& q.stable_seconds == or_number(input.stable_seconds, 0u64)
                &&& q.include_out_of_scope == or_number(input.include_out_of_scope, false)
            },
            Err(e) => !(audit_kind(input) == "passive"@ || audit_kind(input) == "active"@) && e@
                == "audit_type must be passive or active"@,
        },
{
    proof {
        reveal_strlit("");
        assert(""@ =~= Seq::<char>::empty());
    }
    let kind: Vec<char> = match &input.audit_type {
        Some(t) => to_unicode_lowercase(chars_of(t.as_str()).as_slice()),
        None => chars_of("passive"),
    };
    let passive = crate::text::chars_eq(kind.as_slice(), chars_of("passive").as_slice());
    let active = crate::text::chars_eq(kind.as_slice(), chars_of("active").as_slice());
    if !(passive || active) {
        return Err(string_from_chars(chars_of("audit_type must be passive or active").as_slice()));
    }
    Ok(
        StartAuditRequest {
            url: input.url,
            audit_type: string_from_chars(kind.as_slice()),
            scan_configuration_id: text_or(input.scan_configuration_id, ""),
            resource_pool_id: text_or(input.resource_pool_id, ""),
            timeout_seconds: match input.timeout_seconds {
                Some(t) => t,
                None => 0,
            },
            stable_seconds: match input.stable_seconds {
                Some(t) => t,
                None => 0,
            },
            include_out_of_scope: match input.include_out_of_scope {
                Some(b) => b,
                None => false,
            },
        },
    )
}

fn utf8_of(s: String) -> (r: Vec<u8>)
    ensures
        r@ == encode_utf8(s@),
{
    vstd::slice::slice_to_vec(s.as_str().as_bytes())
}

/// The BCheck test to run: over HTTPS unless told otherwise, on port 443
/// (80 without HTTPS) unless given, with an empty response and host when
/// left out.
pub fn bcheck_request(input: BCheckTestInput) -> (r: TestBCheckRequest)
    ensures
        r.script == input.script,
        r.request@ == encode_utf8(input.request@),
        r.response@ == encode_utf8(or_text(input.response, Seq::empty())),
        r.host@ == or_text(input.host, Seq::empty()),
        r.https == or_number(input.https, true),
        r.port == or_number(input.port, if or_number(input.https, true) { 443u32 } else { 80u32 }),
{
    proof {
        reveal_strlit("");
        assert(""@ =~= Seq::<char>::empty());
    }
    let https = match input.https {
        Some(b) => b,
        None => true,
    };
    let port = match input.port {
        Some(p) => p,
        None => if https {
            443
        } else {
            80
        },
    };
    TestBCheckRequest {
        script: input.script,
        request: utf8_of(input.request),
        response: utf8_of(text_or(input.response, "")),
        host: text_or(input.host, ""),
        port,
        https,
    }
}

/// The bytes of a binary WebSocket message given in standard Base64;
/// Base64 that does not decode is refused with `invalid base64: ` and the
/// decoder's message.
pub fn websocket_binary_data(data: &str) -> (r: Result<Vec<u8>, String>)
    ensures
        match r {
            Ok(b) => base64_standard_decode(data@) == Ok::<Seq<u8>, Seq<char>>(b@),
            Err(e) => base64_standard_decode(data@) matches Err(m) && e@ == "invalid base64: "@ + m,
        },
{
    match base64_decode(data) {
        Ok(bytes) => Ok(bytes),
        Err(m) => Err(prefixed("invalid base64: ", m)),
    }
}

} // verus!
