//! What the tools hand back: sent requests and intercepted messages with
//! their bodies bounded, and the proxy-settings operation a request names.
use crate::http_text::{extract_headers_only, headers_only_spec};
use crate::inputs::{ProxyInterceptRuleInput, ProxySettingsUpdateInput};
use crate::payload::{filter_and_truncate_payload, payload_rendered, payload_text, utf8_lossy};
use crate::proto::{ProxyInterceptRule, SendRequestResponse};
use crate::text::{chars_eq, chars_of};
use crate::tools::{base64_standard, encode_bounded_base64, proto_rule_of, DEFAULT_MAX_BODY_LENGTH};
use vstd::prelude::*;

verus! {

// ---------------------------------------------------------------------------
// Sent requests
// ---------------------------------------------------------------------------

/// A request as sent and the response to it, rendered for display.
#[derive(Debug, Clone)]
pub struct SendResponseOutput {
    pub request: String,
    pub response: Option<String>,
    pub status: Option<u32>,
    pub extracted: Option<String>,
    pub truncated: Option<bool>,
}

pub open spec fn opt_view(o: Option<&str>) -> Option<Seq<char>> {
    match o {
        Some(s) => Some(s@),
        None => None,
    }
}

/// `r` renders the exchange: the request by its head alone when only
/// headers are asked for (never cut), else as any payload; the response,
/// when there is one, with the projections asked for; `truncated` set when
/// either was cut.
pub open spec fn rendered_exchange(
    response: SendRequestResponse,
    headers_only: bool,
    css: Option<Seq<char>>,
    json: Option<Seq<char>>,
    cap: Option<usize>,
    r: SendResponseOutput,
    req_cut: bool,
    resp_cut: bool,
) -> bool {
    &&& (if headers_only {
        r.request@ == headers_only_spec(utf8_lossy(response.request@)) && !req_cut
    } else {
        payload_rendered(response.request@, None, false, None, None, cap, (r.request@, req_cut))
    })
    &&& (if response.has_response {
        r.response matches Some(t) && payload_rendered(
            response.response@,
            None,
            headers_only,
            css,
            json,
            cap,
            (t@, resp_cut),
        )
    } else {
        r.response is None && !resp_cut
    })
    &&& r.truncated == (if req_cut || resp_cut {
        Some(true)
    } else {
        None
    })
}

/// Renders an exchange: the request alone by its head when only headers are
/// asked for, else rendered like any payload; the response, when there is
/// one, rendered with the projections asked for; bodies bounded by
/// `max_length` (4096 bytes unless given).  `json_projection` is the
/// JSONPath section of the response body, when one was asked for.
pub fn to_send_output_with_options(
    response: SendRequestResponse,
    headers_only: bool,
    extract_css: Option<&str>,
    json_projection: Option<&str>,
    max_length: Option<usize>,
) -> (r: SendResponseOutput)
    ensures
        exists|req_cut: bool, resp_cut: bool|
            #[trigger] rendered_exchange(
                response,
                headers_only,
                opt_view(extract_css),
                opt_view(json_projection),
                Some(cap_of(max_length)),
                r,
                req_cut,
                resp_cut,
            ),
        r.status == (if response.has_response {
            Some(response.status)
        } else {
            None
        }),
        r.extracted is None,
{
    let cap = Some(
        match max_length {
            Some(m) => m,
            None => DEFAULT_MAX_BODY_LENGTH,
        },
    );
    assert(cap == Some(cap_of(max_length)));
    let (req_str, req_cut) = if headers_only {
        let raw = payload_text(response.request.as_slice());
        (extract_headers_only(raw.as_str()), false)
    } else {
        filter_and_truncate_payload(response.request.as_slice(), None, false, None, None, cap)
    };
    let (resp_str, resp_cut) = if response.has_response {
        let (t, cut) = filter_and_truncate_payload(
            response.response.as_slice(),
            None,
            headers_only,
            extract_css,
            json_projection,
            cap,
        );
        (Some(t), cut)
    } else {
        (None, false)
    };
    let truncated = if req_cut || resp_cut {
        Some(true)
    } else {
        None
    };
    let status = if response.has_response {
        Some(response.status)
    } else {
        None
    };
    let out = SendResponseOutput {
        request: req_str,
        response: resp_str,
        status,
        extracted: None,
        truncated,
    };
    assert(rendered_exchange(
        response,
        headers_only,
        opt_view(extract_css),
        opt_view(json_projection),
        Some(cap_of(max_length)),
        out,
        req_cut,
        resp_cut,
    ));
    out
}

// ---------------------------------------------------------------------------
// Intercepted messages
// ---------------------------------------------------------------------------

/// A body shown as bounded Base64: absent unless bodies are asked for and
/// the body is not empty; its length always.
pub struct BodyView {
    pub base64: Option<String>,
    pub truncated: Option<bool>,
}

pub open spec fn bounded(bytes: Seq<u8>, cap: usize) -> Seq<u8> {
    if bytes.len() > cap {
        bytes.subrange(0, cap as int)
    } else {
        bytes
    }
}

pub open spec fn cap_of(max_length: Option<usize>) -> usize {
    match max_length {
        Some(m) => m,
        None => DEFAULT_MAX_BODY_LENGTH,
    }
}

/// The bounded Base64 view of a body (see `BodyView`).
pub fn body_view(bytes: &[u8], include_bodies: bool, max_length: Option<usize>) -> (r: BodyView)
    ensures
        include_bodies && bytes@.len() > 0 ==> (r.base64 matches Some(b) && b@ == base64_standard(
            bounded(bytes@, cap_of(max_length)),
        ) && r.truncated == (if bytes@.len() > cap_of(max_length) {
            Some(true)
        } else {
            None
        })),
        !(include_bodies && bytes@.len() > 0) ==> r.base64 is None && r.truncated is None,
{
    if include_bodies && bytes.len() > 0 {
        let (b64, cut, _) = encode_bounded_base64(bytes, max_length);
        BodyView {
            base64: Some(b64),
            truncated: if cut {
                Some(true)
            } else {
                None
            },
        }
    } else {
        BodyView { base64: None, truncated: None }
    }
}

/// A message held at the proxy's interception point.
#[derive(Debug, Clone)]
pub struct InterceptedMessage {
    pub id: u64,
    pub direction: String,
    pub phase: String,
    pub url: String,
    pub method: String,
    pub status: u32,
    pub is_in_scope: bool,
    pub request: Vec<u8>,
    pub response: Vec<u8>,
}

#[derive(Debug, Clone)]
pub struct InterceptedMessageOutput {
    pub id: u64,
    pub direction: String,
    pub phase: String,
    pub url: String,
    pub method: String,
    pub status: u32,
    pub is_in_scope: bool,
    pub request_base64: Option<String>,
    pub request_length: Option<usize>,
    pub request_truncated: Option<bool>,
    pub response_base64: Option<String>,
    pub response_length: Option<usize>,
    pub response_truncated: Option<bool>,
}

/// The metadata of an intercepted message, with its bodies as bounded
/// Base64 only when asked for; a response length only for a response.
pub fn intercepted_message_output(
    item: InterceptedMessage,
    include_bodies: bool,
    max_body_length: Option<usize>,
) -> (r: InterceptedMessageOutput)
    ensures
        r.id == item.id && r.direction == item.direction && r.phase == item.phase && r.url
            == item.url && r.method == item.method && r.status == item.status && r.is_in_scope
            == item.is_in_scope,
        r.request_length == Some(item.request@.len() as usize),
        r.response_length == (if item.response@.len() > 0 {
            Some(item.response@.len() as usize)
        } else {
            None
        }),
        include_bodies && item.request@.len() > 0 ==> (r.request_base64 matches Some(b) && b@
            == base64_standard(bounded(item.request@, cap_of(max_body_length))) && r.request_truncated
            == (if item.request@.len() > cap_of(max_body_length) {
            Some(true)
        } else {
            None
        })),
        !(include_bodies && item.request@.len() > 0) ==> r.request_base64 is None
            && r.request_truncated is None,
        include_bodies && item.response@.len() > 0 ==> (r.response_base64 matches Some(b) && b@
            == base64_standard(bounded(item.response@, cap_of(max_body_length)))
            && r.response_truncated == (if item.response@.len() > cap_of(max_body_length) {
            Some(true)
        } else {
            None
        })),
        !(include_bodies && item.response@.len() > 0) ==> r.response_base64 is None
            && r.response_truncated is None,
{
    let req = body_view(item.request.as_slice(), include_bodies, max_body_length);
    let resp = body_view(item.response.as_slice(), include_bodies, max_body_length);
    let request_length = item.request.len();
    let response_length = if item.response.len() > 0 {
        Some(item.response.len())
    } else {
        None
    };
    InterceptedMessageOutput {
        id: item.id,
        direction: item.direction,
        phase: item.phase,
        url: item.url,
        method: item.method,
        status: item.status,
        is_in_scope: item.is_in_scope,
        request_base64: req.base64,
        request_length: Some(request_length),
        request_truncated: req.truncated,
        response_base64: resp.base64,
        response_length,
        response_truncated: resp.truncated,
    }
}

/// A WebSocket message held at the proxy's interception point.
#[derive(Debug, Clone)]
pub struct InterceptedWebSocketMessage {
    pub id: u64,
    pub web_socket_id: u32,
    pub upgrade_url: String,
    pub direction: String,
    pub message_type: String,
    pub phase: String,
    pub payload: Vec<u8>,
}

#[derive(Debug, Clone)]
pub struct InterceptedWebSocketMessageOutput {
    pub id: u64,
    pub web_socket_id: u32,
    pub upgrade_url: String,
    pub direction: String,
    pub message_type: String,
    pub phase: String,
    pub payload_base64: Option<String>,
    pub payload_length: Option<usize>,
    pub payload_truncated: Option<bool>,
}

/// The metadata of an intercepted WebSocket message, its payload as bounded
/// Base64 only when asked for.
pub fn intercepted_websocket_message_output(
    item: InterceptedWebSocketMessage,
    include_bodies: bool,
    max_body_length: Option<usize>,
) -> (r: InterceptedWebSocketMessageOutput)
    ensures
        r.id == item.id && r.web_socket_id == item.web_socket_id && r.upgrade_url
            == item.upgrade_url && r.direction == item.direction && r.message_type
            == item.message_type && r.phase == item.phase,
        r.payload_length == Some(item.payload@.len() as usize),
        include_bodies && item.payload@.len() > 0 ==> (r.payload_base64 matches Some(b) && b@
            == base64_standard(bounded(item.payload@, cap_of(max_body_length)))
            && r.payload_truncated == (if item.payload@.len() > cap_of(max_body_length) {
            Some(true)
        } else {
            None
        })),
        !(include_bodies && item.payload@.len() > 0) ==> r.payload_base64 is None
            && r.payload_truncated is None,
{
    let view = body_view(item.payload.as_slice(), include_bodies, max_body_length);
    let payload_length = item.payload.len();
    InterceptedWebSocketMessageOutput {
        id: item.id,
        web_socket_id: item.web_socket_id,
        upgrade_url: item.upgrade_url,
        direction: item.direction,
        message_type: item.message_type,
        phase: item.phase,
        payload_base64: view.base64,
        payload_length: Some(payload_length),
        payload_truncated: view.truncated,
    }
}

// ---------------------------------------------------------------------------
// Proxy settings
// ---------------------------------------------------------------------------

#[derive(Debug, Clone)]
pub struct ProxyListener {
    pub port: u32,
    pub running: bool,
    pub listen_mode: String,
    pub listen_specific_address: String,
    pub certificate_mode: String,
    pub enable_http2: bool,
    pub support_invisible_proxying: bool,
}

#[derive(Debug, Clone)]
pub struct ProxyScriptFilter {
    pub target: String,
    pub mode: String,
    pub script: String,
    pub script_id: String,
    pub script_name: String,
}

/// A change to the proxy settings.
#[derive(Debug, Clone)]
pub enum ProxySettingsOperation {
    ListenerUpsert(ProxyListener),
    ListenerDeletePort(u32),
    ScriptFilterUpsert(ProxyScriptFilter),
    ScriptFilterDeleteTarget(String),
    InterceptRuleUpsert { kind: String, index: Option<u32>, rule: ProxyInterceptRule },
    InterceptRuleDelete { kind: String, index: u32 },
    InterceptToggle {
        master_enabled: Option<bool>,
        request_enabled: Option<bool>,
        response_enabled: Option<bool>,
    },
}

fn or_text(o: Option<String>, default: &str) -> (r: String)
    ensures
        r@ == (match o {
            Some(s) => s@,
            None => default@,
        }),
{
    match o {
        Some(s) => s,
        None => default.to_owned(),
    }
}

pub open spec fn or_default(o: Option<String>, default: Seq<char>) -> Seq<char> {
    match o {
        Some(s) => s@,
        None => default,
    }
}

pub open spec fn or_empty(o: Option<String>) -> Seq<char> {
    or_default(o, Seq::empty())
}

pub open spec fn operation_error() -> Seq<char> {
    "operation must be listener_upsert, listener_delete, script_filter_upsert, script_filter_delete, intercept_rule_upsert, intercept_rule_delete, or intercept_toggle"@
}

fn is_op(op: &String, name: &str) -> (r: bool)
    ensures
        r == (op@ == name@),
{
    chars_eq(chars_of(op.as_str()).as_slice(), chars_of(name).as_slice())
}

/// The operation a settings update names, with its defaults filled in; an
/// error names the first missing field, or the unknown operation.
pub fn proxy_settings_operation(input: ProxySettingsUpdateInput) -> (r: Result<
    ProxySettingsOperation,
    &'static str,
>)
    ensures
        input.operation@ == "listener_upsert"@ ==> match input.port {
            Some(p) => r matches Ok(ProxySettingsOperation::ListenerUpsert(l)) && l.port == p
                && l.running == (match input.running {
                Some(b) => b,
                None => true,
            }) && l.listen_mode@ == or_default(input.listen_mode, "loopback_only"@)
                && l.listen_specific_address@ == or_empty(input.listen_specific_address)
                && l.certificate_mode@ == or_default(input.certificate_mode, "per_host"@)
                && l.enable_http2 == (match input.enable_http2 {
                Some(b) => b,
                None => true,
            }) && l.support_invisible_proxying == (match input.support_invisible_proxying {
                Some(b) => b,
                None => false,
            }),
            None => r matches Err(e) && e@ == "port is required"@,
        },
        input.operation@ == "listener_delete"@ ==> match input.port {
            Some(p) => r matches Ok(ProxySettingsOperation::ListenerDeletePort(q)) && q == p,
            None => r matches Err(e) && e@ == "port is required"@,
        },
        input.operation@ == "script_filter_upsert"@ ==> match input.target {
            Some(t) => r matches Ok(ProxySettingsOperation::ScriptFilterUpsert(f)) && f.target == t
                && f.mode@ == or_default(input.mode, "script"@) && f.script@ == or_empty(
                input.script,
            ) && f.script_id@ == or_empty(input.script_id) && f.script_name@ == or_empty(
                input.script_name,
            ),
            None => r matches Err(e) && e@ == "target is required"@,
        },
        input.operation@ == "script_filter_delete"@ ==> match input.target {
            Some(t) => r matches Ok(ProxySettingsOperation::ScriptFilterDeleteTarget(u)) && u == t,
            None => r matches Err(e) && e@ == "target is required"@,
        },
        input.operation@ == "intercept_rule_upsert"@ ==> match (input.kind, input.rule) {
            (Some(k), Some(x)) => r matches Ok(
                ProxySettingsOperation::InterceptRuleUpsert { kind, index, rule },
            ) && kind == k && index == input.index && proto_rule_of(x, rule),
            (None, _) => r matches Err(e) && e@ == "kind is required"@,
            (Some(_), None) => r matches Err(e) && e@ == "rule is required"@,
        },
        input.operation@ == "intercept_rule_delete"@ ==> match (input.kind, input.index) {
            (Some(k), Some(i)) => r matches Ok(ProxySettingsOperation::InterceptRuleDelete { kind, index })
                && kind == k && index == i,
            (None, _) => r matches Err(e) && e@ == "kind is required"@,
            (Some(_), None) => r matches Err(e) && e@ == "index is required"@,
        },
        input.operation@ == "intercept_toggle"@ ==> if input.master_enabled is None
            && input.request_enabled is None && input.response_enabled is None {
            r matches Err(e) && e@
                == "intercept_toggle requires master_enabled, request_enabled, or response_enabled"@
        } else {
            r matches Ok(
                ProxySettingsOperation::InterceptToggle {
                    master_enabled,
                    request_enabled,
                    response_enabled,
                },
            ) && master_enabled == input.master_enabled && request_enabled == input.request_enabled
                && response_enabled == input.response_enabled
        },
        !(input.operation@ == "listener_upsert"@ || input.operation@ == "listener_delete"@
            || input.operation@ == "script_filter_upsert"@ || input.operation@
            == "script_filter_delete"@ || input.operation@ == "intercept_rule_upsert"@
            || input.operation@ == "intercept_rule_delete"@ || input.operation@
            == "intercept_toggle"@) ==> (r matches Err(e) && e@ == operation_error()),
{
    proof {
        reveal_strlit("listener_upsert");
        reveal_strlit("listener_delete");
        reveal_strlit("script_filter_upsert");
        reveal_strlit("script_filter_delete");
        reveal_strlit("intercept_rule_upsert");
        reveal_strlit("intercept_rule_delete");
        reveal_strlit("intercept_toggle");
        reveal_strlit("");
        assert(""@ =~= Seq::<char>::empty());
        assert("listener_upsert"@.len() == 15 && "listener_delete"@.len() == 15);
        assert("script_filter_upsert"@.len() == 20 && "script_filter_delete"@.len() == 20);
        assert("intercept_rule_upsert"@.len() == 21 && "intercept_rule_delete"@.len() == 21);
        assert("intercept_toggle"@.len() == 16);
        assert("listener_upsert"@[9] != "listener_delete"@[9]);
        assert("script_filter_upsert"@[14] != "script_filter_delete"@[14]);
        assert("intercept_rule_upsert"@[15] != "intercept_rule_delete"@[15]);
    }
    let op = &input.operation;
    if is_op(op, "listener_upsert") {
        let port = match input.port {
            Some(p) => p,
            None => {
                return Err("port is required");
            },
        };
        Ok(
            ProxySettingsOperation::ListenerUpsert(
                ProxyListener {
                    port,
                    running: match input.running {
                        Some(b) => b,
                        None => true,
                    },
                    listen_mode: or_text(input.listen_mode, "loopback_only"),
                    listen_specific_address: or_text(input.listen_specific_address, ""),
                    certificate_mode: or_text(input.certificate_mode, "per_host"),
                    enable_http2: match input.enable_http2 {
                        Some(b) => b,
                        None => true,
                    },
                    support_invisible_proxying: match input.support_invisible_proxying {
                        Some(b) => b,
                        None => false,
                    },
                },
            ),
        )
    } else if is_op(op, "listener_delete") {
        match input.port {
            Some(p) => Ok(ProxySettingsOperation::ListenerDeletePort(p)),
            None => Err("port is required"),
        }
    } else if is_op(op, "script_filter_upsert") {
        let target = match input.target {
            Some(t) => t,
            None => {
                return Err("target is required");
            },
        };
        Ok(
            ProxySettingsOperation::ScriptFilterUpsert(
                ProxyScriptFilter {
                    target,
                    mode: or_text(input.mode, "script"),
                    script: or_text(input.script, ""),
                    script_id: or_text(input.script_id, ""),
                    script_name: or_text(input.script_name, ""),
                },
            ),
        )
    } else if is_op(op, "script_filter_delete") {
        match input.target {
            Some(t) => Ok(ProxySettingsOperation::ScriptFilterDeleteTarget(t)),
            None => Err("target is required"),
        }
    } else if is_op(op, "intercept_rule_upsert") {
        let kind = match input.kind {
            Some(k) => k,
            None => {
                return Err("kind is required");
            },
        };
        let rule = match input.rule {
            Some(x) => x,
            None => {
                return Err("rule is required");
            },
        };
        Ok(ProxySettingsOperation::InterceptRuleUpsert { kind, index: input.index, rule: rule.into_proto() })
    } else if is_op(op, "intercept_rule_delete") {
        let kind = match input.kind {
            Some(k) => k,
            None => {
                return Err("kind is required");
            },
        };
        match input.index {
            Some(i) => Ok(ProxySettingsOperation::InterceptRuleDelete { kind, index: i }),
            None => Err("index is required"),
        }
    } else if is_op(op, "intercept_toggle") {
        if input.master_enabled.is_none() && input.request_enabled.is_none()
            && input.response_enabled.is_none() {
            return Err(
                "intercept_toggle requires master_enabled, request_enabled, or response_enabled",
            );
        }
        Ok(
            ProxySettingsOperation::InterceptToggle {
                master_enabled: input.master_enabled,
                request_enabled: input.request_enabled,
                response_enabled: input.response_enabled,
            },
        )
    } else {
        Err(
            "operation must be listener_upsert, listener_delete, script_filter_upsert, script_filter_delete, intercept_rule_upsert, intercept_rule_delete, or intercept_toggle",
        )
    }
}

// ---------------------------------------------------------------------------
// History items
// ---------------------------------------------------------------------------

/// A text, or nothing for an empty one.
pub fn non_empty(s: String) -> (r: Option<String>)
    ensures
        r == (if s@.len() == 0 {
            None
        } else {
            Some(s)
        }),
{
    if s.as_str().unicode_len() == 0 {
        None
    } else {
        Some(s)
    }
}

/// The page size of a history query: 100 unless given, at most 500.
pub fn history_page_limit(limit: Option<u32>) -> (r: Result<u32, &'static str>)
    ensures
        match limit {
            Some(l) => if l <= 500 {
                r == Ok::<u32, &'static str>(l)
            } else {
                r matches Err(e) && e@ == "limit must be at most 500"@
            },
            None => r == Ok::<u32, &'static str>(100),
        },
{
    let l = match limit {
        Some(l) => l,
        None => 100,
    };
    if l > 500 {
        Err("limit must be at most 500")
    } else {
        Ok(l)
    }
}

/// The bodies of a history item as shown.
#[derive(Debug, Clone)]
pub struct HistoryBodies {
    pub request_base64: Option<String>,
    pub request_length: Option<usize>,
    pub request_truncated: Option<bool>,
    pub response_base64: Option<String>,
    pub response_length: Option<usize>,
    pub response_truncated: Option<bool>,
    pub extracted_text: Option<String>,
    pub body_truncated: Option<bool>,
}

pub open spec fn nonempty_view(s: &str) -> Option<Seq<char>> {
    if s@.len() == 0 {
        None
    } else {
        Some(s@)
    }
}

/// The bodies of a history item: lengths always (the response's only when
/// there is one); when bodies are asked for, the request as bounded Base64
/// and the response both as bounded Base64 and rendered with the
/// projections asked for, `body_truncated` set when either form was cut.
pub fn history_bodies(
    request: &[u8],
    response: &[u8],
    has_response: bool,
    content_type: &str,
    include_bodies: bool,
    headers_only: bool,
    extract_css: Option<&str>,
    json_projection: Option<&str>,
    max_body_length: Option<usize>,
) -> (r: HistoryBodies)
    ensures
        r.request_length == Some(request@.len() as usize),
        include_bodies && request@.len() > 0 ==> (r.request_base64 matches Some(b) && b@
            == base64_standard(bounded(request@, cap_of(max_body_length))) && r.request_truncated
            == (if request@.len() > cap_of(max_body_length) {
            Some(true)
        } else {
            None
        })),
        !(include_bodies && request@.len() > 0) ==> r.request_base64 is None
            && r.request_truncated is None,
        r.response_length == (if has_response {
            Some(response@.len() as usize)
        } else {
            None
        }),
        include_bodies && has_response ==> {
            let cap = cap_of(max_body_length);
            let cut = response@.len() > cap;
            &&& r.response_base64 matches Some(b) && b@ == base64_standard(bounded(response@, cap))
            &&& r.response_truncated == (if cut {
                Some(true)
            } else {
                None
            })
            &&& r.extracted_text is Some
            &&& exists|rendered_cut: bool|
                #[trigger] payload_rendered(
                    response@,
                    nonempty_view(content_type),
                    headers_only,
                    opt_view(extract_css),
                    opt_view(json_projection),
                    Some(cap),
                    (r.extracted_text->0@, rendered_cut),
                ) && r.body_truncated == (if rendered_cut || cut {
                    Some(true)
                } else {
                    None
                })
        },
        !(include_bodies && has_response) ==> r.response_base64 is None && r.response_truncated is None
            && r.extracted_text is None && r.body_truncated is None,
{
    let cap = match max_body_length {
        Some(m) => m,
        None => DEFAULT_MAX_BODY_LENGTH,
    };
    let req = body_view(request, include_bodies, Some(cap));
    let response_length = if has_response {
        Some(response.len())
    } else {
        None
    };
    if include_bodies && has_response {
        assert(cap == cap_of(max_body_length));
        let ct = if content_type.unicode_len() == 0 {
            None
        } else {
            Some(content_type)
        };
        assert(opt_view(ct) == nonempty_view(content_type));
        let (text, rendered_cut) = filter_and_truncate_payload(
            response,
            ct,
            headers_only,
            extract_css,
            json_projection,
            Some(cap),
        );
        let (b64, cut, _) = encode_bounded_base64(response, Some(cap));
        let out = HistoryBodies {
            request_base64: req.base64,
            request_length: Some(request.len()),
            request_truncated: req.truncated,
            response_base64: Some(b64),
            response_length,
            response_truncated: if cut {
                Some(true)
            } else {
                None
            },
            extracted_text: Some(text),
            body_truncated: if rendered_cut || cut {
                Some(true)
            } else {
                None
            },
        };
        assert(payload_rendered(
            response@,
            nonempty_view(content_type),
            headers_only,
            opt_view(extract_css),
            opt_view(json_projection),
            Some(cap),
            (out.extracted_text->0@, rendered_cut),
        ));
        assert(out.response_base64 matches Some(b) && b@ == base64_standard(bounded(response@, cap)));
        assert(out.response_truncated == (if response@.len() > cap {
            Some(true)
        } else {
            None
        }));
        out
    } else {
        HistoryBodies {
            request_base64: req.base64,
            request_length: Some(request.len()),
            request_truncated: req.truncated,
            response_base64: None,
            response_length,
            response_truncated: None,
            extracted_text: None,
            body_truncated: None,
        }
    }
}

// ---------------------------------------------------------------------------
// Item details
// ---------------------------------------------------------------------------

/// The bodies of one proxy or logger item in detail.
#[derive(Debug, Clone)]
pub struct DetailBodies {
    pub request_base64: Option<String>,
    pub request_length: Option<usize>,
    pub request_truncated: Option<bool>,
    pub response_base64: Option<String>,
    pub response_length: Option<usize>,
    pub response_truncated: Option<bool>,
    pub request_text: Option<String>,
    pub response_text: Option<String>,
    pub truncated: Option<bool>,
}

/// `r` shows an item in detail: each non-empty body as bounded Base64; the
/// request's text by its head alone when only headers are asked for, else
/// rendered; the response's text, when there is a response, rendered with
/// the projections asked for; `truncated` set when anything was cut.
pub open spec fn detail_ok(
    request: Seq<u8>,
    response: Seq<u8>,
    headers_only: bool,
    css: Option<Seq<char>>,
    json: Option<Seq<char>>,
    cap: usize,
    r: DetailBodies,
    request_cut: bool,
    response_cut: bool,
) -> bool {
    let req_b64_cut = request.len() > 0 && request.len() > cap;
    let resp_b64_cut = response.len() > 0 && response.len() > cap;
    &&& r.request_length == Some(request.len() as usize)
    &&& (if request.len() > 0 {
        r.request_base64 matches Some(b) && b@ == base64_standard(bounded(request, cap))
    } else {
        r.request_base64 is None
    })
    &&& r.request_truncated == (if req_b64_cut {
        Some(true)
    } else {
        None
    })
    &&& r.response_length == (if response.len() > 0 {
        Some(response.len() as usize)
    } else {
        None
    })
    &&& (if response.len() > 0 {
        r.response_base64 matches Some(b) && b@ == base64_standard(bounded(response, cap))
    } else {
        r.response_base64 is None
    })
    &&& r.response_truncated == (if resp_b64_cut {
        Some(true)
    } else {
        None
    })
    &&& r.request_text is Some
    &&& (if headers_only {
        r.request_text->0@ == headers_only_spec(utf8_lossy(request))
    } else {
        payload_rendered(request, None, false, None, None, Some(cap), (r.request_text->0@, request_cut))
    })
    &&& (if response.len() > 0 {
        r.response_text matches Some(t) && payload_rendered(
            response,
            None,
            headers_only,
            css,
            json,
            Some(cap),
            (t@, response_cut),
        )
    } else {
        r.response_text is None && !response_cut
    })
    &&& r.truncated == (if response_cut || req_b64_cut || resp_b64_cut {
        Some(true)
    } else {
        None
    })
}

/// The bodies of an item in detail (see `detail_ok`), bounded by
/// `max_body_length` (4096 bytes unless given).
pub fn detail_bodies(
    request: &[u8],
    response: &[u8],
    headers_only: bool,
    extract_css: Option<&str>,
    json_projection: Option<&str>,
    max_body_length: Option<usize>,
) -> (r: DetailBodies)
    ensures
        exists|request_cut: bool, response_cut: bool|
            #[trigger] detail_ok(
                request@,
                response@,
                headers_only,
                opt_view(extract_css),
                opt_view(json_projection),
                cap_of(max_body_length),
                r,
                request_cut,
                response_cut,
            ),
{
    let cap = match max_body_length {
        Some(m) => m,
        None => DEFAULT_MAX_BODY_LENGTH,
    };
    let (req_b64, req_cut) = if request.len() > 0 {
        let (b, c, _) = encode_bounded_base64(request, Some(cap));
        (Some(b), c)
    } else {
        (None, false)
    };
    let (resp_b64, resp_cut) = if response.len() > 0 {
        let (b, c, _) = encode_bounded_base64(response, Some(cap));
        (Some(b), c)
    } else {
        (None, false)
    };
    let (req_text, request_cut) = if headers_only {
        let raw = payload_text(request);
        (extract_headers_only(raw.as_str()), false)
    } else {
        filter_and_truncate_payload(request, None, false, None, None, Some(cap))
    };
    let (resp_text, response_cut) = if response.len() > 0 {
        let (t, c) = filter_and_truncate_payload(
            response,
            None,
            headers_only,
            extract_css,
            json_projection,
            Some(cap),
        );
        (Some(t), c)
    } else {
        (None, false)
    };
    let out = DetailBodies {
        request_base64: req_b64,
        request_length: Some(request.len()),
        request_truncated: if req_cut {
            Some(true)
        } else {
            None
        },
        response_base64: resp_b64,
        response_length: if response.len() > 0 {
            Some(response.len())
        } else {
            None
        },
        response_truncated: if resp_cut {
            Some(true)
        } else {
            None
        },
        request_text: Some(req_text),
        response_text: resp_text,
        truncated: if response_cut || req_cut || resp_cut {
            Some(true)
        } else {
            None
        },
    };
    assert(cap == cap_of(max_body_length));
    assert(detail_ok(
        request@,
        response@,
        headers_only,
        opt_view(extract_css),
        opt_view(json_projection),
        cap,
        out,
        request_cut,
        response_cut,
    ));
    out
}

} // verus!
