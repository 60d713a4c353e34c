//! The decisions of the probing workflows (CORS, authorization matrix,
//! SSRF and blind SQL injection): their limits, the requests they plan and
//! the verdicts they draw from what came back.
use crate::css_escape::concat_chars;
use crate::diff::entries_view;
use crate::payload::{byte_len, decimal, decimal_chars};
use crate::proto::SendRequestResponse;
use crate::request_text::{byte_len_of, entries_map};
use crate::text::{
    chars_eq, chars_of, contains_chars, contains_seq, eq_ignore_ascii_case, eq_ignore_case,
    find_from, occurs_at, string_from_chars, trim_chars, trim_seq,
};
use crate::urls::{form_pair, url_parse_error, url_parts_of, url_with_query_pair};
use crate::workflow_types::{ApiFuzzAnomaly, AuthMatrixCell, CorsFinding};
use crate::workflows::{append_query_parameter, form_body, is_token, validate_name};
use vstd::prelude::*;

verus! {

pub const MAX_CORS_ORIGINS: usize = 16;

pub const MAX_AUTH_ENDPOINTS: usize = 32;

pub const MAX_AUTH_ROLES: usize = 16;

pub const MAX_AUTH_MATRIX_REQUESTS: usize = 128;

pub const MAX_SSRF_INJECTION_POINTS: usize = 32;

pub const MAX_SSRF_WAIT_SECONDS: u64 = 30;

pub const MAX_SQLI_SLEEP_SECONDS: u64 = 10;

fn text(lit: &str) -> (r: String)
    ensures
        r@ == lit@,
{
    string_from_chars(chars_of(lit).as_slice())
}

// ---------------------------------------------------------------------------
// Responses
// ---------------------------------------------------------------------------

/// The response, when Burp received one; otherwise an error naming the probe.
pub fn require_response(response: SendRequestResponse, context: &str) -> (r: Result<
    SendRequestResponse,
    String,
>)
    ensures
        r is Ok <==> response.has_response,
        r matches Ok(x) ==> x == response,
        r matches Err(e) ==> e@ == context@
            + ": Burp completed the request without an HTTP response"@,
{
    if response.has_response {
        Ok(response)
    } else {
        let v = concat_chars(
            chars_of(context),
            chars_of(": Burp completed the request without an HTTP response").as_slice(),
        );
        Err(string_from_chars(v.as_slice()))
    }
}

// ---------------------------------------------------------------------------
// CORS
// ---------------------------------------------------------------------------

/// The origins tried when none are given.
pub open spec fn default_origins() -> Seq<Seq<char>> {
    seq!["https://evil.com"@, "null"@, "https://target.com.evil.com"@]
}

/// The origins to try: those given, or the defaults; between 1 and
/// `MAX_CORS_ORIGINS` of them.
pub fn cors_test_origins(test_origins: Option<Vec<String>>) -> (r: Result<Vec<String>, String>)
    ensures
        match test_origins {
            Some(v) => if 1 <= v@.len() <= MAX_CORS_ORIGINS {
                r == Ok::<Vec<String>, String>(v)
            } else {
                r matches Err(e) && e@ == "test_origins must contain between 1 and 16 entries"@
            },
            None => r matches Ok(v) && v@.len() == 3 && v@[0]@ == default_origins()[0]
                && v@[1]@ == default_origins()[1] && v@[2]@ == default_origins()[2],
        },
{
    match test_origins {
        Some(v) => if v.len() == 0 || v.len() > MAX_CORS_ORIGINS {
            Err(text("test_origins must contain between 1 and 16 entries"))
        } else {
            Ok(v)
        },
        None => {
            let mut v: Vec<String> = Vec::new();
            v.push(text("https://evil.com"));
            v.push(text("null"));
            v.push(text("https://target.com.evil.com"));
            Ok(v)
        },
    }
}

pub open spec fn has_cr_lf(s: Seq<char>) -> bool {
    exists|k: int| 0 <= k < s.len() && (#[trigger] s[k] == '\r' || s[k] == '\n')
}

/// A test origin is non-empty, at most 8192 bytes and free of CR and LF.
pub fn validate_test_origin(origin: &str) -> (r: Result<(), String>)
    ensures
        r is Ok <==> (origin@.len() > 0 && byte_len(origin@) <= 8192 && !has_cr_lf(origin@)),
        r matches Err(e) ==> e@ == "each test origin must be non-empty, bounded, and contain no CR/LF"@,
{
    let cs = chars_of(origin);
    let mut bad = cs.len() == 0 || byte_len_of(cs.as_slice()) > 8192;
    let mut k: usize = 0;
    while k < cs.len()
        invariant
            k <= cs@.len(),
            cs@ == origin@,
            bad == (origin@.len() == 0 || byte_len(origin@) > 8192 || exists|i: int|
                0 <= i < k && (#[trigger] cs@[i] == '\r' || cs@[i] == '\n')),
        decreases cs@.len() - k,
    {
        if cs[k] == '\r' || cs[k] == '\n' {
            bad = true;
        }
        k += 1;
    }
    if bad {
        Err(text("each test origin must be non-empty, bounded, and contain no CR/LF"))
    } else {
        Ok(())
    }
}

pub open spec fn opt_view(o: Option<String>) -> Option<Seq<char>> {
    match o {
        Some(s) => Some(s@),
        None => None,
    }
}

/// Whether the answer allows credentials (`true`, in any letter case).
pub open spec fn allows_credentials(acac: Option<Seq<char>>) -> bool {
    acac matches Some(v) && eq_ignore_case(v, "true"@)
}

/// Vulnerable, severity and description of one CORS answer to `origin`.
pub open spec fn cors_class(acao: Option<Seq<char>>, acac: Option<Seq<char>>, origin: Seq<char>) -> (
    bool,
    Seq<char>,
    Seq<char>,
) {
    let credentials = allows_credentials(acac);
    match acao {
        Some(a) => if a == "*"@ && credentials {
            (true, "HIGH"@, "Wildcard origin is combined with credential support."@)
        } else if a == "*"@ {
            (true, "LOW"@, "Wildcard origin permits cross-origin reads of public responses."@)
        } else if eq_ignore_case(a, origin) && credentials {
            (
                true,
                "CRITICAL"@,
                "The supplied untrusted origin is reflected with credentials enabled."@,
            )
        } else if eq_ignore_case(a, origin) {
            (true, "MEDIUM"@, "The supplied untrusted origin is reflected."@)
        } else {
            (false, "INFO"@, "Origin was rejected or restricted."@)
        },
        None => (false, "INFO"@, "Origin was rejected or restricted."@),
    }
}

/// The finding for one origin from the `Access-Control-Allow-Origin` and
/// `Access-Control-Allow-Credentials` values of the answer.
pub fn cors_finding(origin: String, acao: Option<String>, acac: Option<String>) -> (r: CorsFinding)
    ensures
        r.origin == origin,
        r.allowed_origin == acao,
        r.allow_credentials == acac,
        (r.vulnerable, r.severity@, r.description@) == cors_class(
            opt_view(acao),
            opt_view(acac),
            origin@,
        ),
{
    let credentials = match &acac {
        Some(v) => eq_ignore_ascii_case(chars_of(v.as_str()).as_slice(), chars_of("true").as_slice()),
        None => false,
    };
    let oc = chars_of(origin.as_str());
    let (vulnerable, severity, description) = match &acao {
        Some(a) => {
            let ac = chars_of(a.as_str());
            let star = chars_eq(ac.as_slice(), chars_of("*").as_slice());
            let reflected = eq_ignore_ascii_case(ac.as_slice(), oc.as_slice());
            if star && credentials {
                (true, "HIGH", "Wildcard origin is combined with credential support.")
            } else if star {
                (true, "LOW", "Wildcard origin permits cross-origin reads of public responses.")
            } else if reflected && credentials {
                (true, "CRITICAL", "The supplied untrusted origin is reflected with credentials enabled.")
            } else if reflected {
                (true, "MEDIUM", "The supplied untrusted origin is reflected.")
            } else {
                (false, "INFO", "Origin was rejected or restricted.")
            }
        },
        None => (false, "INFO", "Origin was rejected or restricted."),
    };
    CorsFinding {
        origin,
        allowed_origin: acao,
        allow_credentials: acac,
        vulnerable,
        severity: text(severity),
        description: text(description),
    }
}

/// Some finding is vulnerable with a severity above `LOW`.
pub open spec fn cors_overall(findings: Seq<CorsFinding>) -> bool {
    exists|k: int|
        0 <= k < findings.len() && #[trigger] findings[k].vulnerable && findings[k].severity@
            != "LOW"@
}

pub fn cors_overall_vulnerable(findings: &Vec<CorsFinding>) -> (r: bool)
    ensures
        r == cors_overall(findings@),
{
    let low = chars_of("LOW");
    let mut found = false;
    let mut k: usize = 0;
    while k < findings.len()
        invariant
            k <= findings@.len(),
            low@ == "LOW"@,
            found == exists|i: int|
                0 <= i < k && #[trigger] findings@[i].vulnerable && findings@[i].severity@
                    != "LOW"@,
        decreases findings@.len() - k,
    {
        if findings[k].vulnerable && !chars_eq(
            chars_of(findings[k].severity.as_str()).as_slice(),
            low.as_slice(),
        ) {
            found = true;
        }
        k += 1;
    }
    found
}

// ---------------------------------------------------------------------------
// Authorization matrix
// ---------------------------------------------------------------------------

/// The number of requests of a matrix, after its limits.
pub fn auth_matrix_size(endpoints: usize, roles: usize) -> (r: Result<usize, String>)
    ensures
        r is Ok <==> (1 <= endpoints <= MAX_AUTH_ENDPOINTS && 1 <= roles <= MAX_AUTH_ROLES
            && endpoints * roles <= MAX_AUTH_MATRIX_REQUESTS),
        r matches Ok(n) ==> n == endpoints * roles,
        r matches Err(e) ==> e@ == (if !(1 <= endpoints <= MAX_AUTH_ENDPOINTS) {
            "endpoints must contain between 1 and 32 entries"@
        } else if !(1 <= roles <= MAX_AUTH_ROLES) {
            "roles must contain between 1 and 16 entries"@
        } else {
            "endpoint × role combinations must not exceed 128"@
        }),
{
    if endpoints == 0 || endpoints > MAX_AUTH_ENDPOINTS {
        return Err(text("endpoints must contain between 1 and 32 entries"));
    }
    if roles == 0 || roles > MAX_AUTH_ROLES {
        return Err(text("roles must contain between 1 and 16 entries"));
    }
    assert(endpoints * roles <= 512) by (nonlinear_arith)
        requires
            endpoints <= 32,
            roles <= 16,
    ;
    let count = endpoints * roles;
    if count > MAX_AUTH_MATRIX_REQUESTS {
        return Err(text("endpoint × role combinations must not exceed 128"));
    }
    Ok(count)
}

/// A role name is not blank and at most 128 bytes.
pub fn validate_role_name(role: &str) -> (r: Result<(), String>)
    ensures
        r is Ok <==> (trim_seq(role@).len() > 0 && byte_len(role@) <= 128),
        r matches Err(e) ==> e@ == "role names must contain between 1 and 128 bytes"@,
{
    let cs = chars_of(role);
    let t = trim_chars(cs.as_slice());
    if t.len() == 0 || byte_len_of(cs.as_slice()) > 128 {
        Err(text("role names must contain between 1 and 128 bytes"))
    } else {
        Ok(())
    }
}

/// One cell of the matrix: a status below 400 makes the endpoint accessible.
pub fn auth_cell(endpoint: String, role: String, status: u32, length: usize) -> (r: AuthMatrixCell)
    ensures
        r.endpoint == endpoint,
        r.role == role,
        r.status == Some(status),
        r.length == length,
        r.accessible == (status < 400),
{
    AuthMatrixCell { endpoint, role, status: Some(status), length, accessible: status < 400 }
}

pub open spec fn unauthenticated_role(role: Seq<char>) -> bool {
    eq_ignore_case(role, "anonymous"@) || eq_ignore_case(role, "guest"@) || eq_ignore_case(
        role,
        "unauthenticated"@,
    )
}

pub open spec fn violation_text(endpoint: Seq<char>, role: Seq<char>, status: u32) -> Seq<char> {
    "Endpoint `"@ + endpoint + "` is accessible by unauthenticated role `"@ + role + "` (HTTP "@
        + decimal(status as nat) + ")"@
}

/// The violation an answer shows: an unauthenticated role (`anonymous`,
/// `guest` or `unauthenticated`, in any letter case) reaching the endpoint.
pub fn auth_violation(endpoint: &str, role: &str, status: u32) -> (r: Option<String>)
    ensures
        r is Some <==> (status < 400 && unauthenticated_role(role@)),
        r matches Some(m) ==> m@ == violation_text(endpoint@, role@, status),
{
    let rc = chars_of(role);
    let anonymous = eq_ignore_ascii_case(rc.as_slice(), chars_of("anonymous").as_slice())
        || eq_ignore_ascii_case(rc.as_slice(), chars_of("guest").as_slice())
        || eq_ignore_ascii_case(rc.as_slice(), chars_of("unauthenticated").as_slice());
    if status < 400 && anonymous {
        let mut v = concat_chars(chars_of("Endpoint `"), chars_of(endpoint).as_slice());
        v = concat_chars(v, chars_of("` is accessible by unauthenticated role `").as_slice());
        v = concat_chars(v, rc.as_slice());
        v = concat_chars(v, chars_of("` (HTTP ").as_slice());
        v = concat_chars(v, decimal_chars(status as u128).as_slice());
        v = concat_chars(v, chars_of(")").as_slice());
        Some(string_from_chars(v.as_slice()))
    } else {
        None
    }
}

// ---------------------------------------------------------------------------
// SSRF
// ---------------------------------------------------------------------------

/// The wait before polling: 4 seconds unless given, at most 30; and between
/// 1 and 32 injection points.
pub fn ssrf_limits(injection_points: usize, wait_seconds: Option<u64>) -> (r: Result<u64, String>)
    ensures
        !(1 <= injection_points <= MAX_SSRF_INJECTION_POINTS) ==> (r matches Err(e) && e@
            == "injection_points must contain between 1 and 32 entries"@),
        (1 <= injection_points <= MAX_SSRF_INJECTION_POINTS) ==> match wait_seconds {
            Some(w) => if w <= MAX_SSRF_WAIT_SECONDS {
                r == Ok::<u64, String>(w)
            } else {
                r matches Err(e) && e@ == "wait_seconds must not exceed 30"@
            },
            None => r == Ok::<u64, String>(4),
        },
{
    if injection_points == 0 || injection_points > MAX_SSRF_INJECTION_POINTS {
        return Err(text("injection_points must contain between 1 and 32 entries"));
    }
    let wait = match wait_seconds {
        Some(w) => w,
        None => 4,
    };
    if wait > MAX_SSRF_WAIT_SECONDS {
        return Err(text("wait_seconds must not exceed 30"));
    }
    Ok(wait)
}

/// Collaborator must hand out one payload per injection point.
pub fn check_payload_count(generated: usize, points: usize) -> (r: Result<(), String>)
    ensures
        r is Ok <==> generated == points,
        r matches Err(e) ==> e@ == "Collaborator generated "@ + decimal(generated as nat)
            + " payloads for "@ + decimal(points as nat) + " injection points"@,
{
    if generated == points {
        Ok(())
    } else {
        let mut v = concat_chars(chars_of("Collaborator generated "), decimal_chars(generated as u128).as_slice());
        v = concat_chars(v, chars_of(" payloads for ").as_slice());
        v = concat_chars(v, decimal_chars(points as u128).as_slice());
        v = concat_chars(v, chars_of(" injection points").as_slice());
        Err(string_from_chars(v.as_slice()))
    }
}

/// One SSRF probe: its headers (names to values, the last of a name
/// counting), its target and its body.
pub struct SsrfProbe {
    pub headers: Vec<(String, String)>,
    pub target: String,
    pub body: Vec<u8>,
}

/// `s` with the first occurrence of `n` replaced by `r`.
pub open spec fn replace_first(s: Seq<char>, n: Seq<char>, r: Seq<char>) -> Seq<char> {
    if contains_seq(s, n) {
        let i = choose|i: int| occurs_at(s, n, i) && forall|j: int| 0 <= j < i ==> !occurs_at(s, n, j);
        s.subrange(0, i) + r + s.subrange(i + n.len(), s.len() as int)
    } else {
        s
    }
}

pub open spec fn strip_prefix(s: Seq<char>, p: Seq<char>) -> Option<Seq<char>> {
    if occurs_at(s, p, 0) {
        Some(s.subrange(p.len() as int, s.len() as int))
    } else {
        None
    }
}

pub open spec fn ssrf_point_error(point: Seq<char>) -> Seq<char> {
    "unsupported injection point `"@ + point
        + "`; use header:NAME, param:NAME, body, or a bare body parameter name"@
}

/// The form parameter a body injection point fills.
pub open spec fn body_param(point: Seq<char>) -> Seq<char> {
    if point == "body"@ {
        "url"@
    } else {
        point
    }
}

/// What a probe through `point` sends: `header:NAME` sets that header to the
/// payload URL; `param:NAME` appends it to the query; `body` or a bare name
/// puts it where the body holds `{{ssrf}}`, or else sends it as the form
/// body `NAME=url` (`url=url` for `body`), adding a form `Content-Type`
/// unless one is set.
pub open spec fn ssrf_probe_ok(
    point: Seq<char>,
    payload_url: Seq<char>,
    target: Seq<char>,
    body: Seq<char>,
    headers: Seq<(Seq<char>, Seq<char>)>,
    p: SsrfProbe,
) -> bool {
    let base = entries_map(headers);
    let sent = entries_map(entries_view(p.headers@));
    if strip_prefix(point, "header:"@) is Some {
        &&& sent == base.insert(strip_prefix(point, "header:"@)->0, payload_url)
        &&& p.target@ == target
        &&& p.body@ == vstd::utf8::encode_utf8(body)
    } else if strip_prefix(point, "param:"@) is Some {
        &&& sent == base
        &&& p.target@ == url_with_query_pair(target, strip_prefix(point, "param:"@)->0, payload_url)
        &&& p.body@ == vstd::utf8::encode_utf8(body)
    } else if contains_seq(body, "{{ssrf}}"@) {
        &&& sent == base
        &&& p.target@ == target
        &&& p.body@ == vstd::utf8::encode_utf8(replace_first(body, "{{ssrf}}"@, payload_url))
    } else {
        &&& sent == (if base.contains_key("Content-Type"@) {
            base
        } else {
            base.insert("Content-Type"@, "application/x-www-form-urlencoded"@)
        })
        &&& p.target@ == target
        &&& p.body@ == form_pair(body_param(point), payload_url)
    }
}

/// A point of none of the four forms.
pub open spec fn unsupported_point(point: Seq<char>) -> bool {
    strip_prefix(point, "header:"@) is None && strip_prefix(point, "param:"@) is None && point
        != "body"@ && contains_seq(point, ":"@)
}

proof fn lemma_entries_map_push(e: Seq<(Seq<char>, Seq<char>)>, k: Seq<char>, v: Seq<char>)
    ensures
        entries_map(e.push((k, v))) == entries_map(e).insert(k, v),
{
    assert(e.push((k, v)).drop_last() =~= e);
}

proof fn lemma_entries_map_has(e: Seq<(Seq<char>, Seq<char>)>, k: Seq<char>)
    ensures
        entries_map(e).contains_key(k) <==> exists|i: int| 0 <= i < e.len() && #[trigger] e[i].0 == k,
    decreases e.len(),
{
    if e.len() > 0 {
        lemma_entries_map_has(e.drop_last(), k);
        if entries_map(e.drop_last()).contains_key(k) {
            let i = choose|i: int| 0 <= i < e.drop_last().len() && #[trigger] e.drop_last()[i].0 == k;
            assert(e[i].0 == k);
        }
        if exists|i: int| 0 <= i < e.len() && #[trigger] e[i].0 == k {
            let i = choose|i: int| 0 <= i < e.len() && #[trigger] e[i].0 == k;
            if i < e.len() - 1 {
                assert(e.drop_last()[i].0 == k);
            }
        }
    }
}

fn copy_headers(headers: &Vec<(String, String)>) -> (r: Vec<(String, String)>)
    ensures
        entries_view(r@) == entries_view(headers@),
{
    let mut out: Vec<(String, String)> = Vec::new();
    let mut k: usize = 0;
    while k < headers.len()
        invariant
            k <= headers@.len(),
            entries_view(out@) == entries_view(headers@).take(k as int),
        decreases headers@.len() - k,
    {
        let name = string_from_chars(chars_of(headers[k].0.as_str()).as_slice());
        let value = string_from_chars(chars_of(headers[k].1.as_str()).as_slice());
        let ghost before = entries_view(out@);
        let ghost pair = (name@, value@);
        out.push((name, value));
        proof {
            assert(entries_view(out@) =~= before.push(pair));
            assert(entries_view(headers@).take(k + 1) =~= entries_view(headers@).take(k as int).push(pair));
        }
        k += 1;
    }
    proof {
        assert(entries_view(headers@).take(headers@.len() as int) =~= entries_view(headers@));
    }
    out
}

fn push_header(headers: &mut Vec<(String, String)>, name: String, value: String)
    ensures
        entries_map(entries_view(final(headers)@)) == entries_map(entries_view(old(headers)@)).insert(
            name@,
            value@,
        ),
{
    let ghost before = entries_view(headers@);
    let ghost nv = name@;
    let ghost vv = value@;
    headers.push((name, value));
    proof {
        assert(entries_view(headers@) =~= before.push((nv, vv)));
        lemma_entries_map_push(before, nv, vv);
    }
}

fn has_header_named(headers: &Vec<(String, String)>, name: &str) -> (r: bool)
    ensures
        r == entries_map(entries_view(headers@)).contains_key(name@),
{
    let nc = chars_of(name);
    let mut k: usize = 0;
    while k < headers.len()
        invariant
            k <= headers@.len(),
            nc@ == name@,
            forall|i: int| 0 <= i < k ==> #[trigger] entries_view(headers@)[i].0 != name@,
        decreases headers@.len() - k,
    {
        if chars_eq(chars_of(headers[k].0.as_str()).as_slice(), nc.as_slice()) {
            proof {
                lemma_entries_map_has(entries_view(headers@), name@);
                assert(entries_view(headers@)[k as int].0 == name@);
            }
            return true;
        }
        k += 1;
    }
    proof {
        lemma_entries_map_has(entries_view(headers@), name@);
    }
    false
}

fn strip_prefix_chars(s: &[char], p: &str) -> (r: Option<Vec<char>>)
    ensures
        match (r, strip_prefix(s@, p@)) {
            (Some(a), Some(b)) => a@ == b,
            (None, None) => true,
            _ => false,
        },
{
    let pc = chars_of(p);
    if pc.len() > s.len() {
        return None;
    }
    let head = crate::text::subrange_chars(s, 0, pc.len());
    if chars_eq(head.as_slice(), pc.as_slice()) {
        Some(crate::text::subrange_chars(s, pc.len(), s.len()))
    } else {
        None
    }
}

fn replace_first_chars(s: &[char], n: &[char], r: &[char]) -> (out: Vec<char>)
    ensures
        out@ == replace_first(s@, n@, r@),
{
    match find_from(s, n, 0) {
        Some(i) => {
            proof {
                assert(contains_seq(s@, n@));
                let j = choose|j: int| occurs_at(s@, n@, j) && forall|m: int| 0 <= m < j ==> !occurs_at(s@, n@, m);
                if j < i {
                    assert(!occurs_at(s@, n@, j));
                } else if i < j {
                    assert(!occurs_at(s@, n@, i as int));
                }
            }
            let mut out = crate::text::subrange_chars(s, 0, i);
            out = concat_chars(out, r);
            let tail = crate::text::subrange_chars(s, i + n.len(), s.len());
            concat_chars(out, tail.as_slice())
        },
        None => {
            proof {
                assert(!contains_seq(s@, n@));
            }
            crate::text::subrange_chars(s, 0, s.len())
        },
    }
}

fn bytes_of(cs: &[char]) -> (r: Vec<u8>)
    ensures
        r@ == vstd::utf8::encode_utf8(cs@),
{
    let st = string_from_chars(cs);
    vstd::slice::slice_to_vec(st.as_str().as_bytes())
}

/// Plans the probe through one injection point (see `ssrf_probe_ok`).
pub fn plan_ssrf_probe(
    point: &str,
    payload: &str,
    target: &str,
    body: &str,
    headers: &Vec<(String, String)>,
) -> (r: Result<SsrfProbe, String>)
    ensures
        ({
            let payload_url = "http://"@ + payload@;
            let hv = entries_view(headers@);
            if let Some(name) = strip_prefix(point@, "header:"@) {
                if is_token(name, 256) {
                    r matches Ok(p) && ssrf_probe_ok(point@, payload_url, target@, body@, hv, p)
                } else {
                    r matches Err(e) && e@ == "SSRF header injection name"@
                        + " must be a non-empty HTTP token of at most 256 bytes"@
                }
            } else if let Some(name) = strip_prefix(point@, "param:"@) {
                if !is_token(name, 256) {
                    r matches Err(e) && e@ == "parameter name"@
                        + " must be a non-empty HTTP token of at most 256 bytes"@
                } else if url_parts_of(target@) is None {
                    r matches Err(e) && e@ == "invalid URL: "@ + url_parse_error(target@)
                } else {
                    r matches Ok(p) && ssrf_probe_ok(point@, payload_url, target@, body@, hv, p)
                }
            } else if unsupported_point(point@) {
                r matches Err(e) && e@ == ssrf_point_error(point@)
            } else if !contains_seq(body@, "{{ssrf}}"@) && !is_token(body_param(point@), 256) {
                r matches Err(e) && e@ == "parameter name"@
                    + " must be a non-empty HTTP token of at most 256 bytes"@
            } else {
                r matches Ok(p) && ssrf_probe_ok(point@, payload_url, target@, body@, hv, p)
            }
        }),
{
    let pc = chars_of(point);
    let payload_url = concat_chars(chars_of("http://"), chars_of(payload).as_slice());
    let url_text = string_from_chars(payload_url.as_slice());
    let mut hs = copy_headers(headers);
    let bc = chars_of(body);
    match strip_prefix_chars(pc.as_slice(), "header:") {
        Some(name) => {
            let name_text = string_from_chars(name.as_slice());
            validate_name(name_text.as_str(), "SSRF header injection name")?;
            push_header(&mut hs, name_text, url_text);
            return Ok(SsrfProbe { headers: hs, target: string_from_chars(chars_of(target).as_slice()), body: bytes_of(bc.as_slice()) });
        },
        None => {},
    }
    match strip_prefix_chars(pc.as_slice(), "param:") {
        Some(name) => {
            let name_text = string_from_chars(name.as_slice());
            let t = append_query_parameter(target, name_text.as_str(), url_text.as_str())?;
            return Ok(SsrfProbe { headers: hs, target: t, body: bytes_of(bc.as_slice()) });
        },
        None => {},
    }
    let is_body = chars_eq(pc.as_slice(), chars_of("body").as_slice());
    let has_colon = contains_chars(pc.as_slice(), chars_of(":").as_slice());
    if !is_body && has_colon {
        let mut v = concat_chars(chars_of("unsupported injection point `"), pc.as_slice());
        v = concat_chars(
            v,
            chars_of("`; use header:NAME, param:NAME, body, or a bare body parameter name").as_slice(),
        );
        return Err(string_from_chars(v.as_slice()));
    }
    let marker = chars_of("{{ssrf}}");
    if contains_chars(bc.as_slice(), marker.as_slice()) {
        let replaced = replace_first_chars(bc.as_slice(), marker.as_slice(), payload_url.as_slice());
        return Ok(SsrfProbe { headers: hs, target: string_from_chars(chars_of(target).as_slice()), body: bytes_of(replaced.as_slice()) });
    }
    let name_text = if is_body {
        text("url")
    } else {
        string_from_chars(pc.as_slice())
    };
    let form = form_body(name_text.as_str(), url_text.as_str())?;
    if !has_header_named(&hs, "Content-Type") {
        push_header(&mut hs, text("Content-Type"), text("application/x-www-form-urlencoded"));
    }
    Ok(SsrfProbe { headers: hs, target: string_from_chars(chars_of(target).as_slice()), body: form })
}

/// Whether a correlated interaction arrived, and the verdict that says so.
pub fn ssrf_verdict(interactions: usize) -> (r: (bool, String))
    ensures
        r.0 == (interactions > 0),
        r.1@ == (if interactions > 0 {
            "CONFIRMED SSRF: received "@ + decimal(interactions as nat)
                + " interaction(s) correlated to this workflow's payloads"@
        } else {
            "NO CORRELATED SSRF INTERACTION: no callback for this workflow's payloads arrived within the wait window"@
        }),
{
    if interactions > 0 {
        let mut v = concat_chars(chars_of("CONFIRMED SSRF: received "), decimal_chars(interactions as u128).as_slice());
        v = concat_chars(v, chars_of(" interaction(s) correlated to this workflow's payloads").as_slice());
        (true, string_from_chars(v.as_slice()))
    } else {
        (false, text("NO CORRELATED SSRF INTERACTION: no callback for this workflow's payloads arrived within the wait window"))
    }
}

// ---------------------------------------------------------------------------
// Blind SQL injection
// ---------------------------------------------------------------------------

/// The sleep a time-based probe asks for: 4 seconds unless given, between
/// 1 and 10.
pub fn sqli_sleep_seconds(sleep_seconds: Option<u64>) -> (r: Result<u64, String>)
    ensures
        match sleep_seconds {
            Some(s) => if 1 <= s <= MAX_SQLI_SLEEP_SECONDS {
                r == Ok::<u64, String>(s)
            } else {
                r matches Err(e) && e@ == "sleep_seconds must be between 1 and 10"@
            },
            None => r == Ok::<u64, String>(4),
        },
{
    let s = match sleep_seconds {
        Some(s) => s,
        None => 4,
    };
    if s == 0 || s > MAX_SQLI_SLEEP_SECONDS {
        Err(text("sleep_seconds must be between 1 and 10"))
    } else {
        Ok(s)
    }
}

/// The time-based payload.
pub fn sqli_sleep_payload(sleep_seconds: u64) -> (r: String)
    ensures
        r@ == "1' AND SLEEP("@ + decimal(sleep_seconds as nat) + ")-- -"@,
{
    let mut v = concat_chars(chars_of("1' AND SLEEP("), decimal_chars(sleep_seconds as u128).as_slice());
    v = concat_chars(v, chars_of(")-- -").as_slice());
    string_from_chars(v.as_slice())
}

pub open spec fn sat_sub(a: int, b: int) -> int {
    if a >= b {
        a - b
    } else {
        0
    }
}

/// The sleep probe took at least the requested seconds, less half a second,
/// longer than the baseline.
pub open spec fn time_based(base_ms: u128, sleep_ms: u128, sleep_seconds: u64) -> bool {
    sat_sub(sleep_ms as int, base_ms as int) >= sat_sub(sleep_seconds * 1000, 500)
}

pub fn is_time_based(base_ms: u128, sleep_ms: u128, sleep_seconds: u64) -> (r: bool)
    ensures
        r == time_based(base_ms, sleep_ms, sleep_seconds),
{
    let expected = (sleep_seconds as u128 * 1000).saturating_sub(500);
    sleep_ms.saturating_sub(base_ms) >= expected
}

pub open spec fn sqli_time_verdict(base_ms: u128, sleep_ms: u128) -> Seq<char> {
    "CONFIRMED TIME-BASED SQLI: sleep probe added "@ + decimal(sat_sub(sleep_ms as int, base_ms as int) as nat)
        + "ms over the "@ + decimal(base_ms as nat) + "ms baseline"@
}

/// Whether the probes show an injection, by which technique, and the message
/// that says so; timing evidence wins over the difference between the true
/// and false answers, whose similarity `similarity` shows.
pub fn sqli_verdict(
    time_based_hit: bool,
    boolean_hit: bool,
    base_ms: u128,
    sleep_ms: u128,
    similarity: &str,
) -> (r: (bool, String, String))
    ensures
        time_based_hit ==> r.0 && r.1@ == "Time-Based Blind SQLi"@ && r.2@ == sqli_time_verdict(
            base_ms,
            sleep_ms,
        ),
        !time_based_hit && boolean_hit ==> r.0 && r.1@ == "Boolean-Based Differential SQLi"@ && r.2@
            == "CONFIRMED BOOLEAN SQLI: true and false response similarity was "@ + similarity@,
        !time_based_hit && !boolean_hit ==> !r.0 && r.1@ == "None"@ && r.2@
            == "NO SQLI EVIDENCE: response similarity and added latency stayed within thresholds"@,
{
    if time_based_hit {
        let added = sleep_ms.saturating_sub(base_ms);
        let mut v = concat_chars(chars_of("CONFIRMED TIME-BASED SQLI: sleep probe added "), decimal_chars(added).as_slice());
        v = concat_chars(v, chars_of("ms over the ").as_slice());
        v = concat_chars(v, decimal_chars(base_ms).as_slice());
        v = concat_chars(v, chars_of("ms baseline").as_slice());
        (true, text("Time-Based Blind SQLi"), string_from_chars(v.as_slice()))
    } else if boolean_hit {
        let v = concat_chars(
            chars_of("CONFIRMED BOOLEAN SQLI: true and false response similarity was "),
            chars_of(similarity).as_slice(),
        );
        (true, text("Boolean-Based Differential SQLi"), string_from_chars(v.as_slice()))
    } else {
        (
            false,
            text("None"),
            text("NO SQLI EVIDENCE: response similarity and added latency stayed within thresholds"),
        )
    }
}

// ---------------------------------------------------------------------------
// CSRF
// ---------------------------------------------------------------------------

pub open spec fn safe_method(method: Seq<char>) -> bool {
    method == "GET"@ || method == "HEAD"@ || method == "OPTIONS"@ || method == "TRACE"@
}

fn is_lit(s: &str, lit: &str) -> (r: bool)
    ensures
        r == (s@ == lit@),
{
    chars_eq(chars_of(s).as_slice(), chars_of(lit).as_slice())
}

/// A CSRF probe needs a state-changing method (not GET, HEAD, OPTIONS or
/// TRACE).
pub fn require_state_changing(method: &str) -> (r: Result<(), String>)
    ensures
        r is Ok <==> !safe_method(method@),
        r matches Err(e) ==> e@
            == "method must be state-changing; use POST, PUT, PATCH, DELETE, or another mutating method"@,
{
    if is_lit(method, "GET") || is_lit(method, "HEAD") || is_lit(method, "OPTIONS") || is_lit(
        method,
        "TRACE",
    ) {
        Err(text("method must be state-changing; use POST, PUT, PATCH, DELETE, or another mutating method"))
    } else {
        Ok(())
    }
}

/// The `SameSite` value found, or `Unknown`.
pub fn samesite_or_unknown(found: Option<String>) -> (r: String)
    ensures
        r@ == (match found {
            Some(s) => s@,
            None => "Unknown"@,
        }),
{
    match found {
        Some(s) => s,
        None => text("Unknown"),
    }
}

pub open spec fn remediation_text(status: u32, same_site: Seq<char>) -> Seq<char> {
    if status == 401 || status == 403 {
        "The unauthenticated cross-site-style request was denied; retain token/origin validation and verify every mutating endpoint."@
    } else if eq_ignore_case(same_site, "unknown"@) {
        "No matching Set-Cookie was observed. Inspect the active session cookie and require anti-CSRF tokens or strict Origin validation before drawing a conclusion."@
    } else {
        "Enforce SameSite=Lax or SameSite=Strict where compatible and require anti-CSRF tokens or strict Origin validation for mutating requests."@
    }
}

/// The advice for a CSRF probe's outcome.
pub fn csrf_remediation(status: u32, same_site: &str) -> (r: &'static str)
    ensures
        r@ == remediation_text(status, same_site@),
{
    if status == 401 || status == 403 {
        "The unauthenticated cross-site-style request was denied; retain token/origin validation and verify every mutating endpoint."
    } else if eq_ignore_ascii_case(chars_of(same_site).as_slice(), chars_of("unknown").as_slice()) {
        "No matching Set-Cookie was observed. Inspect the active session cookie and require anti-CSRF tokens or strict Origin validation before drawing a conclusion."
    } else {
        "Enforce SameSite=Lax or SameSite=Strict where compatible and require anti-CSRF tokens or strict Origin validation for mutating requests."
    }
}

// ---------------------------------------------------------------------------
// API fuzzing
// ---------------------------------------------------------------------------

pub fn require_fuzz_payloads(count: usize) -> (r: Result<(), String>)
    ensures
        r is Ok <==> count > 0,
        r matches Err(e) ==> e@ == "fuzz_categories must select at least one category"@,
{
    if count == 0 {
        Err(text("fuzz_categories must select at least one category"))
    } else {
        Ok(())
    }
}

pub fn require_fuzz_operations(count: usize) -> (r: Result<(), String>)
    ensures
        r is Ok <==> count > 0,
        r matches Err(e) ==> e@ == "OpenAPI spec contains no supported HTTP operations"@,
{
    if count == 0 {
        Err(text("OpenAPI spec contains no supported HTTP operations"))
    } else {
        Ok(())
    }
}

/// A fuzzed request is an anomaly when the server answers with a 5xx status.
pub fn fuzz_anomaly(method: &str, endpoint: &str, status: u32, category: &str) -> (r: Option<
    ApiFuzzAnomaly,
>)
    ensures
        r is Some <==> status >= 500,
        r matches Some(a) ==> a.method@ == method@ && a.endpoint@ == endpoint@ && a.status == status
            && a.payload_category@ == category@ && a.description@ == "Server returned HTTP "@
            + decimal(status as nat) + " for the "@ + category@ + " mutation"@,
{
    if status >= 500 {
        let mut v = concat_chars(chars_of("Server returned HTTP "), decimal_chars(status as u128).as_slice());
        v = concat_chars(v, chars_of(" for the ").as_slice());
        v = concat_chars(v, chars_of(category).as_slice());
        v = concat_chars(v, chars_of(" mutation").as_slice());
        Some(ApiFuzzAnomaly {
            method: text(method),
            endpoint: text(endpoint),
            status,
            payload_category: text(category),
            description: string_from_chars(v.as_slice()),
        })
    } else {
        None
    }
}

/// The closing summary of a fuzzing run.
pub fn fuzz_summary(endpoints: usize, requests: usize, anomalies: usize) -> (r: String)
    ensures
        r@ == "Fuzzed "@ + decimal(endpoints as nat) + " endpoints with "@ + decimal(requests as nat)
            + " completed requests; found "@ + decimal(anomalies as nat)
            + " server-error anomalies."@,
{
    let mut v = concat_chars(chars_of("Fuzzed "), decimal_chars(endpoints as u128).as_slice());
    v = concat_chars(v, chars_of(" endpoints with ").as_slice());
    v = concat_chars(v, decimal_chars(requests as u128).as_slice());
    v = concat_chars(v, chars_of(" completed requests; found ").as_slice());
    v = concat_chars(v, decimal_chars(anomalies as u128).as_slice());
    v = concat_chars(v, chars_of(" server-error anomalies.").as_slice());
    string_from_chars(v.as_slice())
}

} // verus!
