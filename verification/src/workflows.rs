//! The decision logic of the security workflows: input validation, reading
//! responses, and the verdicts of the IDOR, CORS, CSRF and fuzzing checks.
use crate::css_escape::concat_chars;
use crate::http_text::{
    crlf2, crlf2_chars, header_pairs, header_pairs_of, lf2, lf2_chars, lines_of, lines_spec,
    pairs_view, skip_status_lines, split_once_chars, split_once_spec, vecs_view,
};
use crate::payload::{byte_len, payload_text, utf8_lossy};
use crate::text::{
    chars_eq, chars_of, contains_chars, contains_seq, eq_ignore_ascii_case, eq_ignore_case,
    lower_seq, starts_with_chars, starts_with_seq, string_from_chars, to_ascii_upper, trim_chars,
    trim_seq, upper_seq,
};
use crate::workflow_types::ParameterLocation;
use crate::urls::{form_encode_pair, form_pair, parse_url, url_append_query_pair, url_parse_error, url_parts_of, url_with_query_pair};
use crate::proto::{HttpHeaderEntry, SendRequestRequest, SendRequestResponse};
use crate::css_escape::find_char;
use crate::text::subrange_chars;
use vstd::prelude::*;

verus! {

impl ParameterLocation {
    /// The location asked for, or the query string by default.
    pub fn resolve(value: Option<Self>) -> (r: Self)
        ensures
            r == match value {
                Some(v) => v,
                None => ParameterLocation::Query,
            },
    {
        match value {
            Some(v) => v,
            None => ParameterLocation::Query,
        }
    }
}

pub const MAX_URL_BYTES: usize = 8192;
pub const MAX_HEADER_COUNT: usize = 128;
pub const MAX_HEADER_BYTES: usize = 16384;

fn text_of(lit: &str) -> (r: String)
    ensures
        r@ == lit@,
{
    lit.to_owned()
}

fn chars_byte_len(s: &[char]) -> (r: u128)
    ensures
        r == byte_len(s@),
{
    proof {
        crate::payload::lemma_byte_len_bound(s@);
    }
    let mut total: u128 = 0;
    let mut i: usize = 0;
    proof {
        assert(s@.subrange(0, 0) =~= Seq::<char>::empty());
    }
    while i < s.len()
        invariant
            i <= s@.len(),
            total == byte_len(s@.subrange(0, i as int)),
            total <= 4 * i,
        decreases s@.len() - i,
    {
        proof {
            crate::payload::lemma_byte_len_prefix(s@, i as int);
        }
        let c = s[i];
        let w: u128 = if (c as u32) < 0x80 {
            1
        } else if (c as u32) < 0x800 {
            2
        } else if (c as u32) < 0x10000 {
            3
        } else {
            4
        };
        total = total + w;
        i += 1;
    }
    proof {
        assert(s@.subrange(0, s@.len() as int) =~= s@);
    }
    total
}

// ---------------------------------------------------------------------------
// HTTP tokens
// ---------------------------------------------------------------------------

/// A character allowed in an HTTP token (RFC 9110 `tchar`).
pub open spec fn token_char(c: char) -> bool {
    ||| ('a' <= c <= 'z')
    ||| ('A' <= c <= 'Z')
    ||| ('0' <= c <= '9')
    ||| c == '!' || c == '#' || c == '$' || c == '%' || c == '&' || c == '\''
    ||| c == '*' || c == '+' || c == '-' || c == '.' || c == '^' || c == '_'
    ||| c == '`' || c == '|' || c == '~'
}

/// A non-empty HTTP token of at most `max` characters.
pub open spec fn is_token(s: Seq<char>, max: nat) -> bool {
    0 < s.len() <= max && forall|k: int| 0 <= k < s.len() ==> token_char(#[trigger] s[k])
}

fn is_token_char(c: char) -> (r: bool)
    ensures
        r == token_char(c),
{
    ('a' <= c && c <= 'z') || ('A' <= c && c <= 'Z') || ('0' <= c && c <= '9') || c == '!' || c
        == '#' || c == '$' || c == '%' || c == '&' || c == '\'' || c == '*' || c == '+' || c == '-'
        || c == '.' || c == '^' || c == '_' || c == '`' || c == '|' || c == '~'
}

/// Token characters are ASCII, so a token's byte length is its length.
proof fn lemma_token_bytes(s: Seq<char>)
    requires
        forall|k: int| 0 <= k < s.len() ==> token_char(#[trigger] s[k]),
    ensures
        byte_len(s) == s.len(),
    decreases s.len(),
{
    if s.len() > 0 {
        assert forall|k: int| 0 <= k < s.drop_last().len() implies token_char(
            #[trigger] s.drop_last()[k],
        ) by {
            assert(s.drop_last()[k] == s[k]);
        }
        lemma_token_bytes(s.drop_last());
        assert(token_char(s[s.len() - 1]));
    }
}

fn check_token(s: &[char], max: usize) -> (r: bool)
    ensures
        r == is_token(s@, max as nat),
{
    if s.len() == 0 || s.len() > max {
        return false;
    }
    let mut i: usize = 0;
    while i < s.len()
        invariant
            i <= s@.len(),
            forall|k: int| 0 <= k < i ==> token_char(#[trigger] s@[k]),
        decreases s@.len() - i,
    {
        if !is_token_char(s[i]) {
            return false;
        }
        i += 1;
    }
    true
}

/// The method to send: the given one (or `default`), trimmed and
/// uppercased, if it is an HTTP token of at most 32 bytes.
pub open spec fn method_spec(method: Option<Seq<char>>, default: Seq<char>) -> Option<Seq<char>> {
    let m = upper_seq(
        trim_seq(
            match method {
                Some(m) => m,
                None => default,
            },
        ),
    );
    if is_token(m, 32) {
        Some(m)
    } else {
        None
    }
}

pub open spec fn opt_string(o: Option<String>) -> Option<Seq<char>> {
    match o {
        Some(s) => Some(s@),
        None => None,
    }
}

/// Checks and normalises a request method (see `method_spec`).
pub fn normalize_method(method: Option<String>, default: &str) -> (r: Result<String, String>)
    ensures
        match r {
            Ok(m) => method_spec(opt_string(method), default@) == Some(m@),
            Err(e) => method_spec(opt_string(method), default@) is None && e@
                == "method must be a valid HTTP token of at most 32 bytes"@,
        },
{
    let raw = match method {
        Some(m) => chars_of(m.as_str()),
        None => chars_of(default),
    };
    let t = trim_chars(raw.as_slice());
    let u = crate::text::uppercase_chars(t.as_slice());
    if check_token(u.as_slice(), 32) {
        Ok(string_from_chars(u.as_slice()))
    } else {
        Err(text_of("method must be a valid HTTP token of at most 32 bytes"))
    }
}

/// Checks that a header or parameter name is an HTTP token of at most 256
/// bytes.
pub fn validate_name(value: &str, field: &str) -> (r: Result<(), String>)
    ensures
        match r {
            Ok(()) => is_token(value@, 256),
            Err(e) => !is_token(value@, 256) && e@ == field@
                + " must be a non-empty HTTP token of at most 256 bytes"@,
        },
{
    if check_token(chars_of(value).as_slice(), 256) {
        Ok(())
    } else {
        let v = concat_chars(
            chars_of(field),
            chars_of(" must be a non-empty HTTP token of at most 256 bytes").as_slice(),
        );
        Err(string_from_chars(v.as_slice()))
    }
}

pub open spec fn has_cr_lf(s: Seq<char>) -> bool {
    exists|k: int| 0 <= k < s.len() && (s[k] == '\r' || s[k] == '\n')
}

/// A header value of at most 16384 bytes without CR or LF.
pub open spec fn header_value_ok(v: Seq<char>) -> bool {
    byte_len(v) <= MAX_HEADER_BYTES && !has_cr_lf(v)
}

pub open spec fn header_entry_ok(e: (Seq<char>, Seq<char>)) -> bool {
    is_token(e.0, 256) && header_value_ok(e.1)
}

pub open spec fn header_error(e: (Seq<char>, Seq<char>)) -> Seq<char> {
    if !is_token(e.0, 256) {
        "header name"@ + " must be a non-empty HTTP token of at most 256 bytes"@
    } else {
        "header `"@ + e.0 + "` must contain at most 16384 bytes and no CR/LF"@
    }
}

fn has_cr_lf_chars(s: &[char]) -> (r: bool)
    ensures
        r == has_cr_lf(s@),
{
    let mut i: usize = 0;
    while i < s.len()
        invariant
            i <= s@.len(),
            forall|k: int| 0 <= k < i ==> s@[k] != '\r' && s@[k] != '\n',
        decreases s@.len() - i,
    {
        if s[i] == '\r' || s[i] == '\n' {
            return true;
        }
        i += 1;
    }
    false
}

/// Checks request headers, given as the entries of the header map in the
/// order they are visited: at most 128 of them, token names, values of at
/// most 16384 bytes without CR or LF.  The first bad entry is reported.
pub fn validate_headers(headers: &Vec<(String, String)>) -> (r: Result<(), String>)
    ensures
        match r {
            Ok(()) => headers@.len() <= MAX_HEADER_COUNT && forall|k: int|
                0 <= k < headers@.len() ==> header_entry_ok(#[trigger] pairs_view(headers@)[k]),
            Err(e) => if headers@.len() > MAX_HEADER_COUNT {
                e@ == "headers must contain at most 128 entries"@
            } else {
                exists|k: int|
                    0 <= k < headers@.len() && !header_entry_ok(#[trigger] pairs_view(headers@)[k])
                        && (forall|j: int|
                        0 <= j < k ==> header_entry_ok(#[trigger] pairs_view(headers@)[j])) && e@
                        == header_error(pairs_view(headers@)[k])
            },
        },
{
    if headers.len() > MAX_HEADER_COUNT {
        return Err(text_of("headers must contain at most 128 entries"));
    }
    let ghost hv = pairs_view(headers@);
    let mut i: usize = 0;
    while i < headers.len()
        invariant
            i <= headers@.len() <= MAX_HEADER_COUNT,
            hv == pairs_view(headers@),
            forall|j: int| 0 <= j < i ==> header_entry_ok(#[trigger] hv[j]),
        decreases headers@.len() - i,
    {
        let name = &headers[i].0;
        let value = &headers[i].1;
        assert(hv[i as int] == (name@, value@));
        if let Err(e) = validate_name(name.as_str(), "header name") {
            proof {
                assert(!header_entry_ok(hv[i as int]));
                assert(e@ == header_error(hv[i as int]));
            }
            return Err(e);
        }
        let vc = chars_of(value.as_str());
        if chars_byte_len(vc.as_slice()) > MAX_HEADER_BYTES as u128 || has_cr_lf_chars(vc.as_slice()) {
            let v = concat_chars(chars_of("header `"), chars_of(name.as_str()).as_slice());
            let v = concat_chars(
                v,
                chars_of("` must contain at most 16384 bytes and no CR/LF").as_slice(),
            );
            proof {
                assert(!header_entry_ok(hv[i as int]));
            }
            return Err(string_from_chars(v.as_slice()));
        }
        i += 1;
    }
    Ok(())
}

// ---------------------------------------------------------------------------
// Reading responses
// ---------------------------------------------------------------------------

/// The headers and body of a raw response.
#[derive(Debug, Clone)]
pub struct HttpResponseParts {
    pub headers: Vec<(String, String)>,
    pub body: String,
}

/// Head and body: split at the first `\r\n\r\n`, else at the first `\n\n`,
/// else all body.
pub open spec fn response_split(raw: Seq<char>) -> (Seq<char>, Seq<char>) {
    match split_once_spec(raw, crlf2()) {
        Some((h, b)) => (h, b),
        None => match split_once_spec(raw, lf2()) {
            Some((h, b)) => (h, b),
            None => (Seq::empty(), raw),
        },
    }
}

/// The `name: value` headers of a response head, after its status line.
pub open spec fn response_headers(raw: Seq<char>) -> Seq<(Seq<char>, Seq<char>)> {
    let head = response_split(raw).0;
    if head.len() == 0 {
        Seq::empty()
    } else {
        header_pairs(skip_status_lines(lines_spec(head)))
    }
}

/// Splits a raw response into its headers and its body.
pub fn split_http_response(raw: &str) -> (r: HttpResponseParts)
    ensures
        pairs_view(r.headers@) == response_headers(raw@),
        r.body@ == response_split(raw@).1,
{
    let s = chars_of(raw);
    let (head, body) = match split_once_chars(s.as_slice(), crlf2_chars().as_slice()) {
        Some((h, b)) => (h, b),
        None => match split_once_chars(s.as_slice(), lf2_chars().as_slice()) {
            Some((h, b)) => (h, b),
            None => (Vec::new(), s),
        },
    };
    let headers = if head.len() == 0 {
        let v: Vec<(String, String)> = Vec::new();
        proof {
            assert(pairs_view(v@) =~= Seq::<(Seq<char>, Seq<char>)>::empty());
        }
        v
    } else {
        let lines = lines_of(head.as_slice());
        let http = chars_of("HTTP/");
        let mut k: usize = 0;
        proof {
            assert(vecs_view(lines@).subrange(0, lines@.len() as int) =~= vecs_view(lines@));
        }
        while k < lines.len() && starts_with_chars(lines[k].as_slice(), http.as_slice())
            invariant
                k <= lines@.len(),
                http@ == "HTTP/"@,
                skip_status_lines(vecs_view(lines@).subrange(k as int, lines@.len() as int))
                    == skip_status_lines(vecs_view(lines@)),
            decreases lines@.len() - k,
        {
            proof {
                let t = vecs_view(lines@).subrange(k as int, lines@.len() as int);
                assert(t[0] == lines@[k as int]@);
                assert(t.drop_first() =~= vecs_view(lines@).subrange(k + 1, lines@.len() as int));
            }
            k += 1;
        }
        proof {
            let t = vecs_view(lines@).subrange(k as int, lines@.len() as int);
            if t.len() > 0 {
                assert(t[0] == lines@[k as int]@);
            }
            assert(vecs_view(lines@).subrange(0, lines@.len() as int) =~= vecs_view(lines@));
        }
        header_pairs_of(&lines, k)
    };
    HttpResponseParts { headers, body: string_from_chars(body.as_slice()) }
}

/// The values of the headers named `name` (ignoring ASCII case), in order.
pub open spec fn values_named(h: Seq<(Seq<char>, Seq<char>)>, name: Seq<char>) -> Seq<Seq<char>>
    decreases h.len(),
{
    if h.len() == 0 {
        Seq::empty()
    } else if eq_ignore_case(h.last().0, name) {
        values_named(h.drop_last(), name).push(h.last().1)
    } else {
        values_named(h.drop_last(), name)
    }
}

pub open spec fn strings_view(v: Seq<String>) -> Seq<Seq<char>> {
    Seq::new(v.len(), |k: int| v[k]@)
}

/// The values of the headers of `parts` named `name` (ignoring ASCII case).
pub fn header_values(parts: &HttpResponseParts, name: &str) -> (r: Vec<String>)
    ensures
        strings_view(r@) == values_named(pairs_view(parts.headers@), name@),
{
    let nc = chars_of(name);
    let mut out: Vec<String> = Vec::new();
    let mut i: usize = 0;
    let ghost h = pairs_view(parts.headers@);
    proof {
        assert(h.subrange(0, 0) =~= Seq::<(Seq<char>, Seq<char>)>::empty());
        assert(strings_view(out@) =~= Seq::<Seq<char>>::empty());
    }
    while i < parts.headers.len()
        invariant
            i <= parts.headers@.len(),
            h == pairs_view(parts.headers@),
            nc@ == name@,
            strings_view(out@) == values_named(h.subrange(0, i as int), name@),
        decreases parts.headers@.len() - i,
    {
        proof {
            let p = h.subrange(0, i + 1);
            assert(p.drop_last() =~= h.subrange(0, i as int));
            assert(p.last() == h[i as int]);
        }
        let ghost before = out@;
        if eq_ignore_ascii_case(chars_of(parts.headers[i].0.as_str()).as_slice(), nc.as_slice()) {
            out.push(parts.headers[i].1.clone());
            proof {
                assert(strings_view(out@) =~= strings_view(before).push(h[i as int].1));
            }
        }
        i += 1;
    }
    proof {
        assert(h.subrange(0, h.len() as int) =~= h);
    }
    out
}

/// A 2xx status.
pub open spec fn success_status(status: u32) -> bool {
    200 <= status < 300
}

pub fn is_success(status: u32) -> (r: bool)
    ensures
        r == success_status(status),
{
    200 <= status && status < 300
}

/// The body of a raw response contains `pattern`.
pub fn body_contains(response: &[u8], pattern: &str) -> (r: bool)
    ensures
        r == contains_seq(response_split(utf8_lossy(response@)).1, pattern@),
{
    let text = payload_text(response);
    let parts = split_http_response(text.as_str());
    contains_chars(chars_of(parts.body.as_str()).as_slice(), chars_of(pattern).as_slice())
}

pub open spec fn first_value(v: Seq<Seq<char>>) -> Option<Seq<char>> {
    if v.len() > 0 {
        Some(v[0])
    } else {
        None
    }
}

fn first_string(v: Vec<String>) -> (r: Option<String>)
    ensures
        opt_string(r) == first_value(strings_view(v@)),
{
    if v.len() > 0 {
        let mut v = v;
        let ghost v0 = v@;
        let x = v.remove(0);
        assert(x == v0[0]);
        Some(x)
    } else {
        None
    }
}

/// The first `Access-Control-Allow-Origin` and
/// `Access-Control-Allow-Credentials` values of a raw response.
pub fn cors_headers(raw: &str) -> (r: (Option<String>, Option<String>))
    ensures
        opt_string(r.0) == first_value(values_named(response_headers(raw@), "access-control-allow-origin"@)),
        opt_string(r.1) == first_value(values_named(response_headers(raw@), "access-control-allow-credentials"@)),
{
    let parts = split_http_response(raw);
    let origin = first_string(header_values(&parts, "access-control-allow-origin"));
    let credentials = first_string(header_values(&parts, "access-control-allow-credentials"));
    (origin, credentials)
}

/// Number of entries of `interactions` that are among `payloads`.
pub open spec fn correlated_count(payloads: Seq<Seq<char>>, interactions: Seq<Seq<char>>) -> nat
    decreases interactions.len(),
{
    if interactions.len() == 0 {
        0
    } else {
        correlated_count(payloads, interactions.drop_last()) + if payloads.contains(
            interactions.last(),
        ) {
            1nat
        } else {
            0nat
        }
    }
}

pub(crate) fn contains_text(v: &Vec<String>, x: &String) -> (r: bool)
    ensures
        r == strings_view(v@).contains(x@),
{
    let xc = chars_of(x.as_str());
    let mut i: usize = 0;
    while i < v.len()
        invariant
            i <= v@.len(),
            xc@ == x@,
            forall|k: int| 0 <= k < i ==> v@[k]@ != x@,
        decreases v@.len() - i,
    {
        if chars_eq(chars_of(v[i].as_str()).as_slice(), xc.as_slice()) {
            assert(strings_view(v@)[i as int] == x@);
            return true;
        }
        i += 1;
    }
    proof {
        if strings_view(v@).contains(x@) {
            let k = choose|k: int| 0 <= k < strings_view(v@).len() && strings_view(v@)[k] == x@;
            assert(v@[k]@ == x@);
        }
    }
    false
}

/// Only interactions carrying one of our payloads are counted, so ambient
/// interactions never add to the count.
pub proof fn lemma_correlated_count_bound(payloads: Seq<Seq<char>>, interactions: Seq<Seq<char>>)
    ensures
        correlated_count(payloads, interactions) <= interactions.len(),
        (forall|k: int| 0 <= k < interactions.len() ==> !payloads.contains(#[trigger] interactions[k]))
            ==> correlated_count(payloads, interactions) == 0,
    decreases interactions.len(),
{
    if interactions.len() > 0 {
        lemma_correlated_count_bound(payloads, interactions.drop_last());
        if forall|k: int| 0 <= k < interactions.len() ==> !payloads.contains(#[trigger] interactions[k]) {
            assert forall|k: int| 0 <= k < interactions.drop_last().len() implies !payloads.contains(
                #[trigger] interactions.drop_last()[k],
            ) by {
                assert(interactions.drop_last()[k] == interactions[k]);
            }
            assert(!payloads.contains(interactions[interactions.len() - 1]));
        }
    }
}

/// How many of the observed interactions carry one of our payloads.
pub fn correlated_interaction_count(payloads: &Vec<String>, interaction_payloads: &Vec<String>) -> (r: usize)
    ensures
        r == correlated_count(strings_view(payloads@), strings_view(interaction_payloads@)),
{
    let ghost iv = strings_view(interaction_payloads@);
    let mut n: usize = 0;
    let mut i: usize = 0;
    proof {
        assert(iv.subrange(0, 0) =~= Seq::<Seq<char>>::empty());
    }
    while i < interaction_payloads.len()
        invariant
            i <= interaction_payloads@.len(),
            iv == strings_view(interaction_payloads@),
            n <= i,
            n == correlated_count(strings_view(payloads@), iv.subrange(0, i as int)),
        decreases interaction_payloads@.len() - i,
    {
        proof {
            let p = iv.subrange(0, i + 1);
            assert(p.drop_last() =~= iv.subrange(0, i as int));
            assert(p.last() == interaction_payloads@[i as int]@);
        }
        if contains_text(payloads, &interaction_payloads[i]) {
            n += 1;
        }
        i += 1;
    }
    proof {
        assert(iv.subrange(0, iv.len() as int) =~= iv);
    }
    n
}


// ---------------------------------------------------------------------------
// IDOR
// ---------------------------------------------------------------------------

pub open spec fn idor_verdict_text(vulnerable: bool, candidate_status: u32) -> Seq<char> {
    if vulnerable {
        "POTENTIAL_IDOR_CONFIRMED: both authorization contexts received successful matching resource responses"@
    } else if candidate_status == 401 || candidate_status == 403 {
        "PROTECTED: victim request returned access denied"@
    } else {
        "INCONCLUSIVE_OR_DIFFERENT: responses did not provide decisive IDOR evidence"@
    }
}

/// Classifies an IDOR probe: both requests must succeed, and then either
/// the bodies are highly similar (`similar`) or the victim's body holds the
/// pattern.  Gives whether it is vulnerable, whether the pattern matched,
/// and the verdict text.
pub fn classify_idor(
    baseline: &SendRequestResponse,
    candidate: &SendRequestResponse,
    pattern: Option<&str>,
    similar: bool,
) -> (r: (bool, bool, &'static str))
    ensures
        ({
            let both = success_status(baseline.status) && success_status(candidate.status);
            let matched = both && match pattern {
                Some(p) => contains_seq(response_split(utf8_lossy(candidate.response@)).1, p@),
                None => false,
            };
            &&& r.1 == matched
            &&& r.0 == (both && (similar || matched))
            &&& r.2@ == idor_verdict_text(r.0, candidate.status)
        }),
{
    let both = is_success(baseline.status) && is_success(candidate.status);
    let matched = both && match pattern {
        Some(p) => body_contains(candidate.response.as_slice(), p),
        None => false,
    };
    let vulnerable = both && (similar || matched);
    let verdict = if vulnerable {
        "POTENTIAL_IDOR_CONFIRMED: both authorization contexts received successful matching resource responses"
    } else if candidate.status == 401 || candidate.status == 403 {
        "PROTECTED: victim request returned access denied"
    } else {
        "INCONCLUSIVE_OR_DIFFERENT: responses did not provide decisive IDOR evidence"
    };
    (vulnerable, matched, verdict)
}

// ---------------------------------------------------------------------------
// CSRF
// ---------------------------------------------------------------------------

/// `str::split` on a character: the pieces between separators, from `i` on.
pub open spec fn pieces_from(s: Seq<char>, c: char, i: int) -> Seq<Seq<char>>
    decreases s.len() - i,
{
    let j = crate::css_escape::find_char_from(s, c, i);
    if i < 0 || i > s.len() {
        Seq::empty()
    } else if j >= s.len() {
        seq![s.subrange(i, s.len() as int)]
    } else {
        proof {
            crate::css_grammar::lemma_find_char(s, c, i);
        }
        seq![s.subrange(i, j)] + pieces_from(s, c, j + 1)
    }
}

pub open spec fn pieces(s: Seq<char>, c: char) -> Seq<Seq<char>> {
    pieces_from(s, c, 0)
}

fn pieces_of(s: &[char], c: char) -> (r: Vec<Vec<char>>)
    ensures
        vecs_view(r@) == pieces(s@, c),
        r@.len() > 0,
{
    let mut out: Vec<Vec<char>> = Vec::new();
    let mut i: usize = 0;
    loop
        invariant
            i <= s@.len(),
            vecs_view(out@) + pieces_from(s@, c, i as int) == pieces(s@, c),
        decreases s@.len() - i,
    {
        let j = find_char(s, c, i);
        let piece = subrange_chars(s, i, j);
        let ghost before = vecs_view(out@);
        proof {
            crate::css_grammar::lemma_find_char(s@, c, i as int);
        }
        out.push(piece);
        proof {
            assert(vecs_view(out@) =~= before.push(piece@));
        }
        if j >= s.len() {
            proof {
                assert(vecs_view(out@) =~= before + pieces_from(s@, c, i as int));
            }
            return out;
        }
        proof {
            assert(vecs_view(out@) + pieces_from(s@, c, j + 1) =~= before + pieces_from(s@, c, i as int));
        }
        i = j + 1;
    }
}

pub open spec fn eq_sign() -> Seq<char> {
    seq!['=']
}

/// The `SameSite` value among cookie attributes (already trimmed).
pub open spec fn samesite_of(attrs: Seq<Seq<char>>) -> Option<Seq<char>>
    decreases attrs.len(),
{
    if attrs.len() == 0 {
        None
    } else {
        match split_once_spec(attrs[0], eq_sign()) {
            Some((n, v)) => if eq_ignore_case(trim_seq(n), "samesite"@) {
                Some(trim_seq(v))
            } else {
                samesite_of(attrs.drop_first())
            },
            None => samesite_of(attrs.drop_first()),
        }
    }
}

pub open spec fn trimmed_all(v: Seq<Seq<char>>) -> Seq<Seq<char>> {
    Seq::new(v.len(), |k: int| trim_seq(v[k]))
}

/// What one `Set-Cookie` value says of cookie `name`: its `SameSite`
/// attribute, `Unset` without one, or nothing when it sets another cookie.
pub open spec fn cookie_samesite_in(header: Seq<char>, name: Seq<char>) -> Option<Seq<char>> {
    let attrs = trimmed_all(pieces(header, ';'));
    match split_once_spec(attrs[0], eq_sign()) {
        None => None,
        Some((n, _)) => if eq_ignore_case(trim_seq(n), name) {
            Some(
                match samesite_of(attrs.drop_first()) {
                    Some(v) => v,
                    None => "Unset"@,
                },
            )
        } else {
            None
        },
    }
}

/// The first answer among `Set-Cookie` values.
pub open spec fn first_samesite(headers: Seq<Seq<char>>, name: Seq<char>) -> Option<Seq<char>>
    decreases headers.len(),
{
    if headers.len() == 0 {
        None
    } else {
        match cookie_samesite_in(headers[0], name) {
            Some(v) => Some(v),
            None => first_samesite(headers.drop_first(), name),
        }
    }
}

#[verifier::loop_isolation(false)]
fn samesite_in(header: &String, name: &Vec<char>) -> (r: Option<String>)
    ensures
        opt_string(r) == cookie_samesite_in(header@, name@),
{
    let ps = pieces_of(chars_of(header.as_str()).as_slice(), ';');
    let mut attrs: Vec<Vec<char>> = Vec::new();
    let mut k: usize = 0;
    while k < ps.len()
        invariant
            k <= ps@.len(),
            attrs@.len() == k,
            forall|j: int| 0 <= j < k ==> #[trigger] attrs@[j]@ == trim_seq(ps@[j]@),
        decreases ps@.len() - k,
    {
        let t = trim_chars(ps[k].as_slice());
        attrs.push(t);
        k += 1;
    }
    proof {
        assert(vecs_view(attrs@) =~= trimmed_all(vecs_view(ps@)));
    }
    let eq = chars_of("=");
    proof {
        reveal_strlit("=");
        assert(eq@ =~= eq_sign());
    }
    match split_once_chars(attrs[0].as_slice(), eq.as_slice()) {
        None => None,
        Some((n, _)) => {
            if !eq_ignore_ascii_case(trim_chars(n.as_slice()).as_slice(), name.as_slice()) {
                return None;
            }
            let samesite = chars_of("samesite");
            let mut j: usize = 1;
            let ghost av = vecs_view(attrs@);
            proof {
                assert(av.subrange(1, av.len() as int) =~= av.drop_first());
            }
            while j < attrs.len()
                invariant
                    1 <= j <= attrs@.len(),
                    av == vecs_view(attrs@),
                    eq@ == eq_sign(),
                    samesite@ == "samesite"@,
                    samesite_of(av.subrange(j as int, av.len() as int)) == samesite_of(av.drop_first()),
                decreases attrs@.len() - j,
            {
                let ghost rest = av.subrange(j as int, av.len() as int);
                proof {
                    assert(rest[0] == attrs@[j as int]@);
                    assert(rest.drop_first() =~= av.subrange(j + 1, av.len() as int));
                }
                match split_once_chars(attrs[j].as_slice(), eq.as_slice()) {
                    Some((an, av2)) => {
                        if eq_ignore_ascii_case(trim_chars(an.as_slice()).as_slice(), samesite.as_slice()) {
                            let v = trim_chars(av2.as_slice());
                            return Some(string_from_chars(v.as_slice()));
                        }
                    },
                    None => {},
                }
                j += 1;
            }
            proof {
                assert(av.subrange(j as int, av.len() as int) =~= Seq::<Seq<char>>::empty());
            }
            Some(text_of("Unset"))
        },
    }
}

/// The `SameSite` attribute that the response sets on cookie `cookie_name`:
/// from the first `Set-Cookie` header that sets it, `Unset` when that header
/// has none.
#[verifier::loop_isolation(false)]
pub fn cookie_samesite(raw: &str, cookie_name: &str) -> (r: Option<String>)
    ensures
        opt_string(r) == first_samesite(values_named(response_headers(raw@), "set-cookie"@), cookie_name@),
{
    let parts = split_http_response(raw);
    let values = header_values(&parts, "set-cookie");
    let name = chars_of(cookie_name);
    let ghost vs = strings_view(values@);
    let mut i: usize = 0;
    proof {
        assert(vs.subrange(0, vs.len() as int) =~= vs);
    }
    while i < values.len()
        invariant
            i <= values@.len(),
            vs == strings_view(values@),
            name@ == cookie_name@,
            first_samesite(vs.subrange(i as int, vs.len() as int), cookie_name@) == first_samesite(vs, cookie_name@),
        decreases values@.len() - i,
    {
        proof {
            let rest = vs.subrange(i as int, vs.len() as int);
            assert(rest[0] == values@[i as int]@);
            assert(rest.drop_first() =~= vs.subrange(i + 1, vs.len() as int));
        }
        match samesite_in(&values[i], &name) {
            Some(v) => {
                return Some(v);
            },
            None => {},
        }
        i += 1;
    }
    proof {
        assert(vs.subrange(i as int, vs.len() as int) =~= Seq::<Seq<char>>::empty());
    }
    None
}

/// A CSRF is exploitable when the forged request succeeds and the session
/// cookie is sent cross-site (`SameSite` is `None` or unset).
pub open spec fn csrf_vulnerable(status: u32, same_site: Seq<char>) -> bool {
    success_status(status) && (eq_ignore_case(same_site, "none"@) || eq_ignore_case(same_site, "unset"@))
}

pub fn csrf_is_vulnerable(status: u32, same_site: &str) -> (r: bool)
    ensures
        r == csrf_vulnerable(status, same_site@),
{
    let s = chars_of(same_site);
    is_success(status) && (eq_ignore_ascii_case(s.as_slice(), chars_of("none").as_slice())
        || eq_ignore_ascii_case(s.as_slice(), chars_of("unset").as_slice()))
}

/// `&`, `<`, `>` and `"` as HTML entities.
pub open spec fn escape_attr(s: Seq<char>) -> Seq<char>
    decreases s.len(),
{
    if s.len() == 0 {
        Seq::empty()
    } else {
        escape_attr(s.drop_last()) + if s.last() == '&' {
            "&amp;"@
        } else if s.last() == '<' {
            "&lt;"@
        } else if s.last() == '>' {
            "&gt;"@
        } else if s.last() == '"' {
            "&quot;"@
        } else {
            seq![s.last()]
        }
    }
}

/// `html_escape::encode_double_quoted_attribute`: replaces `&`, `<`, `>`
/// and `"` with `&amp;`, `&lt;`, `&gt;` and `&quot;`, keeping every other
/// character.
#[verifier::external_body]
fn encode_double_quoted_attribute(s: &str) -> (r: String)
    ensures
        r@ == escape_attr(s@),
{
    html_escape::encode_double_quoted_attribute(s).into_owned()
}

/// Escaped text holds no `"`, `<` or `>`: it cannot close a
/// double-quoted attribute or open a tag.
pub proof fn lemma_escape_attr_safe(s: Seq<char>)
    ensures
        forall|k: int|
            0 <= k < escape_attr(s).len() ==> #[trigger] escape_attr(s)[k] != '"' && escape_attr(s)[k]
                != '<' && escape_attr(s)[k] != '>',
    decreases s.len(),
{
    if s.len() > 0 {
        lemma_escape_attr_safe(s.drop_last());
        reveal_strlit("&amp;");
        reveal_strlit("&lt;");
        reveal_strlit("&gt;");
        reveal_strlit("&quot;");
        let prev = escape_attr(s.drop_last());
        let tail = if s.last() == '&' {
            "&amp;"@
        } else if s.last() == '<' {
            "&lt;"@
        } else if s.last() == '>' {
            "&gt;"@
        } else if s.last() == '"' {
            "&quot;"@
        } else {
            seq![s.last()]
        };
        assert(escape_attr(s) == prev + tail);
        assert forall|k: int| 0 <= k < escape_attr(s).len() implies #[trigger] escape_attr(s)[k]
            != '"' && escape_attr(s)[k] != '<' && escape_attr(s)[k] != '>' by {
            if k >= prev.len() {
                assert(escape_attr(s)[k] == tail[k - prev.len()]);
            } else {
                assert(escape_attr(s)[k] == prev[k]);
            }
        }
    }
}

pub open spec fn poc_head() -> Seq<char> {
    "<!DOCTYPE html>\n<html>\n<head><title>CSRF PoC</title></head>\n<body onload=\"document.forms[0].submit()\">\n  <h3>Cross-Site Request Forgery PoC</h3>\n  <form action=\""@
}

pub open spec fn poc_mid1() -> Seq<char> {
    "\" method=\""@
}

pub open spec fn poc_mid2() -> Seq<char> {
    "\" enctype=\"application/x-www-form-urlencoded\">\n    <input type=\"hidden\" name=\"payload\" value=\""@
}

pub open spec fn poc_tail() -> Seq<char> {
    "\" />\n    <input type=\"submit\" value=\"Submit Request\" />\n  </form>\n</body>\n</html>"@
}

/// The auto-submitting CSRF proof-of-concept page, with every value
/// escaped for its double-quoted attribute.
pub open spec fn csrf_poc_spec(url: Seq<char>, method: Seq<char>, body: Seq<char>) -> Seq<char> {
    poc_head() + escape_attr(url) + poc_mid1() + escape_attr(method) + poc_mid2() + escape_attr(
        body,
    ) + poc_tail()
}

pub fn csrf_poc(url: &str, method: &str, body: &str) -> (r: String)
    ensures
        r@ == csrf_poc_spec(url@, method@, body@),
{
    let v = chars_of("<!DOCTYPE html>\n<html>\n<head><title>CSRF PoC</title></head>\n<body onload=\"document.forms[0].submit()\">\n  <h3>Cross-Site Request Forgery PoC</h3>\n  <form action=\"");
    let v = concat_chars(v, chars_of(encode_double_quoted_attribute(url).as_str()).as_slice());
    let v = concat_chars(v, chars_of("\" method=\"").as_slice());
    let v = concat_chars(v, chars_of(encode_double_quoted_attribute(method).as_str()).as_slice());
    let v = concat_chars(v, chars_of("\" enctype=\"application/x-www-form-urlencoded\">\n    <input type=\"hidden\" name=\"payload\" value=\"").as_slice());
    let v = concat_chars(v, chars_of(encode_double_quoted_attribute(body).as_str()).as_slice());
    let v = concat_chars(v, chars_of("\" />\n    <input type=\"submit\" value=\"Submit Request\" />\n  </form>\n</body>\n</html>").as_slice());
    string_from_chars(v.as_slice())
}

// ---------------------------------------------------------------------------
// Fuzz categories
// ---------------------------------------------------------------------------

pub open spec fn overflow_payload() -> Seq<char> {
    Seq::new(1024, |_k: int| 'A')
}

/// The fuzz categories, in order, with their payloads.
pub open spec fn fuzz_catalog() -> Seq<(Seq<char>, Seq<char>)> {
    seq![
        ("sqli"@, "' OR '1'='1"@),
        ("xss"@, "<script>alert(1)</script>"@),
        ("overflow"@, overflow_payload()),
        ("traversal"@, "../../../../etc/passwd"@),
    ]
}

pub open spec fn fuzz_names() -> Seq<Seq<char>> {
    seq!["sqli"@, "xss"@, "overflow"@, "traversal"@]
}

pub open spec fn cat_entries_view(v: Seq<(&str, String)>) -> Seq<(Seq<char>, Seq<char>)> {
    Seq::new(v.len(), |k: int| (v[k].0@, v[k].1@))
}

/// The first requested category (trimmed) that is not known.
pub open spec fn first_unknown(req: Seq<Seq<char>>) -> Option<Seq<char>>
    decreases req.len(),
{
    if req.len() == 0 {
        None
    } else if !fuzz_names().contains(trim_seq(req[0])) {
        Some(trim_seq(req[0]))
    } else {
        first_unknown(req.drop_first())
    }
}

/// The catalogue entries among the first `n` whose name is among `names`,
/// in catalogue order.
pub open spec fn selected_upto(names: Seq<Seq<char>>, n: int) -> Seq<(Seq<char>, Seq<char>)>
    decreases n,
{
    if n <= 0 {
        Seq::empty()
    } else if names.contains(fuzz_catalog()[n - 1].0) {
        selected_upto(names, n - 1).push(fuzz_catalog()[n - 1])
    } else {
        selected_upto(names, n - 1)
    }
}

pub open spec fn catalog_selected(names: Seq<Seq<char>>) -> Seq<(Seq<char>, Seq<char>)> {
    selected_upto(names, 4)
}

fn overflow_text() -> (r: String)
    ensures
        r@ == overflow_payload(),
{
    let mut v: Vec<char> = Vec::new();
    let mut i: usize = 0;
    while i < 1024
        invariant
            i <= 1024,
            v@ == Seq::new(i as nat, |_k: int| 'A'),
        decreases 1024 - i,
    {
        v.push('A');
        i += 1;
        proof {
            assert(v@ =~= Seq::new(i as nat, |_k: int| 'A'));
        }
    }
    string_from_chars(v.as_slice())
}

fn category_name(k: usize) -> (r: &'static str)
    requires
        k < 4,
    ensures
        r@ == fuzz_catalog()[k as int].0,
{
    if k == 0 {
        "sqli"
    } else if k == 1 {
        "xss"
    } else if k == 2 {
        "overflow"
    } else {
        "traversal"
    }
}

fn category_payload(k: usize) -> (r: String)
    requires
        k < 4,
    ensures
        r@ == fuzz_catalog()[k as int].1,
{
    if k == 0 {
        text_of("' OR '1'='1")
    } else if k == 1 {
        text_of("<script>alert(1)</script>")
    } else if k == 2 {
        overflow_text()
    } else {
        text_of("../../../../etc/passwd")
    }
}

/// The fuzz categories to run: all of them when none are named; otherwise
/// the named ones (trimmed, each once) in catalogue order; an unknown name
/// is refused.
#[verifier::loop_isolation(false)]
pub fn resolve_fuzz_categories(requested: Option<&[String]>) -> (r: Result<Vec<(&'static str, String)>, String>)
    ensures
        match requested {
            None => r matches Ok(v) && cat_entries_view(v@) == fuzz_catalog(),
            Some(req) => match first_unknown(strings_view(req@)) {
                Some(u) => r matches Err(e) && e@ == "Unknown fuzz category '"@ + u
                    + "'. Supported categories are: sqli, xss, overflow, traversal"@,
                None => r matches Ok(v) && cat_entries_view(v@) == catalog_selected(
                    trimmed_all(strings_view(req@)),
                ),
            },
        },
{
    let mut selected: Vec<bool> = Vec::new();
    let ghost names: Seq<Seq<char>> = match requested {
        Some(req) => trimmed_all(strings_view(req@)),
        None => fuzz_names(),
    };
    proof {
        assert(fuzz_names() =~= Seq::new(4, |k: int| fuzz_catalog()[k].0));
    }
    match requested {
        None => {
            selected.push(true);
            selected.push(true);
            selected.push(true);
            selected.push(true);
            proof {
                assert forall|k: int| 0 <= k < 4 implies selected@[k] == names.contains(fuzz_catalog()[k].0) by {
                    assert(names[k] == fuzz_catalog()[k].0);
                }
            }
        },
        Some(req) => {
            let ghost sv = strings_view(req@);
            selected.push(false);
            selected.push(false);
            selected.push(false);
            selected.push(false);
            let mut i: usize = 0;
            proof {
                assert(sv.subrange(0, sv.len() as int) =~= sv);
            }
            while i < req.len()
                invariant
                    i <= req@.len(),
                    sv == strings_view(req@),
                    names == trimmed_all(sv),
                    selected@.len() == 4,
                    first_unknown(sv.subrange(i as int, sv.len() as int)) == first_unknown(sv),
                    forall|k: int| 0 <= k < 4 ==> selected@[k] == (exists|j: int| 0 <= j < i && #[trigger] names[j] == fuzz_catalog()[k].0),
                decreases req@.len() - i,
            {
                let t = trim_chars(chars_of(req[i].as_str()).as_slice());
                assert(t@ == names[i as int]);
                let ghost rest = sv.subrange(i as int, sv.len() as int);
                proof {
                    assert(rest[0] == sv[i as int]);
                    assert(rest.drop_first() =~= sv.subrange(i + 1, sv.len() as int));
                }
                let mut k: usize = 0;
                let mut found = false;
                while k < 4
                    invariant
                        k <= 4,
                        selected@.len() == 4,
                        t@ == names[i as int],
                        found == exists|j: int| 0 <= j < k && fuzz_catalog()[j].0 == t@,
                        forall|m: int| 0 <= m < 4 ==> selected@[m] == ((exists|j: int| 0 <= j < i && #[trigger] names[j] == fuzz_catalog()[m].0) || (m < k && fuzz_catalog()[m].0 == t@)),
                    decreases 4 - k,
                {
                    if chars_eq(t.as_slice(), chars_of(category_name(k)).as_slice()) {
                        found = true;
                        selected.set(k, true);
                    }
                    k += 1;
                }
                proof {
                    assert(fuzz_names().contains(t@) == found) by {
                        if found {
                            let j = choose|j: int| 0 <= j < 4 && fuzz_catalog()[j].0 == t@;
                            assert(fuzz_names()[j] == t@);
                        } else if fuzz_names().contains(t@) {
                            let j = choose|j: int| 0 <= j < 4 && fuzz_names()[j] == t@;
                            assert(fuzz_catalog()[j].0 == t@);
                        }
                    }
                }
                if !found {
                    let v = concat_chars(chars_of("Unknown fuzz category '"), t.as_slice());
                    let v = concat_chars(v, chars_of("'. Supported categories are: sqli, xss, overflow, traversal").as_slice());
                    return Err(string_from_chars(v.as_slice()));
                }
                proof {
                    assert forall|m: int| 0 <= m < 4 implies selected@[m] == (exists|j: int| 0 <= j < i + 1 && #[trigger] names[j] == fuzz_catalog()[m].0) by {
                        if selected@[m] && !(exists|j: int| 0 <= j < i && #[trigger] names[j] == fuzz_catalog()[m].0) {
                            assert(names[i as int] == fuzz_catalog()[m].0);
                        }
                    }
                }
                i += 1;
            }
            proof {
                assert(sv.subrange(i as int, sv.len() as int) =~= Seq::<Seq<char>>::empty());
                assert forall|k: int| 0 <= k < 4 implies selected@[k] == names.contains(fuzz_catalog()[k].0) by {
                    if selected@[k] {
                        let j = choose|j: int| 0 <= j < i && #[trigger] names[j] == fuzz_catalog()[k].0;
                        assert(names[j] == fuzz_catalog()[k].0);
                    }
                }
            }
        },
    }
    let mut out: Vec<(&'static str, String)> = Vec::new();
    let mut k: usize = 0;
    while k < 4
        invariant
            k <= 4,
            selected@.len() == 4,
            forall|m: int| 0 <= m < 4 ==> selected@[m] == names.contains(fuzz_catalog()[m].0),
            cat_entries_view(out@) == selected_upto(names, k as int),
        decreases 4 - k,
    {
        let ghost before = out@;
        if selected[k] {
            out.push((category_name(k), category_payload(k)));
            proof {
                assert(cat_entries_view(out@) =~= cat_entries_view(before).push(fuzz_catalog()[k as int]));
            }
        }
        k += 1;
    }
    proof {
        if requested is None {
            assert(names[0] == fuzz_catalog()[0].0);
            assert(names[1] == fuzz_catalog()[1].0);
            assert(names[2] == fuzz_catalog()[2].0);
            assert(names[3] == fuzz_catalog()[3].0);
            assert(selected_upto(names, 0) =~= Seq::<(Seq<char>, Seq<char>)>::empty());
            assert(selected_upto(names, 1) =~= seq![fuzz_catalog()[0]]);
            assert(selected_upto(names, 2) =~= seq![fuzz_catalog()[0], fuzz_catalog()[1]]);
            assert(selected_upto(names, 3) =~= seq![fuzz_catalog()[0], fuzz_catalog()[1], fuzz_catalog()[2]]);
            assert(selected_upto(names, 4) =~= fuzz_catalog());
        }
    }
    Ok(out)
}


// ---------------------------------------------------------------------------
// URLs and request parameters
// ---------------------------------------------------------------------------

/// Why an absolute HTTP(S) URL is refused, if it is.
pub open spec fn http_url_error(value: Seq<char>, field: Seq<char>) -> Option<Seq<char>> {
    if value.len() == 0 || byte_len(value) > MAX_URL_BYTES {
        Some(field + " must contain between 1 and 8192 bytes"@)
    } else {
        match url_parts_of(value) {
            None => Some(field + " must be an absolute HTTP(S) URL: "@ + url_parse_error(value)),
            Some(p) => if !(p.0 == "http"@ || p.0 == "https"@) || p.1 is None {
                Some(field + " must be an absolute HTTP(S) URL with a host"@)
            } else {
                None
            },
        }
    }
}

/// Checks that `value` is an absolute `http` or `https` URL with a host,
/// of 1 to 8192 bytes.
pub fn validate_http_url(value: &str, field: &str) -> (r: Result<(), String>)
    ensures
        match (r, http_url_error(value@, field@)) {
            (Ok(()), None) => true,
            (Err(e), Some(m)) => e@ == m,
            _ => false,
        },
{
    let vc = chars_of(value);
    if vc.len() == 0 || chars_byte_len(vc.as_slice()) > MAX_URL_BYTES as u128 {
        let v = concat_chars(chars_of(field), chars_of(" must contain between 1 and 8192 bytes").as_slice());
        return Err(string_from_chars(v.as_slice()));
    }
    match parse_url(value) {
        Err(e) => {
            let v = concat_chars(chars_of(field), chars_of(" must be an absolute HTTP(S) URL: ").as_slice());
            let v = concat_chars(v, chars_of(e.as_str()).as_slice());
            Err(string_from_chars(v.as_slice()))
        },
        Ok(u) => {
            let sc = chars_of(u.scheme.as_str());
            let is_http = chars_eq(sc.as_slice(), chars_of("http").as_slice()) || chars_eq(sc.as_slice(), chars_of("https").as_slice());
            if !is_http || u.host.is_none() {
                let v = concat_chars(chars_of(field), chars_of(" must be an absolute HTTP(S) URL with a host").as_slice());
                Err(string_from_chars(v.as_slice()))
            } else {
                Ok(())
            }
        },
    }
}

/// Appends `name=value` to the query of `url`, keeping what is there.
pub fn append_query_parameter(url: &str, name: &str, value: &str) -> (r: Result<String, String>)
    ensures
        !is_token(name@, 256) ==> (r matches Err(e) && e@ == "parameter name"@
            + " must be a non-empty HTTP token of at most 256 bytes"@),
        is_token(name@, 256) ==> match r {
            Ok(u) => url_parts_of(url@) is Some && u@ == url_with_query_pair(url@, name@, value@),
            Err(e) => url_parts_of(url@) is None && e@ == "invalid URL: "@ + url_parse_error(url@),
        },
{
    validate_name(name, "parameter name")?;
    match url_append_query_pair(url, name, value) {
        Ok(u) => Ok(u),
        Err(e) => {
            let v = concat_chars(chars_of("invalid URL: "), chars_of(e.as_str()).as_slice());
            Err(string_from_chars(v.as_slice()))
        },
    }
}

/// A form body holding `name=value`.
pub fn form_body(name: &str, value: &str) -> (r: Result<Vec<u8>, String>)
    ensures
        !is_token(name@, 256) ==> (r matches Err(e) && e@ == "parameter name"@
            + " must be a non-empty HTTP token of at most 256 bytes"@),
        is_token(name@, 256) ==> (r matches Ok(b) && b@ == form_pair(name@, value@)),
{
    validate_name(name, "parameter name")?;
    Ok(form_encode_pair(name, value))
}

/// A request carrying `name=value` in the query string or as a form body.
pub fn parameterized_request(
    method: &str,
    url: &str,
    name: &str,
    value: &str,
    location: ParameterLocation,
) -> (r: Result<SendRequestRequest, String>)
    ensures
        !is_token(name@, 256) ==> r is Err,
        is_token(name@, 256) ==> match location {
            ParameterLocation::Query => match r {
                Ok(q) => url_parts_of(url@) is Some && q.method@ == method@ && q.url@
                    == url_with_query_pair(url@, name@, value@) && q.body@.len() == 0
                    && q.headers@.len() == 0,
                Err(e) => url_parts_of(url@) is None && e@ == "invalid URL: "@ + url_parse_error(url@),
            },
            ParameterLocation::Body => (r matches Ok(q) && q.method@ == method@ && q.url@ == url@
                && q.body@ == form_pair(name@, value@) && q.headers@.len() == 1
                && q.headers@[0].name@ == "Content-Type"@
                && q.headers@[0].value@ == "application/x-www-form-urlencoded"@),
        },
{
    match location {
        ParameterLocation::Query => {
            let u = append_query_parameter(url, name, value)?;
            Ok(SendRequestRequest { method: text_of_str(method), url: u, body: Vec::new(), headers: Vec::new() })
        },
        ParameterLocation::Body => {
            let body = form_body(name, value)?;
            let mut headers: Vec<HttpHeaderEntry> = Vec::new();
            headers.push(HttpHeaderEntry {
                name: text_of("Content-Type"),
                value: text_of("application/x-www-form-urlencoded"),
            });
            Ok(SendRequestRequest { method: text_of_str(method), url: text_of_str(url), body, headers })
        },
    }
}

fn text_of_str(s: &str) -> (r: String)
    ensures
        r@ == s@,
{
    s.to_owned()
}

} // verus!
