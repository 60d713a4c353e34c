//! The token work of the JWT audit: splitting a token, decoding and
//! re-encoding its segments, and building the test vectors and the verdict.
use crate::css::strings_view;
use crate::json_value::{member, set_member, JsonValue};
use crate::css_escape::concat_chars;
use crate::payload::byte_len;
use crate::request_text::{byte_len_of, split_by, split_spec};
use crate::tools::base64_group;
use crate::text::{chars_of, eq_ignore_ascii_case, eq_ignore_case, string_from_chars};
use crate::workflow_types::JwtTestResult;
use crate::workflows::{is_success, success_status};
use base64::Engine;
use hmac::Mac;
use vstd::prelude::*;

verus! {

/// The largest token, in bytes, that the audit accepts.
pub const MAX_JWT_BYTES: u128 = 65536;

/// The largest public key, in bytes, that the audit accepts.
pub const MAX_PUBLIC_KEY_BYTES: u128 = 1048576;

/// The most claims that one audit may tamper with.
pub const MAX_TAMPER_CLAIMS: usize = 128;

// ---------------------------------------------------------------------------
// Outside calls
// ---------------------------------------------------------------------------

/// URL-safe Base64 without padding of `b`: each group of three bytes gives
/// four digits, a last group of one or two bytes two or three digits.
pub open spec fn base64_url_nopad(b: Seq<u8>) -> Seq<char>
    decreases b.len(),
{
    if b.len() == 0 {
        Seq::empty()
    } else if b.len() == 1 {
        base64_group(b[0] as int, 0, 0, true).take(2)
    } else if b.len() == 2 {
        base64_group(b[0] as int, b[1] as int, 0, true).take(3)
    } else {
        base64_group(b[0] as int, b[1] as int, b[2] as int, true) + base64_url_nopad(
            b.subrange(3, b.len() as int),
        )
    }
}

/// What URL-safe Base64 without padding decodes `s` to, or the text of the
/// decoding error.
pub uninterp spec fn base64_url_nopad_decode(s: Seq<char>) -> Result<Seq<u8>, Seq<char>>;

/// The HMAC-SHA256 tag of `data` under `key`.
pub uninterp spec fn hmac_sha256_tag(key: Seq<u8>, data: Seq<u8>) -> Seq<u8>;

/// `base64::engine::general_purpose::URL_SAFE_NO_PAD.encode`: the URL-safe
/// alphabet without padding, as `base64_url_nopad` states it.
#[verifier::external_body]
fn base64_url_encode(bytes: &[u8]) -> (r: String)
    ensures
        r@ == base64_url_nopad(bytes@),
{
    base64::engine::general_purpose::URL_SAFE_NO_PAD.encode(bytes)
}

/// `base64::engine::general_purpose::URL_SAFE_NO_PAD.decode`, its error
/// turned into its display text.  Both outcomes are named, not stated.
#[verifier::external_body]
fn base64_url_decode(text: &str) -> (r: Result<Vec<u8>, String>)
    ensures
        match (r, base64_url_nopad_decode(text@)) {
            (Ok(b), Ok(c)) => b@ == c,
            (Err(e), Err(m)) => e@ == m,
            _ => false,
        },
{
    match base64::engine::general_purpose::URL_SAFE_NO_PAD.decode(text) {
        Ok(bytes) => Ok(bytes),
        Err(error) => Err(error.to_string()),
    }
}

/// `Hmac::<Sha256>::new_from_slice`, `update` and `finalize`: the tag of
/// `data` under `key`, named.  `new_from_slice` accepts keys of every
/// length for HMAC (a long key is hashed, a short one padded), so the
/// result is always `Ok`.
#[verifier::external_body]
fn hmac_sha256(key: &[u8], data: &[u8]) -> (r: Result<Vec<u8>, String>)
    ensures
        r is Ok,
        r->Ok_0@ == hmac_sha256_tag(key@, data@),
{
    match hmac::Hmac::<sha2::Sha256>::new_from_slice(key) {
        Ok(mut mac) => {
            mac.update(data);
            Ok(mac.finalize().into_bytes().to_vec())
        },
        Err(error) => Err(error.to_string()),
    }
}

// ---------------------------------------------------------------------------
// Tokens
// ---------------------------------------------------------------------------

/// The segments of a token: the pieces between its dots.
pub open spec fn jwt_parts(token: Seq<char>) -> Seq<Seq<char>> {
    split_spec(token, seq!['.'])
}

/// Exactly three segments, none of them empty.
pub open spec fn well_formed_parts(parts: Seq<Seq<char>>) -> bool {
    parts.len() == 3 && parts[0].len() > 0 && parts[1].len() > 0 && parts[2].len() > 0
}

pub open spec fn jwt_too_long_error() -> Seq<char> {
    "jwt_token must not exceed 65536 bytes"@
}

pub open spec fn jwt_format_error() -> Seq<char> {
    "invalid JWT format: expected exactly three non-empty segments"@
}

/// Splits a token into its header, payload and signature segments: `Err`
/// when it is longer than 65536 bytes, or when it does not have exactly
/// three non-empty dot-separated segments.
pub fn split_jwt_token(token: &str) -> (r: Result<Vec<String>, String>)
    ensures
        if byte_len(token@) > MAX_JWT_BYTES {
            r matches Err(e) && e@ == jwt_too_long_error()
        } else if well_formed_parts(jwt_parts(token@)) {
            r matches Ok(v) && strings_view(v@) == jwt_parts(token@)
        } else {
            r matches Err(e) && e@ == jwt_format_error()
        },
{
    let cs = chars_of(token);
    if byte_len_of(cs.as_slice()) > MAX_JWT_BYTES {
        return Err(string_from_chars(chars_of("jwt_token must not exceed 65536 bytes").as_slice()));
    }
    let dot = vec!['.'];
    proof {
        assert(dot@ =~= seq!['.']);
    }
    let parts = split_by(cs.as_slice(), dot.as_slice());
    if parts.len() != 3 || parts[0].len() == 0 || parts[1].len() == 0 || parts[2].len() == 0 {
        return Err(
            string_from_chars(
                chars_of("invalid JWT format: expected exactly three non-empty segments").as_slice(),
            ),
        );
    }
    let mut out: Vec<String> = Vec::new();
    let mut k: usize = 0;
    while k < 3
        invariant
            k <= 3,
            parts@.len() == 3,
            out@.len() == k,
            forall|i: int| 0 <= i < k ==> #[trigger] out@[i]@ == parts@[i]@,
        decreases 3 - k,
    {
        out.push(string_from_chars(parts[k].as_slice()));
        k += 1;
    }
    proof {
        assert(strings_view(out@) =~= jwt_parts(token@));
    }
    Ok(out)
}

/// The value the token is sent as: `Bearer <token>` in an
/// `Authorization` header (in any letter case), the bare token in any other.
pub open spec fn auth_value(header_name: Seq<char>, token: Seq<char>) -> Seq<char> {
    if eq_ignore_case(header_name, "authorization"@) {
        "Bearer "@ + token
    } else {
        token
    }
}

pub fn jwt_auth_value(header_name: &str, token: &str) -> (r: String)
    ensures
        r@ == auth_value(header_name@, token@),
{
    let name = chars_of(header_name);
    let want = chars_of("authorization");
    let t = chars_of(token);
    if eq_ignore_ascii_case(name.as_slice(), want.as_slice()) {
        let v = concat_chars(chars_of("Bearer "), t.as_slice());
        string_from_chars(v.as_slice())
    } else {
        string_from_chars(t.as_slice())
    }
}

/// The error for a segment that is not URL-safe Base64.
pub open spec fn segment_error(part: Seq<char>, message: Seq<char>) -> Seq<char> {
    "invalid JWT "@ + part + " base64: "@ + message
}

/// Decodes a token segment; `part` names it in the error.
pub fn decode_jwt_segment(segment: &str, part: &str) -> (r: Result<Vec<u8>, String>)
    ensures
        match base64_url_nopad_decode(segment@) {
            Ok(b) => r matches Ok(v) && v@ == b,
            Err(m) => r matches Err(e) && e@ == segment_error(part@, m),
        },
{
    match base64_url_decode(segment) {
        Ok(bytes) => Ok(bytes),
        Err(message) => {
            let mut v = concat_chars(chars_of("invalid JWT "), chars_of(part).as_slice());
            v = concat_chars(v, chars_of(" base64: ").as_slice());
            v = concat_chars(v, chars_of(message.as_str()).as_slice());
            Err(string_from_chars(v.as_slice()))
        },
    }
}

fn join3(a: &[char], b: &[char], c: &[char]) -> (r: String)
    ensures
        r@ == a@ + seq!['.'] + b@ + seq!['.'] + c@,
{
    let mut v = concat_chars(Vec::new(), a);
    v.push('.');
    v = concat_chars(v, b);
    v.push('.');
    v = concat_chars(v, c);
    proof {
        assert(v@ =~= a@ + seq!['.'] + b@ + seq!['.'] + c@);
    }
    string_from_chars(v.as_slice())
}

/// The unsigned token: the re-encoded header (which names `alg` `none`),
/// the original payload segment and an empty signature.
pub fn unsigned_jwt(header_json: &[u8], payload_segment: &str) -> (r: String)
    ensures
        r@ == base64_url_nopad(header_json@) + seq!['.'] + payload_segment@ + seq!['.'],
{
    let h = base64_url_encode(header_json);
    let empty: Vec<char> = Vec::new();
    let r = join3(chars_of(h.as_str()).as_slice(), chars_of(payload_segment).as_slice(), empty.as_slice());
    proof {
        assert(r@ =~= base64_url_nopad(header_json@) + seq!['.'] + payload_segment@ + seq!['.']);
    }
    r
}

/// The token with tampered claims: the original header and signature
/// segments around the re-encoded payload.
pub fn tampered_jwt(header_segment: &str, payload_json: &[u8], signature_segment: &str) -> (r:
    String)
    ensures
        r@ == header_segment@ + seq!['.'] + base64_url_nopad(payload_json@) + seq!['.']
            + signature_segment@,
{
    let p = base64_url_encode(payload_json);
    join3(
        chars_of(header_segment).as_slice(),
        chars_of(p.as_str()).as_slice(),
        chars_of(signature_segment).as_slice(),
    )
}

/// What an HS256 token signs: the re-encoded header and the payload segment.
pub open spec fn hs256_signing_input(header_json: Seq<u8>, payload_segment: Seq<char>) -> Seq<
    char,
> {
    base64_url_nopad(header_json) + seq!['.'] + payload_segment
}

/// The algorithm-confusion token: the re-encoded header (which names `alg`
/// `HS256`), the payload segment, and an HMAC-SHA256 signature keyed with
/// the bytes of the public key.
pub fn hs256_jwt(header_json: &[u8], payload_segment: &str, public_key: &str) -> (r: String)
    ensures
        r@ == hs256_signing_input(header_json@, payload_segment@) + seq!['.'] + base64_url_nopad(
            hmac_sha256_tag(
                vstd::utf8::encode_utf8(public_key@),
                vstd::utf8::encode_utf8(hs256_signing_input(header_json@, payload_segment@)),
            ),
        ),
{
    let h = base64_url_encode(header_json);
    let dot = vec!['.'];
    let mut input = concat_chars(chars_of(h.as_str()), dot.as_slice());
    input = concat_chars(input, chars_of(payload_segment).as_slice());
    proof {
        assert(input@ =~= hs256_signing_input(header_json@, payload_segment@));
    }
    let input_text = string_from_chars(input.as_slice());
    let key = vstd::slice::slice_to_vec(public_key.as_bytes());
    let data = vstd::slice::slice_to_vec(input_text.as_str().as_bytes());
    let tag = match hmac_sha256(key.as_slice(), data.as_slice()) {
        Ok(t) => t,
        Err(_) => Vec::new(),
    };
    let sig = base64_url_encode(tag.as_slice());
    let mut out = concat_chars(input, dot.as_slice());
    out = concat_chars(out, chars_of(sig.as_str()).as_slice());
    string_from_chars(out.as_slice())
}

// ---------------------------------------------------------------------------
// Limits and verdict
// ---------------------------------------------------------------------------

pub fn validate_public_key(pem: &str) -> (r: Result<(), String>)
    ensures
        r is Ok <==> byte_len(pem@) <= MAX_PUBLIC_KEY_BYTES,
        r matches Err(e) ==> e@ == "public_key_pem must not exceed 1048576 bytes"@,
{
    if byte_len_of(chars_of(pem).as_slice()) > MAX_PUBLIC_KEY_BYTES {
        Err(string_from_chars(chars_of("public_key_pem must not exceed 1048576 bytes").as_slice()))
    } else {
        Ok(())
    }
}

pub fn validate_tamper_count(count: usize) -> (r: Result<(), String>)
    ensures
        r is Ok <==> 1 <= count <= MAX_TAMPER_CLAIMS,
        r matches Err(e) ==> e@ == "tamper_claims must contain between 1 and 128 entries"@,
{
    if count == 0 || count > MAX_TAMPER_CLAIMS {
        Err(
            string_from_chars(
                chars_of("tamper_claims must contain between 1 and 128 entries").as_slice(),
            ),
        )
    } else {
        Ok(())
    }
}

// ---------------------------------------------------------------------------
// Test vectors
// ---------------------------------------------------------------------------

/// The test vectors of the audit.
#[derive(Debug, Clone, Copy, PartialEq, Eq, Structural)]
pub enum JwtVectorKind {
    /// The token re-issued unsigned, with `alg` set to `none`.
    AlgNone,
    /// The token signed with HS256, the public key's bytes as the secret.
    AlgorithmConfusionHs256,
    /// The payload with tampered claims, under the original signature.
    TamperedClaims,
}

/// The vectors an audit tries, in order, or the error that stops it: the
/// unsigned token always; the HS256 token when a public key is given, a key
/// of at most `MAX_PUBLIC_KEY_BYTES` bytes; the tampered token when claims
/// are given, between 1 and `MAX_TAMPER_CLAIMS` of them.
pub open spec fn jwt_vector_plan(public_key: Option<Seq<char>>, tamper_count: Option<nat>) -> Result<
    Seq<JwtVectorKind>,
    Seq<char>,
> {
    if public_key matches Some(k) && byte_len(k) > MAX_PUBLIC_KEY_BYTES {
        Err("public_key_pem must not exceed 1048576 bytes"@)
    } else if tamper_count matches Some(c) && !(1 <= c <= MAX_TAMPER_CLAIMS) {
        Err("tamper_claims must contain between 1 and 128 entries"@)
    } else {
        Ok(
            seq![JwtVectorKind::AlgNone] + (if public_key is Some {
                seq![JwtVectorKind::AlgorithmConfusionHs256]
            } else {
                Seq::empty()
            }) + (if tamper_count is Some {
                seq![JwtVectorKind::TamperedClaims]
            } else {
                Seq::empty()
            }),
        )
    }
}

/// The vectors an audit tries, given the public key and the number of
/// claims to tamper with (see `jwt_vector_plan`).
pub fn jwt_vector_kinds(public_key: Option<&str>, tamper_count: Option<usize>) -> (r: Result<
    Vec<JwtVectorKind>,
    String,
>)
    ensures
        match (r, jwt_vector_plan(
            match public_key {
                Some(k) => Some(k@),
                None => None,
            },
            match tamper_count {
                Some(c) => Some(c as nat),
                None => None,
            },
        )) {
            (Ok(v), Ok(w)) => v@ == w,
            (Err(e), Err(m)) => e@ == m,
            _ => false,
        },
{
    if let Some(key) = public_key {
        if let Err(e) = validate_public_key(key) {
            return Err(e);
        }
    }
    if let Some(count) = tamper_count {
        if let Err(e) = validate_tamper_count(count) {
            return Err(e);
        }
    }
    let mut kinds: Vec<JwtVectorKind> = Vec::new();
    kinds.push(JwtVectorKind::AlgNone);
    if public_key.is_some() {
        kinds.push(JwtVectorKind::AlgorithmConfusionHs256);
    }
    if tamper_count.is_some() {
        kinds.push(JwtVectorKind::TamperedClaims);
    }
    assert(kinds@ =~= seq![JwtVectorKind::AlgNone] + (if public_key is Some {
        seq![JwtVectorKind::AlgorithmConfusionHs256]
    } else {
        Seq::empty()
    }) + (if tamper_count is Some {
        seq![JwtVectorKind::TamperedClaims]
    } else {
        Seq::empty()
    }));
    Ok(kinds)
}

/// The name a vector is reported under.
pub fn jwt_vector_name(kind: JwtVectorKind) -> (r: &'static str)
    ensures
        r@ == match kind {
            JwtVectorKind::AlgNone => "alg_none"@,
            JwtVectorKind::AlgorithmConfusionHs256 => "algorithm_confusion_hs256"@,
            JwtVectorKind::TamperedClaims => "tampered_claims_invalid_signature"@,
        },
{
    match kind {
        JwtVectorKind::AlgNone => "alg_none",
        JwtVectorKind::AlgorithmConfusionHs256 => "algorithm_confusion_hs256",
        JwtVectorKind::TamperedClaims => "tampered_claims_invalid_signature",
    }
}

/// What a vector checks, as reported.
pub fn jwt_vector_description(kind: JwtVectorKind) -> (r: &'static str)
    ensures
        r@ == match kind {
            JwtVectorKind::AlgNone => "Checked whether the server accepts an unsigned token with alg=none"@,
            JwtVectorKind::AlgorithmConfusionHs256 =>
                "Checked whether the server accepts HS256 signed with supplied public key bytes"@,
            JwtVectorKind::TamperedClaims =>
                "Checked whether the server accepts modified claims with the original signature"@,
        },
{
    match kind {
        JwtVectorKind::AlgNone => "Checked whether the server accepts an unsigned token with alg=none",
        JwtVectorKind::AlgorithmConfusionHs256 =>
            "Checked whether the server accepts HS256 signed with supplied public key bytes",
        JwtVectorKind::TamperedClaims =>
            "Checked whether the server accepts modified claims with the original signature",
    }
}

/// The record of one probe: a bypass is a successful (2xx) answer to the
/// malicious token.
pub fn jwt_test_result(
    vector: &str,
    modified_jwt: String,
    status: u32,
    length: usize,
    description: &str,
) -> (r: JwtTestResult)
    ensures
        r.vector@ == vector@,
        r.modified_jwt@ == modified_jwt@,
        r.status == Some(status),
        r.length == length,
        r.bypass_detected == success_status(status),
        r.description@ == description@,
{
    JwtTestResult {
        vector: string_from_chars(chars_of(vector).as_slice()),
        modified_jwt,
        status: Some(status),
        length,
        bypass_detected: is_success(status),
        description: string_from_chars(chars_of(description).as_slice()),
    }
}

pub open spec fn any_bypass(results: Seq<JwtTestResult>) -> bool {
    exists|k: int| 0 <= k < results.len() && #[trigger] results[k].bypass_detected
}

pub open spec fn jwt_summary(vulnerable: bool) -> Seq<char> {
    if vulnerable {
        "VULNERABILITY DETECTED: server accepted at least one malicious JWT test vector"@
    } else {
        "No tested malicious JWT vector received a successful HTTP response"@
    }
}

/// Whether any vector bypassed the check, and the summary that says so.
pub fn jwt_verdict(results: &Vec<JwtTestResult>) -> (r: (bool, String))
    ensures
        r.0 == any_bypass(results@),
        r.1@ == jwt_summary(r.0),
{
    let mut found = false;
    let mut k: usize = 0;
    while k < results.len()
        invariant
            k <= results@.len(),
            found == exists|i: int| 0 <= i < k && #[trigger] results@[i].bypass_detected,
        decreases results@.len() - k,
    {
        if results[k].bypass_detected {
            found = true;
        }
        k += 1;
    }
    let summary = if found {
        "VULNERABILITY DETECTED: server accepted at least one malicious JWT test vector"
    } else {
        "No tested malicious JWT vector received a successful HTTP response"
    };
    (found, string_from_chars(chars_of(summary).as_slice()))
}

/// The value the last of `claims` named `name` gives, if any.
pub open spec fn claim_value(claims: Seq<(String, JsonValue)>, name: Seq<char>) -> Option<JsonValue>
    decreases claims.len(),
{
    if claims.len() == 0 {
        None
    } else if claims.last().0@ == name {
        Some(claims.last().1)
    } else {
        claim_value(claims.drop_last(), name)
    }
}

/// A JWT header with its `alg` set to `alg`, every other member kept; a
/// header that is no JSON object is refused.
pub fn jwt_header_with_alg(header: JsonValue, alg: &str) -> (r: Result<JsonValue, String>)
    ensures
        match r {
            Ok(h) => header is Object && (member(h, "alg"@) matches Some(JsonValue::String(a))
                && a@ == alg@) && forall|n: Seq<char>| n != "alg"@ ==> #[trigger] member(h, n)
                == member(header, n),
            Err(e) => !(header is Object) && e@ == "JWT header and payload must both be JSON objects"@,
        },
{
    match header {
        JsonValue::Object(_) => Ok(
            set_member(header, "alg", JsonValue::String(string_from_chars(chars_of(alg).as_slice()))),
        ),
        _ => Err(
            string_from_chars(
                chars_of("JWT header and payload must both be JSON objects").as_slice(),
            ),
        ),
    }
}

/// A JWT payload with the tampered claims set (a later claim of a name
/// wins), every other member kept; between 1 and `MAX_TAMPER_CLAIMS`
/// claims are allowed, and a payload that is no JSON object is refused.
pub fn jwt_payload_with_claims(payload: JsonValue, claims: Vec<(String, JsonValue)>) -> (r: Result<JsonValue, String>)
    ensures
        match r {
            Ok(p) => 1 <= claims@.len() <= MAX_TAMPER_CLAIMS && payload is Object && forall|n: Seq<char>|
                #[trigger] member(p, n) == match claim_value(claims@, n) {
                    Some(v) => Some(v),
                    None => member(payload, n),
                },
            Err(e) => if !(1 <= claims@.len() <= MAX_TAMPER_CLAIMS) {
                e@ == "tamper_claims must contain between 1 and 128 entries"@
            } else {
                !(payload is Object) && e@ == "JWT payload must be a JSON object"@
            },
        },
{
    let n = claims.len();
    validate_tamper_count(n)?;
    let is_object = match &payload {
        JsonValue::Object(_) => true,
        _ => false,
    };
    if !is_object {
        return Err(string_from_chars(chars_of("JWT payload must be a JSON object").as_slice()));
    }
    let ghost p0 = payload;
    let ghost all = claims@;
    let mut p = payload;
    let mut rest = claims;
    let mut k: usize = 0;
    proof {
        assert(all.subrange(0, n as int) =~= all);
        assert(all.subrange(0, 0) =~= Seq::<(String, JsonValue)>::empty());
    }
    while k < n
        invariant
            n == all.len(),
            k <= n,
            rest@ == all.subrange(k as int, n as int),
            p is Object,
            forall|name: Seq<char>| #[trigger] member(p, name) == match claim_value(all.subrange(0, k as int), name) {
                Some(v) => Some(v),
                None => member(p0, name),
            },
        decreases n - k,
    {
        let (name, value) = rest.remove(0);
        proof {
            assert((name, value) == all[k as int]);
            assert(rest@ =~= all.subrange(k + 1, n as int));
            assert(all.subrange(0, k + 1).drop_last() =~= all.subrange(0, k as int));
        }
        p = set_member(p, name.as_str(), value);
        k += 1;
    }
    proof {
        assert(all.subrange(0, n as int) =~= all);
    }
    Ok(p)
}

} // verus!
