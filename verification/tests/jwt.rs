use burp_tools::jwt::{jwt_vector_description, jwt_vector_kinds, jwt_vector_name, JwtVectorKind};
use burp_tools::json_value::{member_of, JsonValue};
use burp_tools::jwt::{jwt_header_with_alg, jwt_payload_with_claims};
use base64::Engine;
use burp_tools::jwt::{
    decode_jwt_segment, hs256_jwt, jwt_auth_value, jwt_test_result, jwt_verdict,
    split_jwt_token, tampered_jwt, unsigned_jwt, validate_public_key, validate_tamper_count,
};
use hmac::Mac;

const TOKEN: &str = "eyJhbGciOiJIUzI1NiJ9.eyJzdWIiOiIxIn0.c2ln";

#[test]
fn tokens_split_into_three_segments() {
    assert_eq!(
        split_jwt_token(TOKEN).unwrap(),
        vec!["eyJhbGciOiJIUzI1NiJ9", "eyJzdWIiOiIxIn0", "c2ln"]
    );
    for bad in ["a.b", "a.b.c.d", "a..c", ".b.c", "a.b.", "abc", ""] {
        assert_eq!(
            split_jwt_token(bad),
            Err("invalid JWT format: expected exactly three non-empty segments".to_string())
        );
    }
    let long = format!("{}.b.c", "a".repeat(65536));
    assert_eq!(
        split_jwt_token(&long),
        Err("jwt_token must not exceed 65536 bytes".to_string())
    );
    let at_limit = format!("{}.b.c", "a".repeat(65532));
    assert_eq!(split_jwt_token(&at_limit).unwrap().len(), 3);
}

#[test]
fn the_token_is_sent_as_a_bearer_credential_only_in_authorization() {
    assert_eq!(jwt_auth_value("Authorization", "t0k"), "Bearer t0k");
    assert_eq!(jwt_auth_value("AUTHORIZATION", "t0k"), "Bearer t0k");
    assert_eq!(jwt_auth_value("X-Api-Token", "t0k"), "t0k");
}

#[test]
fn segments_decode_from_url_safe_base64() {
    assert_eq!(
        decode_jwt_segment("eyJhbGciOiJIUzI1NiJ9", "header").unwrap(),
        b"{\"alg\":\"HS256\"}".to_vec()
    );
    let err = decode_jwt_segment("!!!", "payload").unwrap_err();
    assert!(err.starts_with("invalid JWT payload base64: "), "{err}");
    assert!(err.len() > "invalid JWT payload base64: ".len());
}

#[test]
fn unsigned_and_tampered_vectors_keep_the_other_segments() {
    assert_eq!(
        unsigned_jwt(b"{\"alg\":\"none\"}", "eyJzdWIiOiIxIn0"),
        "eyJhbGciOiJub25lIn0.eyJzdWIiOiIxIn0."
    );
    assert_eq!(
        tampered_jwt("eyJhbGciOiJIUzI1NiJ9", b"{\"sub\":\"2\"}", "c2ln"),
        "eyJhbGciOiJIUzI1NiJ9.eyJzdWIiOiIyIn0.c2ln"
    );
}

#[test]
fn algorithm_confusion_vector_is_signed_with_the_key_bytes() {
    let token = hs256_jwt(b"{\"alg\":\"HS256\"}", "eyJzdWIiOiIxIn0", "-----KEY-----");
    let signing_input = "eyJhbGciOiJIUzI1NiJ9.eyJzdWIiOiIxIn0";
    let mut mac = hmac::Hmac::<sha2::Sha256>::new_from_slice(b"-----KEY-----").unwrap();
    mac.update(signing_input.as_bytes());
    let expected = base64::engine::general_purpose::URL_SAFE_NO_PAD
        .encode(mac.finalize().into_bytes());
    assert_eq!(token, format!("{signing_input}.{expected}"));
    // The signature of a 32-byte tag is 43 characters long.
    assert_eq!(token.len(), signing_input.len() + 1 + 43);
}

#[test]
fn limits_on_keys_and_claims() {
    assert!(validate_public_key(&"k".repeat(1048576)).is_ok());
    assert_eq!(
        validate_public_key(&"k".repeat(1048577)),
        Err("public_key_pem must not exceed 1048576 bytes".to_string())
    );
    assert!(validate_tamper_count(1).is_ok());
    assert!(validate_tamper_count(128).is_ok());
    for bad in [0, 129] {
        assert_eq!(
            validate_tamper_count(bad),
            Err("tamper_claims must contain between 1 and 128 entries".to_string())
        );
    }
}

#[test]
fn a_successful_answer_to_any_vector_is_a_vulnerability() {
    let ok = jwt_test_result("alg_none", "t".to_string(), 200, 10, "d");
    let denied = jwt_test_result("alg_none", "t".to_string(), 401, 0, "d");
    assert!(ok.bypass_detected);
    assert!(!denied.bypass_detected);
    assert_eq!(ok.status, Some(200));
    let (vulnerable, summary) = jwt_verdict(&vec![denied.clone(), ok]);
    assert!(vulnerable);
    assert_eq!(
        summary,
        "VULNERABILITY DETECTED: server accepted at least one malicious JWT test vector"
    );
    let (vulnerable, summary) = jwt_verdict(&vec![denied]);
    assert!(!vulnerable);
    assert_eq!(
        summary,
        "No tested malicious JWT vector received a successful HTTP response"
    );
}

#[test]
fn header_and_claim_edits_keep_other_members() {
    let header = JsonValue::Object(vec![
        ("alg".to_string(), JsonValue::String("RS256".to_string())),
        ("typ".to_string(), JsonValue::String("JWT".to_string())),
    ]);
    let h = jwt_header_with_alg(header, "none").unwrap();
    assert!(matches!(member_of(&h, "alg"), Some(JsonValue::String(a)) if a == "none"));
    assert!(matches!(member_of(&h, "typ"), Some(JsonValue::String(t)) if t == "JWT"));
    let h = jwt_header_with_alg(JsonValue::Object(vec![]), "HS256").unwrap();
    assert!(matches!(member_of(&h, "alg"), Some(JsonValue::String(a)) if a == "HS256"));
    assert_eq!(
        jwt_header_with_alg(JsonValue::Null, "none").unwrap_err(),
        "JWT header and payload must both be JSON objects"
    );

    let payload = JsonValue::Object(vec![
        ("sub".to_string(), JsonValue::String("alice".to_string())),
        ("admin".to_string(), JsonValue::Bool(false)),
    ]);
    let p = jwt_payload_with_claims(
        payload,
        vec![
            ("admin".to_string(), JsonValue::Bool(true)),
            ("role".to_string(), JsonValue::String("root".to_string())),
        ],
    )
    .unwrap();
    assert!(matches!(member_of(&p, "admin"), Some(JsonValue::Bool(true))));
    assert!(matches!(member_of(&p, "role"), Some(JsonValue::String(r)) if r == "root"));
    assert!(matches!(member_of(&p, "sub"), Some(JsonValue::String(s)) if s == "alice"));
    assert_eq!(
        jwt_payload_with_claims(JsonValue::Object(vec![]), vec![]).unwrap_err(),
        "tamper_claims must contain between 1 and 128 entries"
    );
}

#[test]
fn segments_encode_as_unpadded_url_safe_base64() {
    assert_eq!(unsigned_jwt(&[0xfb, 0xff], "p"), "-_8.p.");
    assert_eq!(unsigned_jwt(b"hello", "p"), "aGVsbG8.p.");
    assert_eq!(unsigned_jwt(b"abc", "p"), "YWJj.p.");
}

#[test]
fn vectors_follow_the_key_and_the_claims() {
    assert_eq!(jwt_vector_kinds(None, None).unwrap(), vec![JwtVectorKind::AlgNone]);
    assert_eq!(
        jwt_vector_kinds(Some("pem"), Some(2)).unwrap(),
        vec![
            JwtVectorKind::AlgNone,
            JwtVectorKind::AlgorithmConfusionHs256,
            JwtVectorKind::TamperedClaims
        ]
    );
    assert_eq!(
        jwt_vector_kinds(None, Some(1)).unwrap(),
        vec![JwtVectorKind::AlgNone, JwtVectorKind::TamperedClaims]
    );
    let big = "k".repeat(1024 * 1024 + 1);
    assert_eq!(
        jwt_vector_kinds(Some(&big), Some(0)).unwrap_err(),
        "public_key_pem must not exceed 1048576 bytes"
    );
    assert_eq!(
        jwt_vector_kinds(Some("pem"), Some(0)).unwrap_err(),
        "tamper_claims must contain between 1 and 128 entries"
    );
    assert_eq!(
        jwt_vector_kinds(None, Some(129)).unwrap_err(),
        "tamper_claims must contain between 1 and 128 entries"
    );
    assert_eq!(jwt_vector_name(JwtVectorKind::AlgNone), "alg_none");
    assert_eq!(
        jwt_vector_name(JwtVectorKind::TamperedClaims),
        "tampered_claims_invalid_signature"
    );
    assert!(jwt_vector_description(JwtVectorKind::AlgorithmConfusionHs256).contains("HS256"));
}
