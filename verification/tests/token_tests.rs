//! Minting and validating bearer tokens.

use authsec::claims::{authenticate_bearer, mint_claims, validate_token, TokenError};

const SECRET: &[u8] = b"test-signing-secret";
const NOW: usize = 1_700_000_000;

#[test]
fn claims_round_trip() {
    let token = mint_claims(SECRET, "u1", "google", NOW).expect("mint succeeds");
    let claims = validate_token(SECRET, &token, NOW).expect("fresh token validates");
    assert_eq!(claims.sub, "u1");
    assert_eq!(claims.provider, "google");
    assert_eq!(claims.exp, NOW + 3600);
}

#[test]
fn claims_round_trip_awkward_subject() {
    // quotes, backslashes, control bytes and non-ASCII text all survive
    let subject = "we\"ird\\user\n\u{1}name \u{00e9}\u{4e16}\u{754c}";
    let token = mint_claims(SECRET, subject, "github", NOW).expect("mint succeeds");
    let claims = validate_token(SECRET, &token, NOW).expect("token validates");
    assert_eq!(claims.sub, subject);
    assert_eq!(claims.provider, "github");
}

#[test]
fn claims_accepted_by_reference_validator() {
    // the reference decoder checks expiry against the wall clock, so mint
    // relative to it
    let now = std::time::SystemTime::now()
        .duration_since(std::time::UNIX_EPOCH)
        .unwrap()
        .as_secs() as usize;
    let token = mint_claims(SECRET, "u1", "google", now).expect("mint succeeds");
    let header = jsonwebtoken::decode_header(&token).expect("reference parses the header");
    assert_eq!(header.alg, jsonwebtoken::Algorithm::HS256);
    let data = jsonwebtoken::decode::<serde_json::Value>(
        &token,
        &jsonwebtoken::DecodingKey::from_secret(SECRET),
        &jsonwebtoken::Validation::default(),
    )
    .expect("reference validator accepts the token");
    assert_eq!(data.claims["sub"], "u1");
    assert_eq!(data.claims["provider"], "google");
    assert_eq!(data.claims["exp"], serde_json::Value::from((now + 3600) as u64));
}

#[test]
fn claims_expired_rejected() {
    // a token whose expiry lies in the past at validation time
    let token = mint_claims(SECRET, "u1", "google", NOW).expect("mint succeeds");
    let later = NOW + 3600;
    assert!(matches!(
        validate_token(SECRET, &token, later),
        Err(TokenError::ValidationFailed)
    ));
    // still valid one second before the hour is up
    assert!(validate_token(SECRET, &token, later - 1).is_ok());
}

#[test]
fn claims_tamper_rejected() {
    let token = mint_claims(SECRET, "u1", "google", NOW).expect("mint succeeds");
    let sig_start = token.rfind('.').unwrap() + 1;
    let bytes = token.as_bytes();
    for i in sig_start..token.len() {
        let mut tampered = bytes.to_vec();
        // replace the character with a different base64url character
        tampered[i] = if tampered[i] == b'A' { b'B' } else { b'A' };
        if tampered[i] == bytes[i] {
            continue;
        }
        let tampered = String::from_utf8(tampered).unwrap();
        assert!(
            validate_token(SECRET, &tampered, NOW).is_err(),
            "tampered signature at {i} accepted"
        );
    }
}

#[test]
fn claims_wrong_secret_rejected() {
    let token = mint_claims(SECRET, "u1", "google", NOW).expect("mint succeeds");
    assert!(validate_token(b"other-secret", &token, NOW).is_err());
}

#[test]
fn claims_garbage_rejected() {
    for junk in ["", "abc", "a.b", "a.b.c", "....", "e30.e30.e30", "т.о.к", "\u{202e}x.y.z"] {
        assert!(validate_token(SECRET, junk, NOW).is_err(), "accepted {junk:?}");
    }
}

#[test]
fn bearer_header_parsing() {
    let token = mint_claims(SECRET, "u1", "google", NOW).expect("mint succeeds");
    let ok = authenticate_bearer(SECRET, &format!("Bearer {token}"), NOW)
        .expect("well-formed bearer header authenticates");
    assert_eq!(ok.0.sub, "u1");
    assert!(authenticate_bearer(SECRET, &token, NOW).is_err(), "missing scheme accepted");
    assert!(authenticate_bearer(SECRET, "Basic abc", NOW).is_err());
    assert!(authenticate_bearer(SECRET, "", NOW).is_err());
}
