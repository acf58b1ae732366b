//! The key encapsulation service.

use authsec::b64::encode_bytes;
use authsec::kem::{
    decapsulate, encapsulate, init_commsec_state, keypair_response, DecapsulateRequest,
    EncapsulateRequest, KemError,
};
use base64::engine::general_purpose::STANDARD;
use base64::Engine;

#[test]
fn kem_round_trip() {
    let state = init_commsec_state();
    let keys = keypair_response(&state);
    let enc = encapsulate(&EncapsulateRequest { public_key: keys.public_key.clone() })
        .expect("encapsulating to a fresh public key succeeds");
    let dec = decapsulate(&DecapsulateRequest {
        secret_key: keys.secret_key.clone(),
        ciphertext: enc.ciphertext.clone(),
    })
    .expect("decapsulating a well-formed ciphertext succeeds");
    assert_eq!(dec.shared_secret, enc.shared_secret);
}

#[test]
fn kem_implicit_rejection() {
    let state_a = init_commsec_state();
    let state_b = init_commsec_state();
    let keys_a = keypair_response(&state_a);
    let keys_b = keypair_response(&state_b);
    let enc = encapsulate(&EncapsulateRequest { public_key: keys_a.public_key.clone() })
        .expect("encapsulation succeeds");
    // decapsulating under the wrong secret key does not fail ...
    let dec = decapsulate(&DecapsulateRequest {
        secret_key: keys_b.secret_key.clone(),
        ciphertext: enc.ciphertext.clone(),
    })
    .expect("implicit rejection still yields a secret");
    // ... and yields a fixed-size secret that does not match
    let secret = STANDARD.decode(&dec.shared_secret).unwrap();
    assert_eq!(secret.len(), 32);
    assert_ne!(dec.shared_secret, enc.shared_secret);
}

#[test]
fn kem_keypair_sizes() {
    let state = init_commsec_state();
    let keys = keypair_response(&state);
    assert_eq!(STANDARD.decode(&keys.public_key).unwrap().len(), 1568);
    assert_eq!(STANDARD.decode(&keys.secret_key).unwrap().len(), 3168);
}

#[test]
fn kem_invalid_base64() {
    let r = encapsulate(&EncapsulateRequest { public_key: "not base64!".to_string() });
    assert!(matches!(r, Err(KemError::InvalidBase64)));
    let r = decapsulate(&DecapsulateRequest {
        secret_key: "###".to_string(),
        ciphertext: String::new(),
    });
    assert!(matches!(r, Err(KemError::InvalidBase64)));
}

#[test]
fn kem_invalid_key_material() {
    let short = encode_bytes(false, true, &vec![7u8; 16]);
    let short_b64 = String::from_utf8(short).unwrap();
    let r = encapsulate(&EncapsulateRequest { public_key: short_b64.clone() });
    assert!(matches!(r, Err(KemError::InvalidKeyMaterial)));
    let r = decapsulate(&DecapsulateRequest {
        secret_key: short_b64.clone(),
        ciphertext: short_b64.clone(),
    });
    assert!(matches!(r, Err(KemError::InvalidKeyMaterial)));
}
