//! The authenticated cipher service.

use aes_gcm::aead::Aead;
use aes_gcm::KeyInit;
use authsec::aead::{
    aead_decrypt, aead_encrypt, AeadDecryptRequest, AeadEncryptRequest, AeadError,
};
use base64::engine::general_purpose::STANDARD;
use base64::Engine;

fn b64(bytes: &[u8]) -> String {
    STANDARD.encode(bytes)
}

fn zero_key() -> String {
    b64(&[0u8; 32])
}

fn zero_nonce() -> String {
    b64(&[0u8; 12])
}

fn encrypt_req(plaintext: &str, aad: Option<&str>) -> AeadEncryptRequest {
    AeadEncryptRequest {
        key: zero_key(),
        nonce: zero_nonce(),
        plaintext: plaintext.to_string(),
        associated_data: aad.map(|s| s.to_string()),
    }
}

fn decrypt_req(ciphertext: &str, aad: Option<&str>) -> AeadDecryptRequest {
    AeadDecryptRequest {
        key: zero_key(),
        nonce: zero_nonce(),
        ciphertext: ciphertext.to_string(),
        associated_data: aad.map(|s| s.to_string()),
    }
}

#[test]
fn aead_round_trip() {
    let enc = aead_encrypt(&encrypt_req("hello", None)).expect("encryption succeeds");
    let dec = aead_decrypt(&decrypt_req(&enc.ciphertext, None)).expect("decryption succeeds");
    assert_eq!(dec.plaintext, "hello");
}

#[test]
fn aead_deterministic_and_matches_reference() {
    // sealing is deterministic for a fixed key, nonce, plaintext and
    // associated data, and matches the cipher used directly
    let first = aead_encrypt(&encrypt_req("hello", None)).unwrap();
    let second = aead_encrypt(&encrypt_req("hello", None)).unwrap();
    assert_eq!(first.ciphertext, second.ciphertext);
    let reference = {
        let cipher = aes_gcm::Aes256Gcm::new(aes_gcm::Key::<aes_gcm::Aes256Gcm>::from_slice(
            &[0u8; 32],
        ));
        cipher
            .encrypt(aes_gcm::Nonce::from_slice(&[0u8; 12]), "hello".as_bytes())
            .unwrap()
    };
    assert_eq!(first.ciphertext, b64(&reference));
}

#[test]
fn aead_round_trip_with_aad() {
    let enc = aead_encrypt(&encrypt_req("payload", Some("context"))).unwrap();
    let dec = aead_decrypt(&decrypt_req(&enc.ciphertext, Some("context"))).unwrap();
    assert_eq!(dec.plaintext, "payload");
}

#[test]
fn aead_tamper_detection() {
    // flipping any single bit of the ciphertext makes decryption fail
    let enc = aead_encrypt(&encrypt_req("hello", None)).unwrap();
    let ct = STANDARD.decode(&enc.ciphertext).unwrap();
    for byte in 0..ct.len() {
        for bit in 0..8 {
            let mut tampered = ct.clone();
            tampered[byte] ^= 1u8 << bit;
            let r = aead_decrypt(&decrypt_req(&b64(&tampered), None));
            assert!(
                matches!(r, Err(AeadError::TagVerification)),
                "bit {bit} of byte {byte} accepted"
            );
        }
    }
}

#[test]
fn aead_aad_tamper_detection() {
    // any change to the associated data makes decryption fail, including
    // flipping each textual bit of it and dropping it altogether
    let enc = aead_encrypt(&encrypt_req("hello", Some("ad"))).unwrap();
    let aad = b"ad";
    for byte in 0..aad.len() {
        for bit in 0..8 {
            let mut tampered = aad.to_vec();
            tampered[byte] ^= 1u8 << bit;
            // a flip that leaves the text representable is presented as text
            if let Ok(t) = String::from_utf8(tampered) {
                let r = aead_decrypt(&decrypt_req(&enc.ciphertext, Some(&t)));
                assert!(
                    matches!(r, Err(AeadError::TagVerification)),
                    "aad bit {bit} of byte {byte} accepted"
                );
            }
        }
    }
    assert!(matches!(
        aead_decrypt(&decrypt_req(&enc.ciphertext, None)),
        Err(AeadError::TagVerification)
    ));
    assert!(matches!(
        aead_decrypt(&decrypt_req(&enc.ciphertext, Some("da"))),
        Err(AeadError::TagVerification)
    ));
}

#[test]
fn aead_nonce_length_validation() {
    // a nonce of any decoded length other than 12 is rejected before the
    // cipher, on both paths
    for bad_len in [0usize, 1, 11, 13, 24] {
        let nonce = b64(&vec![0u8; bad_len]);
        let r = aead_encrypt(&AeadEncryptRequest {
            key: zero_key(),
            nonce: nonce.clone(),
            plaintext: "hello".to_string(),
            associated_data: None,
        });
        assert!(matches!(r, Err(AeadError::InputValidation)), "encrypt took nonce len {bad_len}");
        let r = aead_decrypt(&AeadDecryptRequest {
            key: zero_key(),
            nonce,
            ciphertext: b64(b"anything"),
            associated_data: None,
        });
        assert!(matches!(r, Err(AeadError::InputValidation)), "decrypt took nonce len {bad_len}");
    }
}

#[test]
fn aead_key_length_validation() {
    for bad_len in [0usize, 16, 31, 33] {
        let r = aead_encrypt(&AeadEncryptRequest {
            key: b64(&vec![0u8; bad_len]),
            nonce: zero_nonce(),
            plaintext: "hello".to_string(),
            associated_data: None,
        });
        assert!(matches!(r, Err(AeadError::InputValidation)), "encrypt took key len {bad_len}");
    }
}

#[test]
fn aead_invalid_base64_rejected() {
    let r = aead_encrypt(&AeadEncryptRequest {
        key: "!bad!".to_string(),
        nonce: zero_nonce(),
        plaintext: "hello".to_string(),
        associated_data: None,
    });
    assert!(matches!(r, Err(AeadError::InputValidation)));
    let r = aead_decrypt(&AeadDecryptRequest {
        key: zero_key(),
        nonce: zero_nonce(),
        ciphertext: "!bad!".to_string(),
        associated_data: None,
    });
    assert!(matches!(r, Err(AeadError::InputValidation)));
}

#[test]
fn aead_wrong_key_rejected() {
    let enc = aead_encrypt(&encrypt_req("hello", None)).unwrap();
    let r = aead_decrypt(&AeadDecryptRequest {
        key: b64(&[1u8; 32]),
        nonce: zero_nonce(),
        ciphertext: enc.ciphertext,
        associated_data: None,
    });
    assert!(matches!(r, Err(AeadError::TagVerification)));
}

#[test]
fn aead_reference_vector() {
    // recorded once at test authoring: AES-256-GCM with a zero key, a zero
    // nonce, plaintext "hello" and no associated data
    let enc = aead_encrypt(&encrypt_req("hello", None)).unwrap();
    assert_eq!(enc.ciphertext, "psIsUSKLkI9/Yv/Opqkvq+85v02T");
    let dec = aead_decrypt(&decrypt_req("psIsUSKLkI9/Yv/Opqkvq+85v02T", None)).unwrap();
    assert_eq!(dec.plaintext, "hello");
}
