//! Authenticated symmetric encryption over AES-256-GCM.
//!
//! The cipher itself is a trusted call; key and nonce validation, wire
//! decoding and response encoding are verified.  Sealing is deterministic
//! in (key, nonce, plaintext, associated data), which is what the
//! round-trip and tamper-detection guarantees below rest on; nonce
//! uniqueness per key remains the caller's obligation.

use crate::b64::{b64_decode, b64_encode, decode_bytes, encode_bytes, lemma_b64_encode_wire_safe};
use crate::text::{bytes_to_string, lemma_ascii_valid_utf8};
use vstd::prelude::*;
use vstd::utf8::{encode_utf8, valid_utf8};

verus! {

/// Failures of the cipher service.
#[derive(Clone, Copy, PartialEq, Eq, Structural, Debug)]
pub enum AeadError {
    /// A wire field was not base64, or the key or nonce has the wrong
    /// length; rejected before the cipher is reached.
    InputValidation,
    /// The integrity tag did not verify on decryption.
    TagVerification,
    /// The decrypted bytes are not valid text.
    Encoding,
    /// The cipher itself reported a failure on encryption.
    CipherFailure,
}

/// The sealed box (ciphertext plus tag) that AES-256-GCM produces for a
/// key, nonce, plaintext and associated data — deterministic in all four.
pub uninterp spec fn gcm_seal(key: Seq<u8>, nonce: Seq<u8>, msg: Seq<u8>, aad: Seq<u8>) -> Seq<
    u8,
>;

/// Relies on aes_gcm::Aes256Gcm through aead::Aead::encrypt: deterministic
/// sealing that appends a 16-byte tag, distinct plaintexts never seal to
/// the same box under one key, nonce and associated data, and the call
/// fails exactly when the plaintext or the associated data exceeds the
/// cipher's 2^36-byte bound.
#[verifier::external_body]
fn aes256gcm_encrypt(key: &[u8], nonce: &[u8], msg: &[u8], aad: &[u8]) -> (r: Result<Vec<u8>, ()>)
    requires
        key@.len() == 32,
        nonce@.len() == 12,
    ensures
        match r {
            Ok(ct) => ct@ == gcm_seal(key@, nonce@, msg@, aad@) && ct@.len() == msg@.len() + 16
                && (forall|m2: Seq<u8>| gcm_seal(key@, nonce@, m2, aad@) == ct@ ==> m2 == msg@),
            Err(_) => msg@.len() > 0x1000000000 || aad@.len() > 0x1000000000,
        },
{
    let cipher = <aes_gcm::Aes256Gcm as aes_gcm::KeyInit>::new(
        aes_gcm::Key::<aes_gcm::Aes256Gcm>::from_slice(key),
    );
    let payload = aes_gcm::aead::Payload { msg, aad };
    match aes_gcm::aead::Aead::encrypt(&cipher, aes_gcm::Nonce::from_slice(nonce), payload) {
        Ok(ct) => Ok(ct),
        Err(_) => Err(()),
    }
}

/// Relies on aes_gcm::Aes256Gcm through aead::Aead::decrypt: succeeds
/// exactly when the box is a seal of some plaintext under this key, nonce
/// and associated data, and then returns that plaintext — the only one,
/// since a box determines its plaintext under a fixed key, nonce and
/// associated data.
#[verifier::external_body]
fn aes256gcm_decrypt(key: &[u8], nonce: &[u8], ct: &[u8], aad: &[u8]) -> (r: Result<Vec<u8>, ()>)
    requires
        key@.len() == 32,
        nonce@.len() == 12,
    ensures
        match r {
            Ok(msg) => gcm_seal(key@, nonce@, msg@, aad@) == ct@ && (forall|m2: Seq<u8>|
                gcm_seal(key@, nonce@, m2, aad@) == ct@ ==> m2 == msg@),
            Err(_) => forall|m2: Seq<u8>| gcm_seal(key@, nonce@, m2, aad@) != ct@,
        },
{
    let cipher = <aes_gcm::Aes256Gcm as aes_gcm::KeyInit>::new(
        aes_gcm::Key::<aes_gcm::Aes256Gcm>::from_slice(key),
    );
    let payload = aes_gcm::aead::Payload { msg: ct, aad };
    match aes_gcm::aead::Aead::decrypt(&cipher, aes_gcm::Nonce::from_slice(nonce), payload) {
        Ok(msg) => Ok(msg),
        Err(_) => Err(()),
    }
}

/// Wire request for encryption.
#[derive(Clone, Debug)]
pub struct AeadEncryptRequest {
    /// Standard base64 of the 32-byte key.
    pub key: String,
    /// Standard base64 of the 12-byte nonce.
    pub nonce: String,
    /// The text to protect.
    pub plaintext: String,
    /// Optional associated data, bound but not encrypted.
    pub associated_data: Option<String>,
}

/// Wire response of encryption.
#[derive(Clone, Debug)]
pub struct AeadEncryptResponse {
    /// Standard base64 of the sealed box.
    pub ciphertext: String,
}

/// Wire request for decryption.
#[derive(Clone, Debug)]
pub struct AeadDecryptRequest {
    /// Standard base64 of the 32-byte key.
    pub key: String,
    /// Standard base64 of the 12-byte nonce.
    pub nonce: String,
    /// Standard base64 of the sealed box.
    pub ciphertext: String,
    /// Optional associated data, which must match what was bound at
    /// encryption time.
    pub associated_data: Option<String>,
}

/// Wire response of decryption.
#[derive(Clone, Debug)]
pub struct AeadDecryptResponse {
    /// The recovered text.
    pub plaintext: String,
}

/// Holds when the sealed box opens under this key, nonce and associated
/// data, but to bytes that are not valid text.
pub open spec fn opens_to_nontext(k: Seq<u8>, nc: Seq<u8>, ct: Seq<u8>, aad: Seq<u8>) -> bool {
    exists|m2: Seq<u8>| #[trigger] gcm_seal(k, nc, m2, aad) == ct && !valid_utf8(m2)
}

/// The associated-data bytes of an optional text field: its UTF-8 bytes,
/// or empty when absent.
pub open spec fn aad_bytes(aad: &Option<String>) -> Seq<u8> {
    match aad {
        Some(s) => encode_utf8(s@),
        None => Seq::empty(),
    }
}

/// The associated-data bytes, executable form.
fn aad_bytes_x(aad: &Option<String>) -> (r: &[u8])
    ensures
        r@ == aad_bytes(aad),
{
    match aad {
        Some(s) => s.as_str().as_bytes(),
        None => {
            let empty: &[u8] = &[];
            proof {
                assert(empty@ =~= Seq::<u8>::empty());
            }
            empty
        },
    }
}

/// Encrypts caller-supplied text under a caller-supplied key and nonce.
/// Inputs that are not base64, a key that is not 32 bytes or a nonce that
/// is not 12 bytes are rejected before the cipher is reached; on valid
/// inputs success is owed unless the plaintext or associated data exceeds
/// the cipher's 2^36-byte bound.
pub fn aead_encrypt(req: &AeadEncryptRequest) -> (r: Result<AeadEncryptResponse, AeadError>)
    ensures
        ({
            let key_d = b64_decode(false, true, encode_utf8(req.key@));
            let nonce_d = b64_decode(false, true, encode_utf8(req.nonce@));
            match r {
                Ok(resp) => {
                    &&& key_d matches Some(k)
                    &&& nonce_d matches Some(nc)
                    &&& k.len() == 32
                    &&& nc.len() == 12
                    &&& encode_utf8(resp.ciphertext@) == b64_encode(
                        false,
                        true,
                        gcm_seal(
                            k,
                            nc,
                            encode_utf8(req.plaintext@),
                            aad_bytes(&req.associated_data),
                        ),
                    )
                    &&& gcm_seal(
                        k,
                        nc,
                        encode_utf8(req.plaintext@),
                        aad_bytes(&req.associated_data),
                    ).len() == encode_utf8(req.plaintext@).len() + 16
                    &&& forall|m2: Seq<u8>|
                        #[trigger] gcm_seal(k, nc, m2, aad_bytes(&req.associated_data)) == gcm_seal(
                            k,
                            nc,
                            encode_utf8(req.plaintext@),
                            aad_bytes(&req.associated_data),
                        ) ==> m2 == encode_utf8(req.plaintext@)
                },
                Err(AeadError::InputValidation) => {
                    ||| key_d is None
                    ||| nonce_d is None
                    ||| key_d matches Some(k) && k.len() != 32
                    ||| nonce_d matches Some(nc) && nc.len() != 12
                },
                Err(AeadError::CipherFailure) => {
                    &&& key_d matches Some(k)
                    &&& nonce_d matches Some(nc)
                    &&& k.len() == 32
                    &&& nc.len() == 12
                    &&& (encode_utf8(req.plaintext@).len() > 0x1000000000 || aad_bytes(
                        &req.associated_data,
                    ).len() > 0x1000000000)
                },
                Err(_) => false,
            }
        }),
        ({
            let nonce_d = b64_decode(false, true, encode_utf8(req.nonce@));
            nonce_d matches Some(nc) && nc.len() != 12 ==> r == Err::<
                AeadEncryptResponse,
                AeadError,
            >(AeadError::InputValidation)
        }),
{
    let key = match decode_bytes(false, true, req.key.as_str().as_bytes()) {
        Some(v) => v,
        None => {
            return Err(AeadError::InputValidation);
        },
    };
    let nonce = match decode_bytes(false, true, req.nonce.as_str().as_bytes()) {
        Some(v) => v,
        None => {
            return Err(AeadError::InputValidation);
        },
    };
    if key.len() != 32 || nonce.len() != 12 {
        return Err(AeadError::InputValidation);
    }
    let aad = aad_bytes_x(&req.associated_data);
    let ct = match aes256gcm_encrypt(
        key.as_slice(),
        nonce.as_slice(),
        req.plaintext.as_str().as_bytes(),
        aad,
    ) {
        Ok(v) => v,
        Err(_) => {
            return Err(AeadError::CipherFailure);
        },
    };
    let ct64 = encode_bytes(false, true, &ct);
    proof {
        lemma_b64_encode_wire_safe(false, true, ct@);
        lemma_ascii_valid_utf8(ct64@);
    }
    match bytes_to_string(ct64) {
        Ok(s) => Ok(AeadEncryptResponse { ciphertext: s }),
        Err(_) => Err(AeadError::CipherFailure),
    }
}

/// Decrypts a sealed box under a caller-supplied key and nonce.  Wire and
/// length validation happens before the cipher; a failed tag and
/// non-textual plaintext are reported as distinct failures after it.
#[verifier::rlimit(100)]
#[verifier::spinoff_prover]
pub fn aead_decrypt(req: &AeadDecryptRequest) -> (r: Result<AeadDecryptResponse, AeadError>)
    ensures
        ({
            let key_d = b64_decode(false, true, encode_utf8(req.key@));
            let nonce_d = b64_decode(false, true, encode_utf8(req.nonce@));
            let ct_d = b64_decode(false, true, encode_utf8(req.ciphertext@));
            let aad = aad_bytes(&req.associated_data);
            match r {
                Ok(resp) => {
                    &&& key_d matches Some(k)
                    &&& nonce_d matches Some(nc)
                    &&& ct_d matches Some(ct)
                    &&& k.len() == 32
                    &&& nc.len() == 12
                    &&& gcm_seal(k, nc, encode_utf8(resp.plaintext@), aad) == ct
                    &&& forall|m2: Seq<u8>|
                        gcm_seal(k, nc, m2, aad) == ct ==> m2 == encode_utf8(resp.plaintext@)
                },
                Err(AeadError::InputValidation) => {
                    ||| key_d is None
                    ||| nonce_d is None
                    ||| ct_d is None
                    ||| key_d matches Some(k) && k.len() != 32
                    ||| nonce_d matches Some(nc) && nc.len() != 12
                },
                Err(AeadError::TagVerification) => {
                    &&& key_d matches Some(k)
                    &&& nonce_d matches Some(nc)
                    &&& ct_d matches Some(ct)
                    &&& k.len() == 32
                    &&& nc.len() == 12
                    &&& forall|m2: Seq<u8>| gcm_seal(k, nc, m2, aad) != ct
                },
                Err(AeadError::Encoding) => {
                    &&& key_d matches Some(k)
                    &&& nonce_d matches Some(nc)
                    &&& ct_d matches Some(ct)
                    &&& k.len() == 32
                    &&& nc.len() == 12
                    &&& opens_to_nontext(k, nc, ct, aad)
                    &&& forall|m2: Seq<u8>| gcm_seal(k, nc, m2, aad) == ct ==> !valid_utf8(m2)
                },
                Err(AeadError::CipherFailure) => false,
            }
        }),
        ({
            let nonce_d = b64_decode(false, true, encode_utf8(req.nonce@));
            nonce_d matches Some(nc) && nc.len() != 12 ==> r == Err::<
                AeadDecryptResponse,
                AeadError,
            >(AeadError::InputValidation)
        }),
{
    let key = match decode_bytes(false, true, req.key.as_str().as_bytes()) {
        Some(v) => v,
        None => {
            return Err(AeadError::InputValidation);
        },
    };
    let nonce = match decode_bytes(false, true, req.nonce.as_str().as_bytes()) {
        Some(v) => v,
        None => {
            return Err(AeadError::InputValidation);
        },
    };
    if key.len() != 32 || nonce.len() != 12 {
        return Err(AeadError::InputValidation);
    }
    let ct = match decode_bytes(false, true, req.ciphertext.as_str().as_bytes()) {
        Some(v) => v,
        None => {
            return Err(AeadError::InputValidation);
        },
    };
    let aad = aad_bytes_x(&req.associated_data);
    let msg = match aes256gcm_decrypt(key.as_slice(), nonce.as_slice(), ct.as_slice(), aad) {
        Ok(v) => v,
        Err(_) => {
            return Err(AeadError::TagVerification);
        },
    };
    let ghost msg_bytes = msg@;
    proof {
        assert(gcm_seal(key@, nonce@, msg_bytes, aad@) == ct@);
    }
    match bytes_to_string(msg) {
        Ok(s) => {
            proof {
                assert(encode_utf8(s@) == msg_bytes);
                assert(gcm_seal(key@, nonce@, encode_utf8(s@), aad@) == ct@);
            }
            Ok(AeadDecryptResponse { plaintext: s })
        },
        Err(_) => {
            proof {
                assert(gcm_seal(key@, nonce@, msg_bytes, aad@) == ct@ && !valid_utf8(msg_bytes));
                assert(opens_to_nontext(key@, nonce@, ct@, aad@));
                assert forall|m2: Seq<u8>|
                    gcm_seal(key@, nonce@, m2, aad@) == ct@ implies !valid_utf8(m2) by {
                    assert(m2 == msg_bytes);
                }
            }
            Err(AeadError::Encoding)
        },
    }
}

} // verus!
