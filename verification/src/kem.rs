//! Key encapsulation service over ML-KEM-1024.
//!
//! The scheme's primitives are trusted calls into the underlying library;
//! everything around them — wire decoding, size validation, response
//! encoding — is verified.  Decapsulation never fails on structurally valid
//! inputs: implicit rejection returns a fixed-size secret that simply will
//! not match unless the keypair does.

use crate::b64::{b64_decode, b64_encode, decode_bytes, encode_bytes, lemma_b64_encode_wire_safe};
use crate::text::{bytes_to_string, lemma_ascii_valid_utf8};
use vstd::prelude::*;
use vstd::utf8::encode_utf8;

verus! {

/// Failures of the encapsulation service; both are caller input errors.
#[derive(Clone, Copy, PartialEq, Eq, Structural, Debug)]
pub enum KemError {
    /// A wire field did not decode as base64.
    InvalidBase64,
    /// A decoded field is not a structurally valid value of the scheme.
    InvalidKeyMaterial,
}

/// Holds when a public and a secret key came out of one keypair generation.
pub uninterp spec fn kem_matched(pk: Seq<u8>, sk: Seq<u8>) -> bool;

/// The scheme's deterministic decapsulation of a ciphertext under a secret
/// key.
pub uninterp spec fn kem_decaps_of(sk: Seq<u8>, ct: Seq<u8>) -> Seq<u8>;

/// Relies on pqcrypto_mlkem::mlkem1024::keypair: a fresh matched keypair
/// with a 1568-byte public and a 3168-byte secret key.
#[verifier::external_body]
fn kem_keypair_raw() -> (r: (Vec<u8>, Vec<u8>))
    ensures
        r.0@.len() == 1568,
        r.1@.len() == 3168,
        kem_matched(r.0@, r.1@),
{
    let (pk, sk) = pqcrypto_mlkem::mlkem1024::keypair();
    (
        pqcrypto_traits::kem::PublicKey::as_bytes(&pk).to_vec(),
        pqcrypto_traits::kem::SecretKey::as_bytes(&sk).to_vec(),
    )
}

/// Relies on pqcrypto_mlkem::mlkem1024::encapsulate and
/// PublicKey::from_bytes: the key parses exactly when it has the scheme's
/// public-key size; encapsulation then returns a 32-byte shared secret and
/// a 1568-byte ciphertext, and decapsulating that ciphertext under any
/// secret key matched with this public key yields that same secret.
#[verifier::external_body]
fn kem_encapsulate_raw(pk: &[u8]) -> (r: Result<(Vec<u8>, Vec<u8>), ()>)
    ensures
        match r {
            Ok(p) => pk@.len() == 1568 && p.0@.len() == 32 && p.1@.len() == 1568 && (forall|
                sk: Seq<u8>,
            |
                kem_matched(pk@, sk) ==> kem_decaps_of(sk, p.1@) == p.0@),
            Err(_) => pk@.len() != 1568,
        },
{
    let key = <pqcrypto_mlkem::mlkem1024::PublicKey as pqcrypto_traits::kem::PublicKey>::from_bytes(pk).map_err(|_| ())?;
    let (ss, ct) = pqcrypto_mlkem::mlkem1024::encapsulate(&key);
    let ss_b = pqcrypto_traits::kem::SharedSecret::as_bytes(&ss).to_vec();
    let ct_b = pqcrypto_traits::kem::Ciphertext::as_bytes(&ct).to_vec();
    Ok((ss_b, ct_b))
}

/// Relies on pqcrypto_mlkem::mlkem1024::decapsulate and the from_bytes
/// validators: the inputs parse exactly when they have the scheme's sizes,
/// and decapsulation returns the scheme's deterministic 32-byte result —
/// with implicit rejection, never an error.
#[verifier::external_body]
fn kem_decapsulate_raw(sk: &[u8], ct: &[u8]) -> (r: Result<Vec<u8>, ()>)
    ensures
        match r {
            Ok(ss) => sk@.len() == 3168 && ct@.len() == 1568 && ss@.len() == 32 && ss@
                == kem_decaps_of(sk@, ct@),
            Err(_) => sk@.len() != 3168 || ct@.len() != 1568,
        },
{
    let sk_v = <pqcrypto_mlkem::mlkem1024::SecretKey as pqcrypto_traits::kem::SecretKey>::from_bytes(sk).map_err(|_| ())?;
    let ct_v = <pqcrypto_mlkem::mlkem1024::Ciphertext as pqcrypto_traits::kem::Ciphertext>::from_bytes(ct).map_err(|_| ())?;
    let ss = pqcrypto_mlkem::mlkem1024::decapsulate(&ct_v, &sk_v);
    Ok(pqcrypto_traits::kem::SharedSecret::as_bytes(&ss).to_vec())
}

/// The process-lifetime keypair, generated once at startup and read-only
/// afterwards.
pub struct CommsecState {
    /// The scheme's public key, 1568 bytes.
    pub public_key: Vec<u8>,
    /// The scheme's secret key, 3168 bytes.
    pub secret_key: Vec<u8>,
}

/// Well-formedness of the shared state: both keys have the scheme's sizes
/// and came out of one generation.
pub open spec fn commsec_state_wf(s: &CommsecState) -> bool {
    s.public_key@.len() == 1568 && s.secret_key@.len() == 3168 && kem_matched(
        s.public_key@,
        s.secret_key@,
    )
}

/// Generates the keypair held for the life of the process.
pub fn init_commsec_state() -> (s: CommsecState)
    ensures
        commsec_state_wf(&s),
{
    let (pk, sk) = kem_keypair_raw();
    CommsecState { public_key: pk, secret_key: sk }
}

/// A keypair read out of the shared state, base64 over the wire.
#[derive(Clone, Debug)]
pub struct KeypairResponse {
    /// Standard base64 of the public key.
    pub public_key: String,
    /// Standard base64 of the secret key.
    pub secret_key: String,
}

/// Encodes the process keypair for the wire.
pub fn keypair_response(state: &CommsecState) -> (r: KeypairResponse)
    ensures
        encode_utf8(r.public_key@) == b64_encode(false, true, state.public_key@),
        encode_utf8(r.secret_key@) == b64_encode(false, true, state.secret_key@),
{
    let pk64 = encode_bytes(false, true, &state.public_key);
    let sk64 = encode_bytes(false, true, &state.secret_key);
    proof {
        lemma_b64_encode_wire_safe(false, true, state.public_key@);
        lemma_b64_encode_wire_safe(false, true, state.secret_key@);
        lemma_ascii_valid_utf8(pk64@);
        lemma_ascii_valid_utf8(sk64@);
    }
    let pk_s = match bytes_to_string(pk64) {
        Ok(s) => s,
        Err(_) => String::new(),
    };
    let sk_s = match bytes_to_string(sk64) {
        Ok(s) => s,
        Err(_) => String::new(),
    };
    KeypairResponse { public_key: pk_s, secret_key: sk_s }
}

/// Wire request for encapsulation.
#[derive(Clone, Debug)]
pub struct EncapsulateRequest {
    /// Standard base64 of the recipient public key.
    pub public_key: String,
}

/// Wire response of encapsulation.
#[derive(Clone, Debug)]
pub struct EncapsulateResponse {
    /// Standard base64 of the ciphertext.
    pub ciphertext: String,
    /// Standard base64 of the shared secret.
    pub shared_secret: String,
}

/// What a successful encapsulation's outputs satisfy for a given public
/// key: fixed sizes, and decapsulation under any matched secret key
/// recovers the secret.
pub open spec fn encap_outputs_ok(pk: Seq<u8>, ss: Seq<u8>, ct: Seq<u8>) -> bool {
    ss.len() == 32 && ct.len() == 1568 && (forall|sk: Seq<u8>|
        kem_matched(pk, sk) ==> kem_decaps_of(sk, ct) == ss)
}

/// Encapsulates to a caller-supplied public key.  Fails exactly on a key
/// that is not base64 or does not have the scheme's size.
pub fn encapsulate(req: &EncapsulateRequest) -> (r: Result<EncapsulateResponse, KemError>)
    ensures
        match r {
            Ok(resp) => b64_decode(false, true, encode_utf8(req.public_key@)) matches Some(pk)
                && pk.len() == 1568 && (exists|ss: Seq<u8>, ct: Seq<u8>|
                #[trigger] encap_outputs_ok(pk, ss, ct) && encode_utf8(resp.ciphertext@)
                    == b64_encode(false, true, ct) && encode_utf8(resp.shared_secret@)
                    == b64_encode(false, true, ss)),
            Err(KemError::InvalidBase64) => b64_decode(
                false,
                true,
                encode_utf8(req.public_key@),
            ) is None,
            Err(KemError::InvalidKeyMaterial) => b64_decode(
                false,
                true,
                encode_utf8(req.public_key@),
            ) matches Some(pk) && pk.len() != 1568,
        },
{
    let pk = match decode_bytes(false, true, req.public_key.as_str().as_bytes()) {
        Some(v) => v,
        None => {
            return Err(KemError::InvalidBase64);
        },
    };
    let pair = match kem_encapsulate_raw(pk.as_slice()) {
        Ok(p) => p,
        Err(_) => {
            return Err(KemError::InvalidKeyMaterial);
        },
    };
    let ct64 = encode_bytes(false, true, &pair.1);
    let ss64 = encode_bytes(false, true, &pair.0);
    proof {
        lemma_b64_encode_wire_safe(false, true, pair.1@);
        lemma_b64_encode_wire_safe(false, true, pair.0@);
        lemma_ascii_valid_utf8(ct64@);
        lemma_ascii_valid_utf8(ss64@);
    }
    let ct_s = match bytes_to_string(ct64) {
        Ok(s) => s,
        Err(_) => {
            return Err(KemError::InvalidKeyMaterial);
        },
    };
    let ss_s = match bytes_to_string(ss64) {
        Ok(s) => s,
        Err(_) => {
            return Err(KemError::InvalidKeyMaterial);
        },
    };
    proof {
        assert(encap_outputs_ok(pk@, pair.0@, pair.1@));
    }
    Ok(EncapsulateResponse { ciphertext: ct_s, shared_secret: ss_s })
}

/// Wire request for decapsulation.
#[derive(Clone, Debug)]
pub struct DecapsulateRequest {
    /// Standard base64 of the secret key.
    pub secret_key: String,
    /// Standard base64 of the ciphertext.
    pub ciphertext: String,
}

/// Wire response of decapsulation.
#[derive(Clone, Debug)]
pub struct DecapsulateResponse {
    /// Standard base64 of the recovered shared secret.
    pub shared_secret: String,
}

/// Decapsulates a ciphertext under a caller-supplied secret key.  Fails
/// exactly on fields that are not base64 or do not have the scheme's
/// sizes; a structurally valid but mismatched pair still yields a secret.
pub fn decapsulate(req: &DecapsulateRequest) -> (r: Result<DecapsulateResponse, KemError>)
    ensures
        match r {
            Ok(resp) => b64_decode(false, true, encode_utf8(req.secret_key@)) matches Some(sk)
                && b64_decode(false, true, encode_utf8(req.ciphertext@)) matches Some(ct)
                && sk.len() == 3168 && ct.len() == 1568 && kem_decaps_of(sk, ct).len() == 32
                && encode_utf8(resp.shared_secret@) == b64_encode(
                false,
                true,
                kem_decaps_of(sk, ct),
            ),
            Err(KemError::InvalidBase64) => b64_decode(
                false,
                true,
                encode_utf8(req.secret_key@),
            ) is None || b64_decode(false, true, encode_utf8(req.ciphertext@)) is None,
            Err(KemError::InvalidKeyMaterial) => b64_decode(
                false,
                true,
                encode_utf8(req.secret_key@),
            ) matches Some(sk) && b64_decode(false, true, encode_utf8(req.ciphertext@))
                matches Some(ct) && (sk.len() != 3168 || ct.len() != 1568),
        },
{
    let sk = match decode_bytes(false, true, req.secret_key.as_str().as_bytes()) {
        Some(v) => v,
        None => {
            return Err(KemError::InvalidBase64);
        },
    };
    let ct = match decode_bytes(false, true, req.ciphertext.as_str().as_bytes()) {
        Some(v) => v,
        None => {
            return Err(KemError::InvalidBase64);
        },
    };
    let ss = match kem_decapsulate_raw(sk.as_slice(), ct.as_slice()) {
        Ok(v) => v,
        Err(_) => {
            return Err(KemError::InvalidKeyMaterial);
        },
    };
    let ss64 = encode_bytes(false, true, &ss);
    proof {
        lemma_b64_encode_wire_safe(false, true, ss@);
        lemma_ascii_valid_utf8(ss64@);
    }
    match bytes_to_string(ss64) {
        Ok(s) => Ok(DecapsulateResponse { shared_secret: s }),
        Err(_) => Err(KemError::InvalidKeyMaterial),
    }
}

} // verus!
