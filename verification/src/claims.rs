//! Claims codec: minting and validating signed bearer tokens.
//!
//! A token is `base64url(header) "." base64url(claims) "." signature`, with
//! the claims serialized by the codec in [`crate::jsonc`] and the signature
//! computed over the first two segments with HMAC-SHA256 under a shared
//! secret.  Assembly, splitting and payload handling are verified; only the
//! signature primitive itself is trusted.

use crate::b64::{
    b64_decode, b64_encode, decode_bytes, encode_bytes, lemma_b64_encode_wire_safe,
    lemma_b64_round_trip,
};
use crate::jsonc::{
    claims_json_bytes, claims_json_x, lemma_claims_json_round_trip, parse_claims_json,
    parse_claims_json_x,
};
use crate::text::{bytes_eq, bytes_to_string, lemma_ascii_valid_utf8};
use vstd::prelude::*;
use vstd::utf8::{encode_utf8, valid_utf8};

verus! {

/// The verified claims carried by a bearer token.
#[derive(Clone, Debug)]
pub struct Claims {
    /// Canonical subject identifier.
    pub sub: String,
    /// Expiry as unix seconds.
    pub exp: usize,
    /// Identity provider the subject was resolved through.
    pub provider: String,
}

/// A subject whose bearer token passed validation.
#[derive(Clone, Debug)]
pub struct AuthenticatedUser(pub Claims);

/// Failures of the claims codec.
#[derive(Clone, Copy, PartialEq, Eq, Structural, Debug)]
pub enum TokenError {
    /// Reserved for a failure while minting; the codec proves minting
    /// total, so this is never produced here.
    MintFailed,
    /// The bearer credential is missing, malformed, forged or expired.
    ValidationFailed,
}

/// The serialized token header `{"typ":"JWT","alg":"HS256"}`.
pub open spec fn jwt_header_bytes() -> Seq<u8> {
    seq![
        123u8,
        34u8,
        116u8,
        121u8,
        112u8,
        34u8,
        58u8,
        34u8,
        74u8,
        87u8,
        84u8,
        34u8,
        44u8,
        34u8,
        97u8,
        108u8,
        103u8,
        34u8,
        58u8,
        34u8,
        72u8,
        83u8,
        50u8,
        53u8,
        54u8,
        34u8,
        125u8,
    ]
}

/// The signature segment that HMAC-SHA256 signing produces for a message
/// under a secret: URL-safe base64 without padding of the 32-byte digest.
pub uninterp spec fn hs256_sig_of(message: Seq<u8>, secret: Seq<u8>) -> Seq<u8>;

/// Relies on jsonwebtoken::crypto::sign with HS256: the result is the
/// URL-safe unpadded base64 of the HMAC-SHA256 digest of the message under
/// the secret — a function of message and secret alone, in ASCII bytes.
/// Signing with HS256 cannot fail, so the call always succeeds.
#[verifier::external_body]
fn sign_hs256(message: &[u8], secret: &[u8]) -> (r: Result<Vec<u8>, ()>)
    ensures
        r is Ok,
        match r {
            Ok(sig) => sig@ == hs256_sig_of(message@, secret@) && forall|i: int|
                0 <= i < sig@.len() ==> #[trigger] sig@[i] < 128,
            Err(_) => true,
        },
{
    match jsonwebtoken::crypto::sign(
        message,
        &jsonwebtoken::EncodingKey::from_secret(secret),
        jsonwebtoken::Algorithm::HS256,
    ) {
        Ok(s) => Ok(s.into_bytes()),
        Err(_) => Err(()),
    }
}

/// Relies on jsonwebtoken::crypto::verify with HS256: it re-signs the
/// message and compares byte for byte, so it accepts exactly the signature
/// segment that signing produces.
#[verifier::external_body]
fn verify_hs256(sig: &[u8], message: &[u8], secret: &[u8]) -> (r: bool)
    ensures
        r == (sig@ == hs256_sig_of(message@, secret@)),
{
    match std::str::from_utf8(sig) {
        Ok(sig_str) => jsonwebtoken::crypto::verify(
            sig_str,
            message,
            &jsonwebtoken::DecodingKey::from_secret(secret),
            jsonwebtoken::Algorithm::HS256,
        ).unwrap_or(false),
        Err(_) => false,
    }
}

/// The two signed segments of a token for the given claim fields.
pub open spec fn token_msg_bytes(sub: Seq<u8>, exp: nat, provider: Seq<u8>) -> Seq<u8> {
    b64_encode(true, false, jwt_header_bytes()) + seq![46u8] + b64_encode(
        true,
        false,
        claims_json_bytes(sub, exp, provider),
    )
}

/// The complete token for the given claim fields under a secret.
pub open spec fn token_bytes(sub: Seq<u8>, exp: nat, provider: Seq<u8>, secret: Seq<u8>) -> Seq<
    u8,
> {
    token_msg_bytes(sub, exp, provider) + seq![46u8] + hs256_sig_of(
        token_msg_bytes(sub, exp, provider),
        secret,
    )
}

/// Index of the first occurrence of a byte, or `-1`.
pub open spec fn find_byte(s: Seq<u8>, b: u8) -> int
    decreases s.len(),
{
    if s.len() == 0 {
        -1
    } else if s[0] == b {
        0
    } else {
        let r = find_byte(s.skip(1), b);
        if r < 0 {
            -1
        } else {
            r + 1
        }
    }
}

/// What validation accepts: the token must split into three segments on
/// dots, the header must be the canonical one, the signature must match the
/// signed segments, the payload must decode and parse as a claims object,
/// and the expiry must lie strictly in the future.
pub open spec fn validate_spec(token: Seq<u8>, secret: Seq<u8>, now: nat) -> Option<
    (Seq<u8>, nat, Seq<u8>),
> {
    let i = find_byte(token, 46);
    if i < 0 {
        None
    } else {
        let rest = token.skip(i + 1);
        let j = find_byte(rest, 46);
        if j < 0 {
            None
        } else {
            let header = token.subrange(0, i);
            let payload = rest.subrange(0, j);
            let sig = rest.skip(j + 1);
            let msg = token.subrange(0, i + 1 + j);
            if header != b64_encode(true, false, jwt_header_bytes()) {
                None
            } else if sig != hs256_sig_of(msg, secret) {
                None
            } else {
                match b64_decode(true, false, payload) {
                    Some(json) => match parse_claims_json(json) {
                        Some(t) => if t.1 <= usize::MAX as nat && t.1 > now && valid_utf8(t.0)
                            && valid_utf8(t.2) {
                            Some(t)
                        } else {
                            None
                        },
                        None => None,
                    },
                    None => None,
                }
            }
        }
    }
}

/// Where `find_byte` points: at a hit it is the first one; at `-1` there is
/// none.
proof fn lemma_find_byte_props(s: Seq<u8>, b: u8)
    ensures
        find_byte(s, b) >= 0 ==> 0 <= find_byte(s, b) < s.len() && s[find_byte(s, b)] == b && (
        forall|k: int| 0 <= k < find_byte(s, b) ==> s[k] != b),
        find_byte(s, b) < 0 ==> (forall|k: int| 0 <= k < s.len() ==> s[k] != b),
    decreases s.len(),
{
    if s.len() == 0 {
    } else if s[0] == b {
    } else {
        lemma_find_byte_props(s.skip(1), b);
        let r = find_byte(s.skip(1), b);
        if r >= 0 {
            assert(s[r + 1] == s.skip(1)[r]);
            assert forall|k: int| 0 <= k < r + 1 implies s[k] != b by {
                if k >= 1 {
                    assert(s.skip(1)[k - 1] == s[k]);
                }
            }
        } else {
            assert forall|k: int| 0 <= k < s.len() implies s[k] != b by {
                if k >= 1 {
                    assert(s.skip(1)[k - 1] == s[k]);
                }
            }
        }
    }
}

/// A dot placed after dot-free bytes is the first dot.
proof fn lemma_find_byte_prefix(a: Seq<u8>, b: u8, suffix: Seq<u8>)
    requires
        forall|k: int| 0 <= k < a.len() ==> a[k] != b,
    ensures
        find_byte(a + seq![b] + suffix, b) == a.len(),
{
    let w = a + seq![b] + suffix;
    lemma_find_byte_props(w, b);
    assert(w[a.len() as int] == b);
    assert(forall|k: int| 0 <= k < a.len() ==> w[k] == a[k]);
    let fb = find_byte(w, b);
    if fb < 0 {
        assert(w[a.len() as int] != b);
        assert(false);
    }
    if fb < a.len() {
        assert(w[fb] == a[fb]);
        assert(false);
    }
    if fb > a.len() {
        assert(w[a.len() as int] != b);
        assert(false);
    }
}

/// Validation accepts a freshly minted token and recovers exactly the
/// fields it was minted from, whenever the expiry still lies in the future.
pub proof fn lemma_token_round_trip(
    sub: Seq<u8>,
    exp: nat,
    provider: Seq<u8>,
    secret: Seq<u8>,
    now: nat,
)
    requires
        now < exp <= usize::MAX as nat,
        valid_utf8(sub),
        valid_utf8(provider),
    ensures
        validate_spec(token_bytes(sub, exp, provider, secret), secret, now) == Some(
            (sub, exp, provider),
        ),
{
    let h = b64_encode(true, false, jwt_header_bytes());
    let c = b64_encode(true, false, claims_json_bytes(sub, exp, provider));
    let msg = token_msg_bytes(sub, exp, provider);
    let sig = hs256_sig_of(msg, secret);
    let token = token_bytes(sub, exp, provider, secret);
    lemma_b64_encode_wire_safe(true, false, jwt_header_bytes());
    lemma_b64_encode_wire_safe(true, false, claims_json_bytes(sub, exp, provider));
    assert(token =~= h + seq![46u8] + (c + seq![46u8] + sig));
    lemma_find_byte_prefix(h, 46, c + seq![46u8] + sig);
    let i = find_byte(token, 46);
    assert(i == h.len());
    let rest = token.skip(i + 1);
    assert(rest =~= c + seq![46u8] + sig);
    lemma_find_byte_prefix(c, 46, sig);
    let j = find_byte(rest, 46);
    assert(j == c.len());
    assert(token.subrange(0, i) =~= h);
    assert(rest.subrange(0, j) =~= c);
    assert(rest.skip(j + 1) =~= sig);
    assert(token.subrange(0, i + 1 + j) =~= msg);
    lemma_b64_round_trip(true, false, claims_json_bytes(sub, exp, provider));
    lemma_claims_json_round_trip(sub, exp, provider);
}

/// Any token whose signature segment is not the signature of its first two
/// segments is rejected, whatever else it holds.
pub proof fn lemma_tampered_signature_rejected(
    sub: Seq<u8>,
    exp: nat,
    provider: Seq<u8>,
    secret: Seq<u8>,
    sig2: Seq<u8>,
    now: nat,
)
    requires
        sig2 != hs256_sig_of(token_msg_bytes(sub, exp, provider), secret),
    ensures
        validate_spec(token_msg_bytes(sub, exp, provider) + seq![46u8] + sig2, secret, now)
            is None,
{
    let h = b64_encode(true, false, jwt_header_bytes());
    let c = b64_encode(true, false, claims_json_bytes(sub, exp, provider));
    let msg = token_msg_bytes(sub, exp, provider);
    let token = msg + seq![46u8] + sig2;
    lemma_b64_encode_wire_safe(true, false, jwt_header_bytes());
    lemma_b64_encode_wire_safe(true, false, claims_json_bytes(sub, exp, provider));
    assert(token =~= h + seq![46u8] + (c + seq![46u8] + sig2));
    lemma_find_byte_prefix(h, 46, c + seq![46u8] + sig2);
    let i = find_byte(token, 46);
    assert(i == h.len());
    let rest = token.skip(i + 1);
    assert(rest =~= c + seq![46u8] + sig2);
    lemma_find_byte_prefix(c, 46, sig2);
    let j = find_byte(rest, 46);
    assert(j == c.len());
    assert(rest.skip(j + 1) =~= sig2);
    assert(token.subrange(0, i + 1 + j) =~= msg);
}

/// Whatever token is presented, validation only ever accepts an expiry that
/// lies strictly beyond the given time.
pub proof fn lemma_validate_requires_future_expiry(token: Seq<u8>, secret: Seq<u8>, now: nat)
    ensures
        validate_spec(token, secret, now) matches Some(t) ==> t.1 > now,
{
}

/// The token header bytes, executable form.
fn jwt_header_x() -> (r: Vec<u8>)
    ensures
        r@ == jwt_header_bytes(),
{
    let mut v: Vec<u8> = Vec::new();
    v.push(123);
    v.push(34);
    v.push(116);
    v.push(121);
    v.push(112);
    v.push(34);
    v.push(58);
    v.push(34);
    v.push(74);
    v.push(87);
    v.push(84);
    v.push(34);
    v.push(44);
    v.push(34);
    v.push(97);
    v.push(108);
    v.push(103);
    v.push(34);
    v.push(58);
    v.push(34);
    v.push(72);
    v.push(83);
    v.push(50);
    v.push(53);
    v.push(54);
    v.push(34);
    v.push(125);
    proof {
        assert(v@ =~= jwt_header_bytes());
    }
    v
}

/// Index of the first occurrence of a byte, executable form.
fn find_byte_x(s: &[u8], b: u8) -> (r: Option<usize>)
    ensures
        match r {
            Some(i) => i < s@.len() && find_byte(s@, b) == i,
            None => find_byte(s@, b) == -1,
        },
{
    let mut i: usize = 0;
    while i < s.len()
        invariant
            i <= s@.len(),
            forall|k: int| 0 <= k < i ==> s@[k] != b,
        decreases s@.len() - i,
    {
        if s[i] == b {
            proof {
                lemma_find_byte_props(s@, b);
                let fb = find_byte(s@, b);
                if fb < 0 {
                    assert(s@[i as int] != b);
                    assert(false);
                }
                if fb < i {
                    assert(s@[fb] != b);
                    assert(false);
                }
                if fb > i {
                    assert(s@[i as int] != b);
                    assert(false);
                }
            }
            return Some(i);
        }
        i = i + 1;
    }
    proof {
        lemma_find_byte_props(s@, b);
        let fb = find_byte(s@, b);
        if fb >= 0 {
            assert(s@[fb] != b);
            assert(false);
        }
    }
    None
}

/// Mints the bearer token for a subject and provider: the expiry is set one
/// hour past `now`, the claims are serialized and the two base64 segments
/// are signed.  Minting never fails: HS256 signing is infallible and the
/// assembled token is ASCII.
pub fn mint_claims(secret: &[u8], subject: &str, provider: &str, now: usize) -> (r: Result<
    String,
    TokenError,
>)
    requires
        now + 3600 <= usize::MAX,
    ensures
        r matches Ok(tok) && encode_utf8(tok@) == token_bytes(
            encode_utf8(subject@),
            (now + 3600) as nat,
            encode_utf8(provider@),
            secret@,
        ),
{
    let exp = now + 3600;
    let json = claims_json_x(subject.as_bytes(), exp, provider.as_bytes());
    let header = jwt_header_x();
    let mut msg = encode_bytes(true, false, &header);
    let mut c64 = encode_bytes(true, false, &json);
    msg.push(46);
    msg.append(&mut c64);
    proof {
        assert(msg@ =~= token_msg_bytes(
            encode_utf8(subject@),
            exp as nat,
            encode_utf8(provider@),
        ));
    }
    let sig = match sign_hs256(msg.as_slice(), secret) {
        Ok(sig) => sig,
        Err(_) => {
            return vstd::pervasive::unreached();
        },
    };
    let mut token = msg;
    token.push(46);
    let mut sig_tail = sig;
    token.append(&mut sig_tail);
    proof {
        assert(token@ =~= token_bytes(
            encode_utf8(subject@),
            exp as nat,
            encode_utf8(provider@),
            secret@,
        ));
        lemma_b64_encode_wire_safe(true, false, jwt_header_bytes());
        lemma_b64_encode_wire_safe(
            true,
            false,
            claims_json_bytes(encode_utf8(subject@), exp as nat, encode_utf8(provider@)),
        );
        assert(forall|k: int| 0 <= k < token@.len() ==> #[trigger] token@[k] < 128);
        lemma_ascii_valid_utf8(token@);
    }
    match bytes_to_string(token) {
        Ok(s) => Ok(s),
        Err(_) => vstd::pervasive::unreached(),
    }
}

/// Validates a bearer token against the shared secret and the current time,
/// returning the claims it carries; rejects exactly what
/// [`validate_spec`] rejects.
pub fn validate_token_bytes(secret: &[u8], token: &[u8], now: usize) -> (r: Result<
    Claims,
    TokenError,
>)
    ensures
        match r {
            Ok(c) => validate_spec(token@, secret@, now as nat) == Some(
                (encode_utf8(c.sub@), c.exp as nat, encode_utf8(c.provider@)),
            ) && c.exp > now,
            Err(e) => e == TokenError::ValidationFailed && validate_spec(
                token@,
                secret@,
                now as nat,
            ) is None,
        },
{
    let n = token.len();
    let i = match find_byte_x(token, 46) {
        Some(i) => i,
        None => {
            return Err(TokenError::ValidationFailed);
        },
    };
    let rest = &token[i + 1..n];
    proof {
        assert(rest@ =~= token@.skip(i as int + 1));
    }
    let j = match find_byte_x(rest, 46) {
        Some(j) => j,
        None => {
            return Err(TokenError::ValidationFailed);
        },
    };
    let header = &token[0..i];
    let payload = &rest[0..j];
    let sig = &rest[j + 1..rest.len()];
    proof {
        assert(header@ =~= token@.subrange(0, i as int));
        assert(payload@ =~= token@.skip(i as int + 1).subrange(0, j as int));
        assert(sig@ =~= token@.skip(i as int + 1).skip(j as int + 1));
    }
    let expected_header = encode_bytes(true, false, &jwt_header_x());
    if !bytes_eq(header, expected_header.as_slice()) {
        return Err(TokenError::ValidationFailed);
    }
    let msg = &token[0..i + 1 + j];
    proof {
        assert(msg@ =~= token@.subrange(0, i as int + 1 + j as int));
    }
    if !verify_hs256(sig, msg, secret) {
        return Err(TokenError::ValidationFailed);
    }
    let json = match decode_bytes(true, false, payload) {
        Some(v) => v,
        None => {
            return Err(TokenError::ValidationFailed);
        },
    };
    let parsed = match parse_claims_json_x(json.as_slice()) {
        Some(t) => t,
        None => {
            return Err(TokenError::ValidationFailed);
        },
    };
    let exp = parsed.1;
    if exp <= now {
        return Err(TokenError::ValidationFailed);
    }
    let sub_s = match bytes_to_string(parsed.0) {
        Ok(s) => s,
        Err(_) => {
            return Err(TokenError::ValidationFailed);
        },
    };
    let prov_s = match bytes_to_string(parsed.2) {
        Ok(s) => s,
        Err(_) => {
            return Err(TokenError::ValidationFailed);
        },
    };
    Ok(Claims { sub: sub_s, exp, provider: prov_s })
}

/// Validates a bearer token presented as a string.
pub fn validate_token(secret: &[u8], token: &str, now: usize) -> (r: Result<Claims, TokenError>)
    ensures
        match r {
            Ok(c) => validate_spec(encode_utf8(token@), secret@, now as nat) == Some(
                (encode_utf8(c.sub@), c.exp as nat, encode_utf8(c.provider@)),
            ) && c.exp > now,
            Err(e) => e == TokenError::ValidationFailed && validate_spec(
                encode_utf8(token@),
                secret@,
                now as nat,
            ) is None,
        },
{
    validate_token_bytes(secret, token.as_bytes(), now)
}

/// The bytes `Bearer `.
pub open spec fn lit_bearer() -> Seq<u8> {
    seq![66u8, 101u8, 97u8, 114u8, 101u8, 114u8, 32u8]
}

/// The token carried by an authorization header value, if it is a bearer
/// credential at all.
pub open spec fn bearer_token_of(header: Seq<u8>) -> Option<Seq<u8>> {
    if header.len() >= 7 && header.subrange(0, 7) == lit_bearer() {
        Some(header.skip(7))
    } else {
        None
    }
}

/// The bytes `Bearer `, executable form.
fn lit_bearer_x() -> (r: Vec<u8>)
    ensures
        r@ == lit_bearer(),
{
    let mut v: Vec<u8> = Vec::new();
    v.push(66);
    v.push(101);
    v.push(97);
    v.push(114);
    v.push(101);
    v.push(114);
    v.push(32);
    proof {
        assert(v@ =~= lit_bearer());
    }
    v
}

/// The authentication gate for protected operations: reads the bearer token
/// out of an authorization header value and validates it.
pub fn authenticate_bearer(secret: &[u8], authorization: &str, now: usize) -> (r: Result<
    AuthenticatedUser,
    TokenError,
>)
    ensures
        match r {
            Ok(u) => bearer_token_of(encode_utf8(authorization@)) matches Some(t)
                && validate_spec(t, secret@, now as nat) == Some(
                (encode_utf8(u.0.sub@), u.0.exp as nat, encode_utf8(u.0.provider@)),
            ) && u.0.exp > now,
            Err(e) => e == TokenError::ValidationFailed && (bearer_token_of(
                encode_utf8(authorization@),
            ) is None || validate_spec(
                bearer_token_of(encode_utf8(authorization@)).unwrap(),
                secret@,
                now as nat,
            ) is None),
        },
{
    let h = authorization.as_bytes();
    let bearer = lit_bearer_x();
    if !crate::jsonc::match_prefix_at(h, 0, bearer.as_slice()) {
        proof {
            assert(h@.skip(0) =~= h@);
            assert(h@.len() >= 7 ==> h@.subrange(0, 7) == h@.skip(0).subrange(0, 7));
        }
        return Err(TokenError::ValidationFailed);
    }
    proof {
        assert(h@.skip(0) =~= h@);
        assert(h@.subrange(0, 7) == lit_bearer());
    }
    let token = &h[7..h.len()];
    proof {
        assert(token@ =~= h@.skip(7));
    }
    match validate_token_bytes(secret, token, now) {
        Ok(c) => Ok(AuthenticatedUser(c)),
        Err(e) => Err(e),
    }
}

} // verus!
