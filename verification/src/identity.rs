//! Identity normalizer.
//!
//! Provider profiles differ in which fields they carry; one resolution
//! policy reduces every shape to a canonical subject.  First non-empty
//! wins: email, then login handle, then display name, then subject
//! identifier, then the numeric id in decimal, and `unknown` as the last
//! resort — email being the most stable cross-session identifier when it
//! is present.

use crate::jsonc::{dec_digits, lemma_dec_digits_are_digits};
use crate::text::{bytes_to_string, lemma_ascii_valid_utf8};
use vstd::prelude::*;
use vstd::string::StringExecFns;
use vstd::utf8::decode_utf8;

verus! {

/// The profile fields a provider may return; none is present for every
/// provider.
#[derive(Clone, Debug)]
pub struct UserInfo {
    /// Subject identifier.
    pub sub: Option<String>,
    /// Email address.
    pub email: Option<String>,
    /// Numeric account id.
    pub id: Option<u64>,
    /// Login handle.
    pub login: Option<String>,
    /// Display name.
    pub name: Option<String>,
}

/// The text of an optional field, empty when absent.
pub open spec fn opt_text(o: &Option<String>) -> Seq<char> {
    match o {
        Some(s) => s@,
        None => Seq::empty(),
    }
}

/// Whether an optional field holds non-empty text.
pub open spec fn has_text(o: &Option<String>) -> bool {
    opt_text(o).len() > 0
}

/// The canonical subject for a profile: the first non-empty field in the
/// resolution order, the numeric id in decimal, or `unknown`.
pub open spec fn subject_of(u: &UserInfo) -> Seq<char> {
    if has_text(&u.email) {
        opt_text(&u.email)
    } else if has_text(&u.login) {
        opt_text(&u.login)
    } else if has_text(&u.name) {
        opt_text(&u.name)
    } else if has_text(&u.sub) {
        opt_text(&u.sub)
    } else {
        match u.id {
            Some(n) => decode_utf8(dec_digits(n as nat)),
            None => "unknown"@,
        }
    }
}

/// Renders a numeric id in decimal.
fn dec_digits_u64(n: u64) -> (r: Vec<u8>)
    ensures
        r@ == dec_digits(n as nat),
    decreases n,
{
    if n < 10 {
        let mut out: Vec<u8> = Vec::new();
        out.push(48 + n as u8);
        proof {
            assert(out@ =~= dec_digits(n as nat));
        }
        out
    } else {
        let mut out = dec_digits_u64(n / 10);
        out.push(48 + (n % 10) as u8);
        proof {
            assert(out@ =~= dec_digits(n as nat));
        }
        out
    }
}

/// Resolves a profile to its canonical subject.
pub fn resolve_subject(u: &UserInfo) -> (r: String)
    ensures
        r@ == subject_of(u),
{
    if let Some(s) = &u.email {
        if !s.as_str().is_empty() {
            return s.clone();
        }
    }
    if let Some(s) = &u.login {
        if !s.as_str().is_empty() {
            return s.clone();
        }
    }
    if let Some(s) = &u.name {
        if !s.as_str().is_empty() {
            return s.clone();
        }
    }
    if let Some(s) = &u.sub {
        if !s.as_str().is_empty() {
            return s.clone();
        }
    }
    if let Some(n) = u.id {
        let digits = dec_digits_u64(n);
        proof {
            lemma_dec_digits_are_digits(n as nat);
            lemma_ascii_valid_utf8(digits@);
        }
        let ghost digit_bytes = digits@;
        match bytes_to_string(digits) {
            Ok(s) => {
                proof {
                    broadcast use vstd::utf8::encode_utf8_decode_utf8;

                }
                return s;
            },
            Err(_) => {
                return String::new();
            },
        }
    }
    String::from_str("unknown")
}

} // verus!
