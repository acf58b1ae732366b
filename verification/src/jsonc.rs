//! Claims payload codec.
//!
//! The bearer token carries one JSON object with exactly the fields
//! `sub`, `exp` and `provider`, in that order.  The builder and the parser
//! below are verified against spec-level definitions, and parsing is proved
//! to invert building for every subject, expiry and provider value.

use vstd::arithmetic::div_mod::{lemma_fundamental_div_mod, lemma_mod_pos_bound};
use vstd::prelude::*;

verus! {

/// Lowercase hex digit for a value in `0..16`.
pub open spec fn hex_digit(v: int) -> u8 {
    if v < 10 {
        (48 + v) as u8
    } else {
        (97 + (v - 10)) as u8
    }
}

/// Value of a lowercase hex digit, or `-1`.
pub open spec fn hex_value(b: u8) -> int {
    if 48 <= b < 58 {
        b - 48
    } else if 97 <= b < 103 {
        b - 97 + 10
    } else {
        -1
    }
}

/// JSON escape of one byte of string content: quote and backslash get a
/// two-byte escape, control bytes get a `\u00XX` escape, and every other
/// byte stands as itself.
pub open spec fn esc_byte(b: u8) -> Seq<u8> {
    if b == 34 {
        seq![92u8, 34u8]
    } else if b == 92 {
        seq![92u8, 92u8]
    } else if b < 32 {
        seq![92u8, 117u8, 48u8, 48u8, hex_digit(b as int / 16), hex_digit(b as int % 16)]
    } else {
        seq![b]
    }
}

/// JSON escape of string content, byte by byte.
pub open spec fn esc_bytes(s: Seq<u8>) -> Seq<u8>
    decreases s.len(),
{
    if s.len() == 0 {
        Seq::empty()
    } else {
        esc_byte(s[0]) + esc_bytes(s.skip(1))
    }
}

/// Scans a JSON string body up to its closing quote: yields the unescaped
/// content and what follows the quote, or `None` when no closing quote is
/// reached over well-formed content.
pub open spec fn scan_string(s: Seq<u8>) -> Option<(Seq<u8>, Seq<u8>)>
    decreases s.len(),
{
    if s.len() == 0 {
        None
    } else if s[0] == 34 {
        Some((Seq::empty(), s.skip(1)))
    } else if s[0] == 92 {
        if s.len() >= 2 && (s[1] == 34 || s[1] == 92) {
            match scan_string(s.skip(2)) {
                Some((c, r)) => Some((seq![s[1]] + c, r)),
                None => None,
            }
        } else if s.len() >= 6 && s[1] == 117 && s[2] == 48 && s[3] == 48 && hex_value(s[4]) >= 0
            && hex_value(s[5]) >= 0 {
            match scan_string(s.skip(6)) {
                Some((c, r)) => Some((seq![(hex_value(s[4]) * 16 + hex_value(s[5])) as u8] + c, r)),
                None => None,
            }
        } else {
            None
        }
    } else if s[0] < 32 {
        None
    } else {
        match scan_string(s.skip(1)) {
            Some((c, r)) => Some((seq![s[0]] + c, r)),
            None => None,
        }
    }
}

/// Decimal digits of a number, most significant first.
pub open spec fn dec_digits(n: nat) -> Seq<u8>
    decreases n,
{
    if n < 10 {
        seq![(48 + n) as u8]
    } else {
        dec_digits(n / 10) + seq![(48 + n % 10) as u8]
    }
}

/// Reads a run of decimal digits, accumulating their value; stops at the
/// first non-digit.
pub open spec fn scan_digits_acc(s: Seq<u8>, acc: nat) -> (nat, Seq<u8>)
    decreases s.len(),
{
    if s.len() > 0 && 48 <= s[0] <= 57 {
        scan_digits_acc(s.skip(1), acc * 10 + (s[0] - 48) as nat)
    } else {
        (acc, s)
    }
}

/// Reads a decimal number; `None` when the input does not start with a
/// digit.
pub open spec fn scan_digits(s: Seq<u8>) -> Option<(nat, Seq<u8>)> {
    if s.len() > 0 && 48 <= s[0] <= 57 {
        Some(scan_digits_acc(s, 0))
    } else {
        None
    }
}

/// The bytes `{"sub":"`.
pub open spec fn lit_obj_sub() -> Seq<u8> {
    seq![123u8, 34u8, 115u8, 117u8, 98u8, 34u8, 58u8, 34u8]
}

/// The bytes `,"exp":`.
pub open spec fn lit_exp() -> Seq<u8> {
    seq![44u8, 34u8, 101u8, 120u8, 112u8, 34u8, 58u8]
}

/// The bytes `,"provider":"`.
pub open spec fn lit_provider() -> Seq<u8> {
    seq![
        44u8,
        34u8,
        112u8,
        114u8,
        111u8,
        118u8,
        105u8,
        100u8,
        101u8,
        114u8,
        34u8,
        58u8,
        34u8,
    ]
}

/// The serialized claims object for a subject, expiry and provider.
pub open spec fn claims_json_bytes(sub: Seq<u8>, exp: nat, provider: Seq<u8>) -> Seq<u8> {
    lit_obj_sub() + esc_bytes(sub) + seq![34u8] + lit_exp() + dec_digits(exp) + lit_provider()
        + esc_bytes(provider) + seq![34u8, 125u8]
}

/// Parses a serialized claims object back into its three fields; `None` for
/// any input that is not exactly the shape the builder produces.
pub open spec fn parse_claims_json(s: Seq<u8>) -> Option<(Seq<u8>, nat, Seq<u8>)> {
    if s.len() >= 8 && s.subrange(0, 8) == lit_obj_sub() {
        match scan_string(s.skip(8)) {
            Some((sub, r1)) => if r1.len() >= 7 && r1.subrange(0, 7) == lit_exp() {
                match scan_digits(r1.skip(7)) {
                    Some((exp, r2)) => if r2.len() >= 13 && r2.subrange(0, 13) == lit_provider() {
                        match scan_string(r2.skip(13)) {
                            Some((provider, r3)) => if r3 == seq![125u8] {
                                Some((sub, exp, provider))
                            } else {
                                None
                            },
                            None => None,
                        }
                    } else {
                        None
                    },
                    None => None,
                }
            } else {
                None
            },
            None => None,
        }
    } else {
        None
    }
}

proof fn lemma_hex_digit_value(v: int)
    requires
        0 <= v < 16,
    ensures
        hex_value(hex_digit(v)) == v,
{
}

/// Scanning an escaped string body finds the original content and stops at
/// the closing quote.
proof fn lemma_scan_esc(s: Seq<u8>, rest: Seq<u8>)
    ensures
        scan_string(esc_bytes(s) + seq![34u8] + rest) == Some((s, rest)),
    decreases s.len(),
{
    let w = esc_bytes(s) + seq![34u8] + rest;
    if s.len() == 0 {
        assert(w =~= seq![34u8] + rest);
        assert(w[0] == 34);
        assert(w.skip(1) =~= rest);
        assert(scan_string(w) == Some((Seq::<u8>::empty(), rest)));
        assert(Seq::<u8>::empty() =~= s);
    } else {
        let b = s[0];
        let tail = s.skip(1);
        lemma_scan_esc(tail, rest);
        let wt = esc_bytes(tail) + seq![34u8] + rest;
        assert(w =~= esc_byte(b) + wt);
        if b == 34 {
            assert(w[0] == 92 && w[1] == 34);
            assert(w.len() >= 2);
            assert(w.skip(2) =~= wt);
            assert(scan_string(w) == Some((seq![b] + tail, rest)));
        } else if b == 92 {
            assert(w[0] == 92 && w[1] == 92);
            assert(w.skip(2) =~= wt);
            assert(scan_string(w) == Some((seq![b] + tail, rest)));
        } else if b < 32 {
            lemma_hex_digit_value(b as int / 16);
            lemma_hex_digit_value(b as int % 16);
            lemma_fundamental_div_mod(b as int, 16);
            lemma_mod_pos_bound(b as int, 16);
            assert(w[0] == 92 && w[1] == 117 && w[2] == 48 && w[3] == 48);
            assert(w[4] == hex_digit(b as int / 16) && w[5] == hex_digit(b as int % 16));
            assert(w.len() >= 6);
            assert(w.skip(6) =~= wt);
            assert(hex_value(w[4]) * 16 + hex_value(w[5]) == b);
            assert(scan_string(w) == Some((seq![b] + tail, rest)));
        } else {
            assert(w[0] == b);
            assert(b != 34 && b != 92 && b >= 32);
            assert(w.skip(1) =~= wt);
            assert(scan_string(w) == Some((seq![b] + tail, rest)));
        }
        assert(seq![b] + tail =~= s);
    }
}

/// The decimal scale that one pass over the digits of `n` multiplies an
/// accumulator by.
pub open spec fn dec_scale(n: nat) -> nat
    decreases n,
{
    if n < 10 {
        10
    } else {
        10 * dec_scale(n / 10)
    }
}

/// Every byte of a decimal rendering is a digit.
pub proof fn lemma_dec_digits_are_digits(n: nat)
    ensures
        forall|i: int| 0 <= i < dec_digits(n).len() ==> 48 <= #[trigger] dec_digits(n)[i] <= 57,
    decreases n,
{
    if n >= 10 {
        lemma_dec_digits_are_digits(n / 10);
        lemma_mod_pos_bound(n as int, 10);
        assert forall|i: int| 0 <= i < dec_digits(n).len() implies 48 <= #[trigger] dec_digits(
            n,
        )[i] <= 57 by {
            if i < dec_digits(n / 10).len() {
                assert(dec_digits(n)[i] == dec_digits(n / 10)[i]);
            } else {
                assert(dec_digits(n)[i] == (48 + n % 10) as u8);
            }
        }
    }
}

/// Scanning the rendering of `n` followed by `rest` multiplies the
/// accumulator by the scale of `n` and adds `n`.
proof fn lemma_scan_acc_digits(n: nat, acc: nat, rest: Seq<u8>)
    ensures
        scan_digits_acc(dec_digits(n) + rest, acc) == scan_digits_acc(
            rest,
            acc * dec_scale(n) + n,
        ),
    decreases n,
{
    if n < 10 {
        let w = dec_digits(n) + rest;
        assert(w[0] == 48 + n);
        assert(w.skip(1) =~= rest);
        assert(scan_digits_acc(w, acc) == scan_digits_acc(rest, acc * 10 + n));
    } else {
        let d = (48 + n % 10) as u8;
        lemma_mod_pos_bound(n as int, 10);
        let w = dec_digits(n) + rest;
        assert(dec_digits(n) == dec_digits(n / 10) + seq![d]);
        assert(w =~= dec_digits(n / 10) + (seq![d] + rest));
        lemma_scan_acc_digits(n / 10, acc, seq![d] + rest);
        let acc1 = acc * dec_scale(n / 10) + n / 10;
        assert(scan_digits_acc(w, acc) == scan_digits_acc(seq![d] + rest, acc1));
        assert((seq![d] + rest)[0] == d);
        assert((seq![d] + rest).skip(1) =~= rest);
        assert(48 <= d <= 57);
        assert(scan_digits_acc(seq![d] + rest, acc1) == scan_digits_acc(
            rest,
            acc1 * 10 + (d - 48) as nat,
        ));
        assert(acc1 * 10 + (n % 10) == acc * (10 * dec_scale(n / 10)) + ((n / 10) * 10 + n % 10))
            by (nonlinear_arith)
            requires
                acc1 == acc * dec_scale(n / 10) + n / 10,
        ;
        lemma_fundamental_div_mod(n as int, 10);
        assert((n / 10) * 10 + n % 10 == n);
        assert(dec_scale(n) == 10 * dec_scale(n / 10));
    }
}

/// Scanning a rendered number that is followed by a non-digit yields the
/// number back.
proof fn lemma_scan_digits_round(n: nat, rest: Seq<u8>)
    requires
        rest.len() == 0 || !(48 <= rest[0] <= 57),
    ensures
        scan_digits(dec_digits(n) + rest) == Some((n, rest)),
{
    let w = dec_digits(n) + rest;
    lemma_dec_digits_are_digits(n);
    assert(dec_digits(n).len() >= 1);
    assert(w[0] == dec_digits(n)[0]);
    assert(48 <= w[0] <= 57);
    lemma_scan_acc_digits(n, 0, rest);
    assert(0 * dec_scale(n) + n == n) by (nonlinear_arith);
    assert(scan_digits_acc(rest, n) == (n, rest));
}

/// The scanned value only grows as digits are consumed.
proof fn lemma_scan_acc_lower(s: Seq<u8>, acc: nat)
    ensures
        scan_digits_acc(s, acc).0 >= acc,
    decreases s.len(),
{
    if s.len() > 0 && 48 <= s[0] <= 57 {
        lemma_scan_acc_lower(s.skip(1), acc * 10 + (s[0] - 48) as nat);
    }
}

/// Parsing inverts building, for every subject, expiry and provider.
pub proof fn lemma_claims_json_round_trip(sub: Seq<u8>, exp: nat, provider: Seq<u8>)
    ensures
        parse_claims_json(claims_json_bytes(sub, exp, provider)) == Some((sub, exp, provider)),
{
    let s = claims_json_bytes(sub, exp, provider);
    let rest1 = lit_exp() + dec_digits(exp) + lit_provider() + esc_bytes(provider) + seq![
        34u8,
        125u8,
    ];
    assert(s.len() >= 8);
    assert(s.subrange(0, 8) =~= lit_obj_sub());
    assert(s.skip(8) =~= esc_bytes(sub) + seq![34u8] + rest1);
    lemma_scan_esc(sub, rest1);
    assert(scan_string(s.skip(8)) == Some((sub, rest1)));
    assert(rest1.len() >= 7);
    assert(rest1.subrange(0, 7) =~= lit_exp());
    let rest2 = lit_provider() + esc_bytes(provider) + seq![34u8, 125u8];
    assert(rest1.skip(7) =~= dec_digits(exp) + rest2);
    assert(rest2[0] == 44);
    lemma_scan_digits_round(exp, rest2);
    assert(scan_digits(rest1.skip(7)) == Some((exp, rest2)));
    assert(rest2.len() >= 13);
    assert(rest2.subrange(0, 13) =~= lit_provider());
    assert(rest2.skip(13) =~= esc_bytes(provider) + seq![34u8] + seq![125u8]);
    lemma_scan_esc(provider, seq![125u8]);
    assert(scan_string(rest2.skip(13)) == Some((provider, seq![125u8])));
}

/// Lowercase hex digit, executable form.
fn hex_digit_x(v: u8) -> (r: u8)
    requires
        v < 16,
    ensures
        r == hex_digit(v as int),
{
    if v < 10 {
        48 + v
    } else {
        97 + (v - 10)
    }
}

/// Hex digit value, executable form; `255` stands for "not a digit".
fn hex_value_x(b: u8) -> (r: u8)
    ensures
        hex_value(b) >= 0 ==> r < 16 && r as int == hex_value(b),
        hex_value(b) < 0 ==> r == 255,
{
    if 48 <= b && b < 58 {
        b - 48
    } else if 97 <= b && b < 103 {
        b - 97 + 10
    } else {
        255
    }
}

/// Escapes string content for the claims object.
pub fn esc_bytes_x(s: &[u8]) -> (r: Vec<u8>)
    ensures
        r@ == esc_bytes(s@),
{
    let mut out: Vec<u8> = Vec::new();
    let mut i: usize = 0;
    proof {
        assert(s@.skip(0) =~= s@);
        assert(out@ + esc_bytes(s@) =~= esc_bytes(s@));
    }
    while i < s.len()
        invariant
            i <= s.len(),
            out@ + esc_bytes(s@.skip(i as int)) == esc_bytes(s@),
        decreases s.len() - i,
    {
        let b = s[i];
        proof {
            assert(s@.skip(i as int)[0] == b);
            assert(s@.skip(i as int).skip(1) =~= s@.skip(i as int + 1));
        }
        if b == 34 {
            out.push(92);
            out.push(34);
        } else if b == 92 {
            out.push(92);
            out.push(92);
        } else if b < 32 {
            out.push(92);
            out.push(117);
            out.push(48);
            out.push(48);
            out.push(hex_digit_x(b / 16));
            out.push(hex_digit_x(b % 16));
        } else {
            out.push(b);
        }
        i = i + 1;
        proof {
            assert(out@ + esc_bytes(s@.skip(i as int)) =~= esc_bytes(s@));
        }
    }
    proof {
        assert(s@.skip(i as int).len() == 0);
        assert(out@ + esc_bytes(s@.skip(i as int)) =~= out@);
    }
    out
}

/// Renders a number in decimal.
pub fn dec_digits_x(n: usize) -> (r: Vec<u8>)
    ensures
        r@ == dec_digits(n as nat),
    decreases n,
{
    if n < 10 {
        let mut out: Vec<u8> = Vec::new();
        out.push(48 + n as u8);
        proof {
            assert(out@ =~= dec_digits(n as nat));
        }
        out
    } else {
        let mut out = dec_digits_x(n / 10);
        out.push(48 + (n % 10) as u8);
        proof {
            assert(out@ =~= dec_digits(n as nat));
        }
        out
    }
}

/// Scans a JSON string body from `start`, returning the unescaped content
/// and the index just past the closing quote.
pub fn scan_string_x(s: &[u8], start: usize) -> (r: Option<(Vec<u8>, usize)>)
    requires
        start <= s@.len(),
    ensures
        match r {
            Some(cj) => start <= cj.1 <= s@.len() && scan_string(s@.skip(start as int)) == Some(
                (cj.0@, s@.skip(cj.1 as int)),
            ),
            None => scan_string(s@.skip(start as int)) is None,
        },
{
    let mut out: Vec<u8> = Vec::new();
    let mut i: usize = start;
    loop
        invariant
            start <= i <= s@.len(),
            forall|c: Seq<u8>, rr: Seq<u8>|
                scan_string(s@.skip(i as int)) == Some((c, rr)) ==> scan_string(
                    s@.skip(start as int),
                ) == Some((out@ + c, rr)),
            scan_string(s@.skip(i as int)) is None ==> scan_string(s@.skip(start as int)) is None,
        decreases s@.len() - i,
    {
        let ghost pre = s@.skip(i as int);
        if i >= s.len() {
            return None;
        }
        let b = s[i];
        proof {
            assert(pre[0] == b);
        }
        if b == 34 {
            proof {
                assert(pre.skip(1) =~= s@.skip(i as int + 1));
                assert(scan_string(pre) == Some((Seq::<u8>::empty(), s@.skip(i as int + 1))));
                assert(out@ + Seq::<u8>::empty() =~= out@);
            }
            return Some((out, i + 1));
        }
        if b == 92 {
            if s.len() - i < 2 {
                return None;
            }
            let e = s[i + 1];
            proof {
                assert(pre[1] == e);
            }
            if e == 34 || e == 92 {
                let ghost old_out = out@;
                out.push(e);
                proof {
                    assert(pre.skip(2) =~= s@.skip(i as int + 2));
                    assert(out@ =~= old_out + seq![e]);
                    assert forall|c: Seq<u8>, rr: Seq<u8>|
                        scan_string(s@.skip(i as int + 2)) == Some((c, rr)) implies scan_string(
                        s@.skip(start as int),
                    ) == Some((out@ + c, rr)) by {
                        assert(scan_string(pre) == Some((seq![e] + c, rr)));
                        assert(old_out + (seq![e] + c) =~= out@ + c);
                    }
                }
                i = i + 2;
            } else if e == 117 {
                if s.len() - i < 6 {
                    return None;
                }
                let z2 = s[i + 2];
                let z3 = s[i + 3];
                let h1 = hex_value_x(s[i + 4]);
                let h2 = hex_value_x(s[i + 5]);
                proof {
                    assert(pre[2] == s@[i as int + 2]);
                    assert(pre[3] == s@[i as int + 3]);
                    assert(pre[4] == s@[i as int + 4]);
                    assert(pre[5] == s@[i as int + 5]);
                }
                if z2 != 48 || z3 != 48 || h1 == 255 || h2 == 255 {
                    return None;
                }
                let v: u8 = h1 * 16 + h2;
                let ghost old_out = out@;
                out.push(v);
                proof {
                    assert(pre.skip(6) =~= s@.skip(i as int + 6));
                    assert(out@ =~= old_out + seq![v]);
                    assert forall|c: Seq<u8>, rr: Seq<u8>|
                        scan_string(s@.skip(i as int + 6)) == Some((c, rr)) implies scan_string(
                        s@.skip(start as int),
                    ) == Some((out@ + c, rr)) by {
                        assert(scan_string(pre) == Some((seq![v] + c, rr)));
                        assert(old_out + (seq![v] + c) =~= out@ + c);
                    }
                }
                i = i + 6;
            } else {
                return None;
            }
        } else if b < 32 {
            return None;
        } else {
            let ghost old_out = out@;
            out.push(b);
            proof {
                assert(pre.skip(1) =~= s@.skip(i as int + 1));
                assert(out@ =~= old_out + seq![b]);
                assert forall|c: Seq<u8>, rr: Seq<u8>|
                    scan_string(s@.skip(i as int + 1)) == Some((c, rr)) implies scan_string(
                    s@.skip(start as int),
                ) == Some((out@ + c, rr)) by {
                    assert(scan_string(pre) == Some((seq![b] + c, rr)));
                    assert(old_out + (seq![b] + c) =~= out@ + c);
                }
            }
            i = i + 1;
        }
    }
}

/// Scans a decimal number from `start`; fails when no digit is there or the
/// value does not fit the machine word.
pub fn scan_digits_x(s: &[u8], start: usize) -> (r: Option<(usize, usize)>)
    requires
        start <= s@.len(),
    ensures
        match r {
            Some(vj) => start <= vj.1 <= s@.len() && scan_digits(s@.skip(start as int)) == Some(
                (vj.0 as nat, s@.skip(vj.1 as int)),
            ),
            None => match scan_digits(s@.skip(start as int)) {
                Some(nr) => nr.0 > usize::MAX,
                None => true,
            },
        },
        r is None ==> (scan_digits(s@.skip(start as int)) is None || scan_digits(
            s@.skip(start as int),
        ).unwrap().0 > usize::MAX),
{
    if start >= s.len() {
        return None;
    }
    let first = s[start];
    if !(48 <= first && first <= 57) {
        proof {
            assert(s@.skip(start as int)[0] == first);
        }
        return None;
    }
    let mut acc: usize = 0;
    let mut i: usize = start;
    proof {
        assert(s@.skip(start as int)[0] == first);
        assert(scan_digits(s@.skip(start as int)) == Some(
            scan_digits_acc(s@.skip(start as int), 0),
        ));
    }
    loop
        invariant
            start <= i <= s@.len(),
            scan_digits_acc(s@.skip(start as int), 0) == scan_digits_acc(
                s@.skip(i as int),
                acc as nat,
            ),
            scan_digits(s@.skip(start as int)) == Some(
                scan_digits_acc(s@.skip(start as int), 0),
            ),
        decreases s@.len() - i,
    {
        let ghost pre = s@.skip(i as int);
        if i >= s.len() {
            proof {
                assert(scan_digits_acc(pre, acc as nat) == (acc as nat, pre));
            }
            return Some((acc, i));
        }
        let b = s[i];
        proof {
            assert(pre[0] == b);
        }
        if !(48 <= b && b <= 57) {
            proof {
                assert(scan_digits_acc(pre, acc as nat) == (acc as nat, pre));
            }
            return Some((acc, i));
        }
        let d = b - 48;
        proof {
            assert(pre.skip(1) =~= s@.skip(i as int + 1));
            assert(scan_digits_acc(pre, acc as nat) == scan_digits_acc(
                s@.skip(i as int + 1),
                (acc as nat) * 10 + d as nat,
            ));
        }
        if acc > (usize::MAX - d as usize) / 10 {
            proof {
                lemma_scan_acc_lower(s@.skip(i as int + 1), (acc as nat) * 10 + d as nat);
                assert((acc as nat) * 10 + d as nat > usize::MAX) by (nonlinear_arith)
                    requires
                        acc > (usize::MAX - d as usize) / 10,
                        d <= 9,
                {
                    lemma_fundamental_div_mod((usize::MAX - d as usize) as int, 10);
                    lemma_mod_pos_bound((usize::MAX - d as usize) as int, 10);
                }
            }
            return None;
        }
        acc = acc * 10 + d as usize;
        i = i + 1;
    }
}

/// True when the bytes at `i` start with `p`.
pub fn match_prefix_at(s: &[u8], i: usize, p: &[u8]) -> (r: bool)
    requires
        i <= s@.len(),
    ensures
        r == (s@.skip(i as int).len() >= p@.len() && s@.skip(i as int).subrange(
            0,
            p@.len() as int,
        ) == p@),
{
    if s.len() - i < p.len() {
        return false;
    }
    let mut j: usize = 0;
    while j < p.len()
        invariant
            j <= p@.len(),
            i + p@.len() <= s@.len(),
            s@.len() <= usize::MAX,
            forall|k: int| 0 <= k < j ==> s@[i + k] == p@[k],
        decreases p@.len() - j,
    {
        if s[i + j] != p[j] {
            proof {
                assert(s@.skip(i as int)[j as int] == s@[i + j as int]);
                assert(s@.skip(i as int).subrange(0, p@.len() as int)[j as int] != p@[j as int]);
            }
            return false;
        }
        j = j + 1;
    }
    proof {
        assert(s@.skip(i as int).subrange(0, p@.len() as int) =~= p@);
    }
    true
}

/// The bytes `{"sub":"`, executable form.
pub fn lit_obj_sub_x() -> (r: Vec<u8>)
    ensures
        r@ == lit_obj_sub(),
{
    let mut v: Vec<u8> = Vec::new();
    v.push(123);
    v.push(34);
    v.push(115);
    v.push(117);
    v.push(98);
    v.push(34);
    v.push(58);
    v.push(34);
    proof {
        assert(v@ =~= lit_obj_sub());
    }
    v
}

/// The bytes `,"exp":`, executable form.
pub fn lit_exp_x() -> (r: Vec<u8>)
    ensures
        r@ == lit_exp(),
{
    let mut v: Vec<u8> = Vec::new();
    v.push(44);
    v.push(34);
    v.push(101);
    v.push(120);
    v.push(112);
    v.push(34);
    v.push(58);
    proof {
        assert(v@ =~= lit_exp());
    }
    v
}

/// The bytes `,"provider":"`, executable form.
pub fn lit_provider_x() -> (r: Vec<u8>)
    ensures
        r@ == lit_provider(),
{
    let mut v: Vec<u8> = Vec::new();
    v.push(44);
    v.push(34);
    v.push(112);
    v.push(114);
    v.push(111);
    v.push(118);
    v.push(105);
    v.push(100);
    v.push(101);
    v.push(114);
    v.push(34);
    v.push(58);
    v.push(34);
    proof {
        assert(v@ =~= lit_provider());
    }
    v
}

/// Serializes the claims object.
pub fn claims_json_x(sub: &[u8], exp: usize, provider: &[u8]) -> (r: Vec<u8>)
    ensures
        r@ == claims_json_bytes(sub@, exp as nat, provider@),
{
    let mut out = lit_obj_sub_x();
    let mut part = esc_bytes_x(sub);
    out.append(&mut part);
    out.push(34);
    let mut part2 = lit_exp_x();
    out.append(&mut part2);
    let mut part3 = dec_digits_x(exp);
    out.append(&mut part3);
    let mut part4 = lit_provider_x();
    out.append(&mut part4);
    let mut part5 = esc_bytes_x(provider);
    out.append(&mut part5);
    out.push(34);
    out.push(125);
    proof {
        assert(out@ =~= claims_json_bytes(sub@, exp as nat, provider@));
    }
    out
}

/// Parses a serialized claims object; fails on any other shape, and on an
/// expiry that does not fit the machine word.
#[verifier::rlimit(100)]
#[verifier::spinoff_prover]
pub fn parse_claims_json_x(s: &[u8]) -> (r: Option<(Vec<u8>, usize, Vec<u8>)>)
    ensures
        match r {
            Some(t) => parse_claims_json(s@) == Some((t.0@, t.1 as nat, t.2@)),
            None => match parse_claims_json(s@) {
                Some(t) => t.1 > usize::MAX,
                None => true,
            },
        },
{
    let slen = s.len();
    proof {
        assert(slen == s@.len());
    }
    let lit0 = lit_obj_sub_x();
    if !match_prefix_at(s, 0, lit0.as_slice()) {
        proof {
            assert(s@.skip(0) =~= s@);
            assert(s@.len() >= 8 ==> s@.subrange(0, 8) == s@.skip(0).subrange(0, 8));
        }
        return None;
    }
    proof {
        assert(s@.skip(0) =~= s@);
        assert(s@.subrange(0, 8) == lit_obj_sub());
    }
    let sub = match scan_string_x(s, 8) {
        Some(cj) => cj,
        None => {
            return None;
        },
    };
    let j1 = sub.1;
    let lit1 = lit_exp_x();
    if !match_prefix_at(s, j1, lit1.as_slice()) {
        return None;
    }
    proof {
        assert(s@.skip(j1 as int).subrange(0, 7) == lit_exp());
        assert(s@.skip(j1 as int).skip(7) =~= s@.skip(j1 as int + 7));
        assert(s@.skip(j1 as int).len() >= 7);
        assert(j1 + 7 <= s@.len() <= usize::MAX);
    }
    let exp = match scan_digits_x(s, j1 + 7) {
        Some(vj) => vj,
        None => {
            return None;
        },
    };
    let j2 = exp.1;
    let lit2 = lit_provider_x();
    if !match_prefix_at(s, j2, lit2.as_slice()) {
        return None;
    }
    proof {
        assert(s@.skip(j2 as int).subrange(0, 13) == lit_provider());
        assert(s@.skip(j2 as int).skip(13) =~= s@.skip(j2 as int + 13));
        assert(s@.skip(j2 as int).len() >= 13);
        assert(j2 + 13 <= s@.len() <= usize::MAX);
    }
    let prov = match scan_string_x(s, j2 + 13) {
        Some(cj) => cj,
        None => {
            return None;
        },
    };
    let j3 = prov.1;
    if s.len() - j3 != 1 {
        proof {
            assert(seq![125u8].len() == 1);
            assert(s@.skip(j3 as int).len() != 1);
            assert(s@.skip(j3 as int) != seq![125u8]);
        }
        return None;
    }
    if s[j3] != 125 {
        proof {
            assert(s@.skip(j3 as int)[0] == s@[j3 as int]);
            assert(s@.skip(j3 as int) != seq![125u8]);
        }
        return None;
    }
    proof {
        assert(s@.skip(j3 as int) =~= seq![125u8]);
    }
    Some((sub.0, exp.0, prov.0))
}

} // verus!
