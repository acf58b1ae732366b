//! Base64 wire codec.
//!
//! Two configurations are used on the wire: the standard alphabet with `=`
//! padding for the key/ciphertext transport fields, and the URL-safe alphabet
//! without padding for bearer-token segments.  Both encoder and decoder are
//! verified against the spec-level codec, and decoding is proved to invert
//! encoding exactly.

use vstd::arithmetic::div_mod::{
    lemma_fundamental_div_mod, lemma_fundamental_div_mod_converse, lemma_mod_pos_bound,
};
use vstd::prelude::*;

verus! {

/// ASCII code of the base64 digit for a sextet value `v` in `0..64`.
pub open spec fn b64_digit(url: bool, v: int) -> u8 {
    if 0 <= v < 26 {
        (65 + v) as u8  // 'A'..='Z'
    } else if 26 <= v < 52 {
        (97 + (v - 26)) as u8  // 'a'..='z'
    } else if 52 <= v < 62 {
        (48 + (v - 52)) as u8  // '0'..='9'
    } else if v == 62 {
        if url {
            45u8
        } else {
            43u8
        }  // '-' or '+'
    } else {
        if url {
            95u8
        } else {
            47u8
        }  // '_' or '/'
    }
}

/// Sextet value of an ASCII byte, or `-1` when the byte is not a digit of the
/// chosen alphabet.
pub open spec fn b64_value(url: bool, b: u8) -> int {
    if 65 <= b < 91 {
        b - 65
    } else if 97 <= b < 123 {
        b - 97 + 26
    } else if 48 <= b < 58 {
        b - 48 + 52
    } else if (!url && b == 43) || (url && b == 45) {
        62
    } else if (!url && b == 47) || (url && b == 95) {
        63
    } else {
        -1
    }
}

/// The four digits that encode a full group of three bytes.
pub open spec fn b64_group(url: bool, b0: u8, b1: u8, b2: u8) -> Seq<u8> {
    seq![
        b64_digit(url, b0 as int / 4),
        b64_digit(url, (b0 as int % 4) * 16 + b1 as int / 16),
        b64_digit(url, (b1 as int % 16) * 4 + b2 as int / 64),
        b64_digit(url, b2 as int % 64),
    ]
}

/// The digits that encode a trailing group of one byte (two digits, plus
/// `==` when padding is on).
pub open spec fn b64_tail1(url: bool, pad: bool, b0: u8) -> Seq<u8> {
    let digits = seq![b64_digit(url, b0 as int / 4), b64_digit(url, (b0 as int % 4) * 16)];
    if pad {
        digits + seq![61u8, 61u8]
    } else {
        digits
    }
}

/// The digits that encode a trailing group of two bytes (three digits, plus
/// `=` when padding is on).
pub open spec fn b64_tail2(url: bool, pad: bool, b0: u8, b1: u8) -> Seq<u8> {
    let digits = seq![
        b64_digit(url, b0 as int / 4),
        b64_digit(url, (b0 as int % 4) * 16 + b1 as int / 16),
        b64_digit(url, (b1 as int % 16) * 4),
    ];
    if pad {
        digits + seq![61u8]
    } else {
        digits
    }
}

/// Base64 encoding of a byte sequence, as ASCII bytes.
pub open spec fn b64_encode(url: bool, pad: bool, s: Seq<u8>) -> Seq<u8>
    decreases s.len(),
{
    if s.len() >= 3 {
        b64_group(url, s[0], s[1], s[2]) + b64_encode(url, pad, s.skip(3))
    } else if s.len() == 2 {
        b64_tail2(url, pad, s[0], s[1])
    } else if s.len() == 1 {
        b64_tail1(url, pad, s[0])
    } else {
        Seq::empty()
    }
}

/// The three bytes encoded by four digits, or `None` when one of them is not
/// a digit of the alphabet.
pub open spec fn b64_dec_group(url: bool, c0: u8, c1: u8, c2: u8, c3: u8) -> Option<Seq<u8>> {
    let v0 = b64_value(url, c0);
    let v1 = b64_value(url, c1);
    let v2 = b64_value(url, c2);
    let v3 = b64_value(url, c3);
    if v0 >= 0 && v1 >= 0 && v2 >= 0 && v3 >= 0 {
        Some(
            seq![
                (v0 * 4 + v1 / 16) as u8,
                ((v1 % 16) * 16 + v2 / 4) as u8,
                ((v2 % 4) * 64 + v3) as u8,
            ],
        )
    } else {
        None
    }
}

/// The byte encoded by a two-digit tail.  Rejects non-canonical trailing
/// bits, as a strict decoder does.
pub open spec fn b64_dec_tail1(url: bool, c0: u8, c1: u8) -> Option<Seq<u8>> {
    let v0 = b64_value(url, c0);
    let v1 = b64_value(url, c1);
    if v0 >= 0 && v1 >= 0 && v1 % 16 == 0 {
        Some(seq![(v0 * 4 + v1 / 16) as u8])
    } else {
        None
    }
}

/// The two bytes encoded by a three-digit tail.  Rejects non-canonical
/// trailing bits.
pub open spec fn b64_dec_tail2(url: bool, c0: u8, c1: u8, c2: u8) -> Option<Seq<u8>> {
    let v0 = b64_value(url, c0);
    let v1 = b64_value(url, c1);
    let v2 = b64_value(url, c2);
    if v0 >= 0 && v1 >= 0 && v2 >= 0 && v2 % 4 == 0 {
        Some(seq![(v0 * 4 + v1 / 16) as u8, ((v1 % 16) * 16 + v2 / 4) as u8])
    } else {
        None
    }
}

/// Decoding of one final four-digit group in padded mode: `=` may close the
/// group in the last one or two positions.
pub open spec fn b64_dec_last_padded(url: bool, c0: u8, c1: u8, c2: u8, c3: u8) -> Option<
    Seq<u8>,
> {
    if c3 == 61 {
        if c2 == 61 {
            b64_dec_tail1(url, c0, c1)
        } else {
            b64_dec_tail2(url, c0, c1, c2)
        }
    } else {
        b64_dec_group(url, c0, c1, c2, c3)
    }
}

/// Joins a decoded head group onto the outcome of decoding the rest.
pub open spec fn prepend_opt(p: Seq<u8>, r: Option<Seq<u8>>) -> Option<Seq<u8>> {
    match r {
        Some(t) => Some(p + t),
        None => None,
    }
}

/// Base64 decoding of an ASCII byte sequence; `None` when the input is not
/// the canonical encoding of any byte sequence under the chosen
/// configuration.
pub open spec fn b64_decode(url: bool, pad: bool, s: Seq<u8>) -> Option<Seq<u8>>
    decreases s.len(),
{
    if s.len() == 0 {
        Some(Seq::empty())
    } else if pad {
        if s.len() % 4 != 0 {
            None
        } else if s.len() == 4 {
            b64_dec_last_padded(url, s[0], s[1], s[2], s[3])
        } else {
            match b64_dec_group(url, s[0], s[1], s[2], s[3]) {
                Some(head) => prepend_opt(head, b64_decode(url, pad, s.skip(4))),
                None => None,
            }
        }
    } else {
        if s.len() >= 4 {
            match b64_dec_group(url, s[0], s[1], s[2], s[3]) {
                Some(head) => prepend_opt(head, b64_decode(url, pad, s.skip(4))),
                None => None,
            }
        } else if s.len() == 3 {
            b64_dec_tail2(url, s[0], s[1], s[2])
        } else if s.len() == 2 {
            b64_dec_tail1(url, s[0], s[1])
        } else {
            None
        }
    }
}

proof fn lemma_prepend_empty(r: Option<Seq<u8>>)
    ensures
        prepend_opt(Seq::empty(), r) == r,
{
    match r {
        Some(t) => {
            assert(Seq::<u8>::empty() + t =~= t);
        },
        None => {},
    }
}

proof fn lemma_prepend_assoc(p: Seq<u8>, q: Seq<u8>, r: Option<Seq<u8>>)
    ensures
        prepend_opt(p, prepend_opt(q, r)) == prepend_opt(p + q, r),
{
    match r {
        Some(t) => {
            assert(p + (q + t) =~= (p + q) + t);
        },
        None => {},
    }
}

/// Every digit of the alphabet decodes back to its sextet value, and no
/// digit is the pad byte `=`.
proof fn lemma_digit_value(url: bool, v: int)
    requires
        0 <= v < 64,
    ensures
        b64_value(url, b64_digit(url, v)) == v,
        b64_digit(url, v) != 61,
{
}

/// The sextets of a full group recombine into the three bytes that made
/// them.
proof fn lemma_sextet_recover(b0: u8, b1: u8, b2: u8)
    ensures
        (b0 as int / 4) * 4 + ((b0 as int % 4) * 16 + b1 as int / 16) / 16 == b0 as int,
        (((b0 as int % 4) * 16 + b1 as int / 16) % 16) * 16 + ((b1 as int % 16) * 4 + b2 as int
            / 64) / 4 == b1 as int,
        (((b1 as int % 16) * 4 + b2 as int / 64) % 4) * 64 + (b2 as int % 64) == b2 as int,
{
    lemma_fundamental_div_mod(b0 as int, 4);
    lemma_mod_pos_bound(b0 as int, 4);
    lemma_fundamental_div_mod(b1 as int, 16);
    lemma_mod_pos_bound(b1 as int, 16);
    lemma_fundamental_div_mod(b2 as int, 64);
    lemma_mod_pos_bound(b2 as int, 64);
    let v1 = (b0 as int % 4) * 16 + b1 as int / 16;
    lemma_fundamental_div_mod_converse(v1, 16, b0 as int % 4, b1 as int / 16);
    let v2 = (b1 as int % 16) * 4 + b2 as int / 64;
    lemma_fundamental_div_mod_converse(v2, 4, b1 as int % 16, b2 as int / 64);
}

/// A four-digit group decodes back to the three bytes it encodes.
proof fn lemma_group_round(url: bool, b0: u8, b1: u8, b2: u8)
    ensures
        b64_dec_group(
            url,
            b64_group(url, b0, b1, b2)[0],
            b64_group(url, b0, b1, b2)[1],
            b64_group(url, b0, b1, b2)[2],
            b64_group(url, b0, b1, b2)[3],
        ) == Some(seq![b0, b1, b2]),
        b64_group(url, b0, b1, b2)[3] != 61,
{
    lemma_digit_value(url, b0 as int / 4);
    lemma_digit_value(url, (b0 as int % 4) * 16 + b1 as int / 16);
    lemma_digit_value(url, (b1 as int % 16) * 4 + b2 as int / 64);
    lemma_digit_value(url, b2 as int % 64);
    lemma_sextet_recover(b0, b1, b2);
    assert(b64_dec_group(
        url,
        b64_group(url, b0, b1, b2)[0],
        b64_group(url, b0, b1, b2)[1],
        b64_group(url, b0, b1, b2)[2],
        b64_group(url, b0, b1, b2)[3],
    ) =~= Some(seq![b0, b1, b2]));
}

/// A one-byte tail decodes back to its byte.
proof fn lemma_tail1_round(url: bool, b0: u8)
    ensures
        b64_dec_tail1(url, b64_tail1(url, false, b0)[0], b64_tail1(url, false, b0)[1]) == Some(
            seq![b0],
        ),
{
    lemma_digit_value(url, b0 as int / 4);
    lemma_digit_value(url, (b0 as int % 4) * 16);
    lemma_fundamental_div_mod(b0 as int, 4);
    lemma_mod_pos_bound(b0 as int, 4);
    lemma_fundamental_div_mod_converse((b0 as int % 4) * 16, 16, b0 as int % 4, 0);
    assert(b64_dec_tail1(url, b64_tail1(url, false, b0)[0], b64_tail1(url, false, b0)[1]) =~= Some(
        seq![b0],
    ));
}

/// A two-byte tail decodes back to its bytes.
proof fn lemma_tail2_round(url: bool, b0: u8, b1: u8)
    ensures
        b64_dec_tail2(
            url,
            b64_tail2(url, false, b0, b1)[0],
            b64_tail2(url, false, b0, b1)[1],
            b64_tail2(url, false, b0, b1)[2],
        ) == Some(seq![b0, b1]),
        b64_tail2(url, false, b0, b1)[2] != 61,
{
    lemma_digit_value(url, b0 as int / 4);
    lemma_digit_value(url, (b0 as int % 4) * 16 + b1 as int / 16);
    lemma_digit_value(url, (b1 as int % 16) * 4);
    lemma_fundamental_div_mod(b0 as int, 4);
    lemma_mod_pos_bound(b0 as int, 4);
    lemma_fundamental_div_mod(b1 as int, 16);
    lemma_mod_pos_bound(b1 as int, 16);
    let v1 = (b0 as int % 4) * 16 + b1 as int / 16;
    lemma_fundamental_div_mod_converse(v1, 16, b0 as int % 4, b1 as int / 16);
    lemma_fundamental_div_mod_converse((b1 as int % 16) * 4, 4, b1 as int % 16, 0);
    assert(b64_dec_tail2(
        url,
        b64_tail2(url, false, b0, b1)[0],
        b64_tail2(url, false, b0, b1)[1],
        b64_tail2(url, false, b0, b1)[2],
    ) =~= Some(seq![b0, b1]));
}

/// In padded mode an encoding is always a whole number of four-digit groups,
/// and an encoding is empty exactly when its input is.
pub proof fn lemma_b64_encode_shape(url: bool, pad: bool, s: Seq<u8>)
    ensures
        pad ==> b64_encode(url, pad, s).len() % 4 == 0,
        s.len() == 0 <==> b64_encode(url, pad, s).len() == 0,
    decreases s.len(),
{
    if s.len() >= 3 {
        lemma_b64_encode_shape(url, pad, s.skip(3));
    }
}

/// Every byte of an encoding is ASCII and is not a dot, so encodings can be
/// joined with `.` separators and split again unambiguously.
pub proof fn lemma_b64_encode_wire_safe(url: bool, pad: bool, s: Seq<u8>)
    ensures
        forall|k: int|
            0 <= k < b64_encode(url, pad, s).len() ==> (#[trigger] b64_encode(url, pad, s)[k]
                < 128 && b64_encode(url, pad, s)[k] != 46),
    decreases s.len(),
{
    if s.len() >= 3 {
        lemma_b64_encode_wire_safe(url, pad, s.skip(3));
        assert forall|k: int| 0 <= k < b64_encode(url, pad, s).len() implies (
        #[trigger] b64_encode(url, pad, s)[k] < 128 && b64_encode(url, pad, s)[k] != 46) by {
            if k >= 4 {
                assert(b64_encode(url, pad, s)[k] == b64_encode(url, pad, s.skip(3))[k - 4]);
            }
        }
    }
}

/// Decoding inverts encoding: the codec round-trips on every byte sequence.
#[verifier::rlimit(100)]
#[verifier::spinoff_prover]
pub proof fn lemma_b64_round_trip(url: bool, pad: bool, s: Seq<u8>)
    ensures
        b64_decode(url, pad, b64_encode(url, pad, s)) == Some(s),
    decreases s.len(),
{
    let e = b64_encode(url, pad, s);
    if s.len() == 0 {
        assert(b64_decode(url, pad, e) =~= Some(s));
    } else if s.len() == 1 {
        lemma_tail1_round(url, s[0]);
        let t = b64_tail1(url, false, s[0]);
        lemma_digit_value(url, (s[0] as int % 4) * 16);
        if pad {
            assert(e.len() == 4);
            assert(e[0] == t[0] && e[1] == t[1] && e[2] == 61 && e[3] == 61);
        } else {
            assert(e.len() == 2);
            assert(e[0] == t[0] && e[1] == t[1]);
        }
        assert(b64_decode(url, pad, e) == Some(seq![s[0]]));
        assert(seq![s[0]] =~= s);
    } else if s.len() == 2 {
        lemma_tail2_round(url, s[0], s[1]);
        let t = b64_tail2(url, false, s[0], s[1]);
        if pad {
            assert(e.len() == 4);
            assert(e[0] == t[0] && e[1] == t[1] && e[2] == t[2] && e[3] == 61);
            assert(t[2] != 61);
        } else {
            assert(e.len() == 3);
            assert(e[0] == t[0] && e[1] == t[1] && e[2] == t[2]);
        }
        assert(b64_decode(url, pad, e) == Some(seq![s[0], s[1]]));
        assert(seq![s[0], s[1]] =~= s);
    } else {
        let rest = s.skip(3);
        let g = b64_group(url, s[0], s[1], s[2]);
        let erest = b64_encode(url, pad, rest);
        lemma_group_round(url, s[0], s[1], s[2]);
        lemma_b64_round_trip(url, pad, rest);
        lemma_b64_encode_shape(url, pad, rest);
        assert(e == g + erest);
        assert(e.len() == 4 + erest.len());
        assert(e[0] == g[0] && e[1] == g[1] && e[2] == g[2] && e[3] == g[3]);
        assert(e.skip(4) =~= erest);
        assert(b64_dec_group(url, e[0], e[1], e[2], e[3]) == Some(seq![s[0], s[1], s[2]]));
        if erest.len() == 0 {
            // the group is the last four digits; its fourth digit is a plain
            // digit, so the padded last-group rule still decodes it as a group
            assert(rest =~= Seq::<u8>::empty());
            assert(e.len() == 4);
            assert(b64_decode(url, pad, e) == Some(seq![s[0], s[1], s[2]] + rest));
        } else {
            assert(e.len() > 4);
            assert(b64_decode(url, pad, e) == prepend_opt(
                seq![s[0], s[1], s[2]],
                b64_decode(url, pad, e.skip(4)),
            ));
            assert(b64_decode(url, pad, e) == Some(seq![s[0], s[1], s[2]] + rest));
        }
        assert(seq![s[0], s[1], s[2]] + rest =~= s);
    }
}

/// The digit table, executable form.
fn b64_digit_x(url: bool, v: u8) -> (r: u8)
    requires
        v < 64,
    ensures
        r == b64_digit(url, v as int),
{
    if v < 26 {
        65 + v
    } else if v < 52 {
        97 + (v - 26)
    } else if v < 62 {
        48 + (v - 52)
    } else if v == 62 {
        if url {
            45
        } else {
            43
        }
    } else {
        if url {
            95
        } else {
            47
        }
    }
}

/// The value table, executable form; `255` stands for "not a digit".
fn b64_value_x(url: bool, b: u8) -> (r: u8)
    ensures
        b64_value(url, b) >= 0 ==> r < 64 && r as int == b64_value(url, b),
        b64_value(url, b) < 0 ==> r == 255,
{
    if 65 <= b && b < 91 {
        b - 65
    } else if 97 <= b && b < 123 {
        b - 97 + 26
    } else if 48 <= b && b < 58 {
        b - 48 + 52
    } else if (!url && b == 43) || (url && b == 45) {
        62
    } else if (!url && b == 47) || (url && b == 95) {
        63
    } else {
        255
    }
}

/// Encodes a byte sequence under the chosen alphabet and padding.
pub fn encode_bytes(url: bool, pad: bool, s: &Vec<u8>) -> (r: Vec<u8>)
    ensures
        r@ == b64_encode(url, pad, s@),
{
    let mut out: Vec<u8> = Vec::new();
    let mut i: usize = 0;
    proof {
        assert(s@.skip(0) =~= s@);
        assert(out@ + b64_encode(url, pad, s@) =~= b64_encode(url, pad, s@));
    }
    while s.len() - i >= 3
        invariant
            i <= s.len(),
            out@ + b64_encode(url, pad, s@.skip(i as int)) == b64_encode(url, pad, s@),
        decreases s.len() - i,
    {
        let b0 = s[i];
        let b1 = s[i + 1];
        let b2 = s[i + 2];
        proof {
            assert(s@.skip(i as int)[0] == b0);
            assert(s@.skip(i as int)[1] == b1);
            assert(s@.skip(i as int)[2] == b2);
            assert(s@.skip(i as int).skip(3) =~= s@.skip(i as int + 3));
        }
        out.push(b64_digit_x(url, b0 / 4));
        out.push(b64_digit_x(url, (b0 % 4) * 16 + b1 / 16));
        out.push(b64_digit_x(url, (b1 % 16) * 4 + b2 / 64));
        out.push(b64_digit_x(url, b2 % 64));
        i = i + 3;
        proof {
            assert(out@ + b64_encode(url, pad, s@.skip(i as int)) =~= b64_encode(url, pad, s@));
        }
    }
    let rem = s.len() - i;
    if rem == 1 {
        let b0 = s[i];
        proof {
            assert(s@.skip(i as int)[0] == b0);
        }
        out.push(b64_digit_x(url, b0 / 4));
        out.push(b64_digit_x(url, (b0 % 4) * 16));
        if pad {
            out.push(61);
            out.push(61);
        }
        proof {
            assert(out@ =~= b64_encode(url, pad, s@));
        }
    } else if rem == 2 {
        let b0 = s[i];
        let b1 = s[i + 1];
        proof {
            assert(s@.skip(i as int)[0] == b0);
            assert(s@.skip(i as int)[1] == b1);
        }
        out.push(b64_digit_x(url, b0 / 4));
        out.push(b64_digit_x(url, (b0 % 4) * 16 + b1 / 16));
        out.push(b64_digit_x(url, (b1 % 16) * 4));
        if pad {
            out.push(61);
        }
        proof {
            assert(out@ =~= b64_encode(url, pad, s@));
        }
    } else {
        proof {
            assert(s@.skip(i as int).len() == 0);
            assert(out@ + b64_encode(url, pad, s@.skip(i as int)) =~= out@);
        }
    }
    out
}

/// Decodes a byte sequence under the chosen alphabet and padding; `None`
/// exactly when the input is not a canonical encoding.
#[verifier::rlimit(100)]
#[verifier::spinoff_prover]
pub fn decode_bytes(url: bool, pad: bool, s: &[u8]) -> (r: Option<Vec<u8>>)
    ensures
        match r {
            Some(v) => b64_decode(url, pad, s@) == Some(v@),
            None => b64_decode(url, pad, s@) is None,
        },
{
    let n = s.len();
    if pad && n % 4 != 0 {
        return None;
    }
    let mut out: Vec<u8> = Vec::new();
    let mut i: usize = 0;
    let full_groups_end: usize = if pad {
        if n >= 4 {
            n - 4
        } else {
            0
        }
    } else {
        n - n % 4
    };
    proof {
        assert(s@.skip(0) =~= s@);
        lemma_prepend_empty(b64_decode(url, pad, s@));
    }
    while i < full_groups_end
        invariant
            i <= full_groups_end,
            i % 4 == 0,
            full_groups_end % 4 == 0,
            full_groups_end <= n == s@.len(),
            pad ==> n % 4 == 0 && (n < 4 || full_groups_end == n - 4),
            !pad ==> full_groups_end == n - (n as int) % 4,
            b64_decode(url, pad, s@) == prepend_opt(out@, b64_decode(url, pad, s@.skip(i as int))),
        decreases full_groups_end - i,
    {
        let ghost pre = s@.skip(i as int);
        proof {
            assert(pre[0] == s@[i as int]);
            assert(pre[1] == s@[i as int + 1]);
            assert(pre[2] == s@[i as int + 2]);
            assert(pre[3] == s@[i as int + 3]);
            assert(pre.len() == n - i >= 4);
            if pad {
                assert(pre.len() % 4 == 0);
                assert(pre.len() > 4);
            }
        }
        let v0 = b64_value_x(url, s[i]);
        let v1 = b64_value_x(url, s[i + 1]);
        let v2 = b64_value_x(url, s[i + 2]);
        let v3 = b64_value_x(url, s[i + 3]);
        if v0 == 255 || v1 == 255 || v2 == 255 || v3 == 255 {
            proof {
                assert(b64_dec_group(url, pre[0], pre[1], pre[2], pre[3]) is None);
                assert(b64_decode(url, pad, pre) is None);
            }
            return None;
        }
        let ghost old_out = out@;
        out.push(v0 * 4 + v1 / 16);
        out.push((v1 % 16) * 16 + v2 / 4);
        out.push((v2 % 4) * 64 + v3);
        proof {
            let head = seq![
                (v0 * 4 + v1 / 16) as u8,
                ((v1 % 16) * 16 + v2 / 4) as u8,
                ((v2 % 4) * 64 + v3) as u8,
            ];
            assert(out@ =~= old_out + head);
            assert(b64_dec_group(url, pre[0], pre[1], pre[2], pre[3]) matches Some(h) && h =~= head);
            assert(pre.skip(4) =~= s@.skip(i as int + 4));
            assert(b64_decode(url, pad, pre) == prepend_opt(
                head,
                b64_decode(url, pad, s@.skip(i as int + 4)),
            ));
            lemma_prepend_assoc(old_out, head, b64_decode(url, pad, s@.skip(i as int + 4)));
        }
        i = i + 4;
    }
    // what is left: in padded mode one final group of four (or nothing);
    // in unpadded mode a tail of zero, two or three digits
    let rem = n - i;
    let ghost pre = s@.skip(i as int);
    proof {
        assert(pre.len() == rem);
        if rem >= 1 {
            assert(pre[0] == s@[i as int]);
        }
        if rem >= 2 {
            assert(pre[1] == s@[i as int + 1]);
        }
        if rem >= 3 {
            assert(pre[2] == s@[i as int + 2]);
        }
        if rem >= 4 {
            assert(pre[3] == s@[i as int + 3]);
        }
    }
    if rem == 0 {
        proof {
            assert(out@ + Seq::<u8>::empty() =~= out@);
        }
        return Some(out);
    }
    if rem == 1 {
        return None;
    }
    let v0 = b64_value_x(url, s[i]);
    let v1 = b64_value_x(url, s[i + 1]);
    if rem == 2 {
        // unpadded two-digit tail
        if v0 == 255 || v1 == 255 || v1 % 16 != 0 {
            return None;
        }
        let ghost old_out = out@;
        out.push(v0 * 4 + v1 / 16);
        proof {
            assert(b64_decode(url, pad, pre) matches Some(t) && out@ =~= old_out + t);
        }
        return Some(out);
    }
    let v2 = b64_value_x(url, s[i + 2]);
    if rem == 3 {
        // unpadded three-digit tail
        if v0 == 255 || v1 == 255 || v2 == 255 || v2 % 4 != 0 {
            return None;
        }
        let ghost old_out = out@;
        out.push(v0 * 4 + v1 / 16);
        out.push((v1 % 16) * 16 + v2 / 4);
        proof {
            assert(b64_decode(url, pad, pre) matches Some(t) && out@ =~= old_out + t);
        }
        return Some(out);
    }
    // padded final group of four digits
    let c2 = s[i + 2];
    let c3 = s[i + 3];
    if c3 == 61 {
        if c2 == 61 {
            if v0 == 255 || v1 == 255 || v1 % 16 != 0 {
                return None;
            }
            let ghost old_out = out@;
            out.push(v0 * 4 + v1 / 16);
            proof {
                assert(b64_decode(url, pad, pre) matches Some(t) && out@ =~= old_out + t);
            }
            return Some(out);
        }
        if v0 == 255 || v1 == 255 || v2 == 255 || v2 % 4 != 0 {
            return None;
        }
        let ghost old_out = out@;
        out.push(v0 * 4 + v1 / 16);
        out.push((v1 % 16) * 16 + v2 / 4);
        proof {
            assert(b64_decode(url, pad, pre) matches Some(t) && out@ =~= old_out + t);
        }
        return Some(out);
    }
    let v3 = b64_value_x(url, s[i + 3]);
    if v0 == 255 || v1 == 255 || v2 == 255 || v3 == 255 {
        return None;
    }
    let ghost old_out = out@;
    out.push(v0 * 4 + v1 / 16);
    out.push((v1 % 16) * 16 + v2 / 4);
    out.push((v2 % 4) * 64 + v3);
    proof {
        assert(b64_decode(url, pad, pre) matches Some(t) && out@ =~= old_out + t);
    }
    Some(out)
}

} // verus!
