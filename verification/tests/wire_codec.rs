//! The base64 wire codec against the reference implementation and itself.

use authsec::b64::{decode_bytes, encode_bytes};
use base64::engine::general_purpose::{STANDARD, URL_SAFE_NO_PAD};
use base64::Engine;

fn sample_inputs() -> Vec<Vec<u8>> {
    vec![
        vec![],
        vec![0],
        vec![255],
        vec![1, 2],
        vec![1, 2, 3],
        vec![1, 2, 3, 4],
        vec![0xde, 0xad, 0xbe, 0xef, 0x00],
        (0u8..=255).collect::<Vec<u8>>(),
        b"hello world, hello base64".to_vec(),
    ]
}

#[test]
fn b64_std_encode_matches_reference() {
    for input in sample_inputs() {
        let ours = encode_bytes(false, true, &input);
        let reference = STANDARD.encode(&input);
        assert_eq!(String::from_utf8(ours).unwrap(), reference);
    }
}

#[test]
fn b64_url_encode_matches_reference() {
    for input in sample_inputs() {
        let ours = encode_bytes(true, false, &input);
        let reference = URL_SAFE_NO_PAD.encode(&input);
        assert_eq!(String::from_utf8(ours).unwrap(), reference);
    }
}

#[test]
fn b64_decode_matches_reference() {
    let cases = [
        "aGVsbG8=",
        "aGVsbG8h",
        "AA==",
        "",
        "AAECAwQ=",
        "////",
        "++++",
    ];
    for c in cases {
        let ours = decode_bytes(false, true, c.as_bytes());
        let reference = STANDARD.decode(c).ok();
        assert_eq!(ours, reference, "mismatch decoding {c:?}");
    }
}

#[test]
fn b64_round_trip() {
    for input in sample_inputs() {
        for (url, pad) in [(false, true), (true, false)] {
            let enc = encode_bytes(url, pad, &input);
            let dec = decode_bytes(url, pad, enc.as_slice()).expect("canonical encoding decodes");
            assert_eq!(dec, input);
        }
    }
}

#[test]
fn b64_rejects_invalid() {
    // bad characters, bad lengths, misplaced padding, non-canonical tails
    for bad in ["a", "a===", "ab=c=", "!!!!", "AB==", "QUJ=", "aGVsbG8", "====", "=AAA"] {
        assert!(
            decode_bytes(false, true, bad.as_bytes()).is_none(),
            "standard decoder accepted {bad:?}"
        );
        let reference = STANDARD.decode(bad);
        assert!(reference.is_err(), "reference accepted {bad:?}");
    }
    // the unpadded url-safe decoder rejects padded and odd-length input
    for bad in ["aGVsbG8=", "a", "+++", "///"] {
        assert!(
            decode_bytes(true, false, bad.as_bytes()).is_none(),
            "url decoder accepted {bad:?}"
        );
        assert!(URL_SAFE_NO_PAD.decode(bad).is_err());
    }
}
