use base64::Engine;
use base64::engine::general_purpose::URL_SAFE_NO_PAD;

use ilp_stream::base64url::{b64_decode_bytes, b64_encode_bytes};

fn samples() -> Vec<Vec<u8>> {
    vec![
        b"".to_vec(),
        b"f".to_vec(),
        b"fo".to_vec(),
        b"foo".to_vec(),
        b"foob".to_vec(),
        b"fooba".to_vec(),
        b"foobar".to_vec(),
        vec![0xff, 0xee, 0x00, 0x7f, 0x80, 0x01],
        (0u8..=255).collect(),
        vec![9u8; 32],
    ]
}

#[test]
fn encoding_matches_the_base64_crate() {
    for sample in samples() {
        let ours = b64_encode_bytes(&sample);
        let theirs = URL_SAFE_NO_PAD.encode(&sample).into_bytes();
        assert_eq!(ours, theirs);
    }
}

#[test]
fn decoding_inverts_the_base64_crate_encoding() {
    for sample in samples() {
        let encoded = URL_SAFE_NO_PAD.encode(&sample).into_bytes();
        assert_eq!(b64_decode_bytes(&encoded).unwrap(), sample);
    }
}

#[test]
fn decoding_rejects_bytes_outside_the_alphabet() {
    assert!(b64_decode_bytes(&b"ab+d".to_vec()).is_none());
    assert!(b64_decode_bytes(&b"ab/d".to_vec()).is_none());
    assert!(b64_decode_bytes(&b"ab=d".to_vec()).is_none());
    assert!(b64_decode_bytes(&b"ab.d".to_vec()).is_none());
}

#[test]
fn decoding_rejects_impossible_lengths() {
    assert!(b64_decode_bytes(&b"a".to_vec()).is_none());
    assert!(b64_decode_bytes(&b"abcde".to_vec()).is_none());
    assert!(b64_decode_bytes(&b"extra".to_vec()).is_none());
}
