use authgate::base64url::{b64_decode, b64_encode};
use authgate::claims::{encode_payload, parse_payload, Claims};
use authgate::numeric::{dec_to_bytes, parse_dec_bytes};

#[test]
fn b64_known_vectors() {
    assert_eq!(b64_encode(&b"".to_vec()), b"".to_vec());
    assert_eq!(b64_encode(&b"f".to_vec()), b"Zg".to_vec());
    assert_eq!(b64_encode(&b"fo".to_vec()), b"Zm8".to_vec());
    assert_eq!(b64_encode(&b"foo".to_vec()), b"Zm9v".to_vec());
    assert_eq!(b64_encode(&b"hello".to_vec()), b"aGVsbG8".to_vec());
    assert_eq!(b64_encode(&b"test_key".to_vec()), b"dGVzdF9rZXk".to_vec());
}

#[test]
fn b64_decode_inverts_encode() {
    let cases: Vec<Vec<u8>> = vec![
        b"".to_vec(),
        b"a".to_vec(),
        b"ab".to_vec(),
        b"abc".to_vec(),
        b"abcd".to_vec(),
        vec![0, 255, 128, 7, 63, 64],
        b"your-secret-key".to_vec(),
    ];
    for c in cases {
        assert_eq!(b64_decode(&b64_encode(&c)), Some(c));
    }
}

#[test]
fn b64_decode_rejects_bad_input() {
    assert_eq!(b64_decode(&b"A".to_vec()), None);
    assert_eq!(b64_decode(&b"Zg==".to_vec()), None);
    assert_eq!(b64_decode(&b"a!bc".to_vec()), None);
    assert_eq!(b64_decode(&b"ab.c".to_vec()), None);
    assert_eq!(b64_decode(&b"abcde".to_vec()), None);
}

#[test]
fn decimal_render_known_values() {
    assert_eq!(dec_to_bytes(0), b"0".to_vec());
    assert_eq!(dec_to_bytes(42), b"42".to_vec());
    assert_eq!(dec_to_bytes(1700000000), b"1700000000".to_vec());
    assert_eq!(dec_to_bytes(u64::MAX), b"18446744073709551615".to_vec());
}

#[test]
fn decimal_parse_inverts_render() {
    for n in [0u64, 1, 9, 10, 4095, 1700000000, u64::MAX] {
        assert_eq!(parse_dec_bytes(&dec_to_bytes(n)), Some(n));
    }
}

#[test]
fn decimal_parse_rejects_bad_input() {
    assert_eq!(parse_dec_bytes(&b"".to_vec()), None);
    assert_eq!(parse_dec_bytes(&b"12x3".to_vec()), None);
    assert_eq!(parse_dec_bytes(&b"-1".to_vec()), None);
    assert_eq!(parse_dec_bytes(&b"18446744073709551616".to_vec()), None);
}

#[test]
fn payload_wire_form() {
    let c = Claims { api_key: b"test_key".to_vec(), exp: 1700000000 };
    let p = encode_payload(&c);
    assert_eq!(p, b"{\"api_key\":\"dGVzdF9rZXk\",\"exp\":1700000000}".to_vec());
    let back = parse_payload(&p).expect("canonical payload parses");
    assert_eq!(back.api_key, b"test_key".to_vec());
    assert_eq!(back.exp, 1700000000);
}

#[test]
fn payload_parse_rejects_bad_shapes() {
    assert!(parse_payload(&b"".to_vec()).is_none());
    assert!(parse_payload(&b"{\"api_key\":\"dGVzdF9rZXk\",\"exp\":\"1\"}".to_vec()).is_none());
    assert!(parse_payload(&b"{\"api_key\":\"dGVzdF9rZXk\",\"exp\":}".to_vec()).is_none());
    assert!(parse_payload(&b"{\"api_key\":\"!bad\",\"exp\":1}".to_vec()).is_none());
    assert!(parse_payload(&b"{\"apikey\":\"dGVzdF9rZXk\",\"exp\":1}".to_vec()).is_none());
    assert!(parse_payload(&b"{\"api_key\":\"dGVzdF9rZXk\",\"exp\":1".to_vec()).is_none());
}
