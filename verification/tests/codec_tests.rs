use proxy_token::codec::decode_token;
use proxy_token::codec::encode_payload;
use proxy_token::codec::encode_token;
use proxy_token::DecodeError;

#[test]
fn encode_token_exact_bytes() {
    // [1000, "alice", h'010203']: 0x83, unsigned 1000 (0x19 03E8),
    // text "alice" (0x65), bytes of length 3 (0x43).
    let tok = encode_token(1000, &"alice".to_string(), &vec![1, 2, 3]);
    let expected: Vec<u8> = vec![
        0x83, 0x19, 0x03, 0xE8, 0x65, b'a', b'l', b'i', b'c', b'e', 0x43, 1, 2, 3,
    ];
    assert_eq!(tok, expected);
}

#[test]
fn encode_payload_exact_bytes() {
    let p = encode_payload(0, &String::new());
    assert_eq!(p, vec![0x82, 0x00, 0x60]);
    let p = encode_payload(23, &"A".to_string());
    assert_eq!(p, vec![0x82, 0x17, 0x61, b'A']);
    let p = encode_payload(24, &"A".to_string());
    assert_eq!(p, vec![0x82, 0x18, 0x18, 0x61, b'A']);
}

#[test]
fn decode_round_trip_all_head_widths() {
    let values: Vec<u64> = vec![
        0,
        23,
        24,
        255,
        256,
        65535,
        65536,
        0xffff_ffff,
        0x1_0000_0000,
        u64::MAX,
    ];
    for expire_at in values {
        let agent = "agent-\u{00e9}\u{4e16}".to_string();
        let sig: Vec<u8> = (0u8..64).collect();
        let tok = encode_token(expire_at, &agent, &sig);
        let back = decode_token(&tok).unwrap();
        assert_eq!(back.0, expire_at);
        assert_eq!(back.1, agent);
        assert_eq!(back.2, sig);
    }
}

#[test]
fn decode_rejects_malformed() {
    // Empty, wrong array length, truncation, trailing garbage.
    assert_eq!(decode_token(&[]), Err(DecodeError));
    assert_eq!(decode_token(&[0x82, 0x00, 0x60]), Err(DecodeError));
    let good = encode_token(1000, &"alice".to_string(), &vec![1, 2, 3]);
    for cut in 0..good.len() {
        assert!(decode_token(&good[..cut]).is_err());
    }
    let mut longer = good.clone();
    longer.push(0x00);
    assert!(decode_token(&longer).is_err());
}

#[test]
fn decode_rejects_non_canonical_heads() {
    // 1000 encoded with a needlessly wide head (0x1A = 4-byte form).
    let data: Vec<u8> = vec![
        0x83, 0x1A, 0x00, 0x00, 0x03, 0xE8, 0x65, b'a', b'l', b'i', b'c', b'e', 0x43, 1, 2, 3,
    ];
    assert_eq!(decode_token(&data), Err(DecodeError));
    // 5 encoded as 0x18 05 (two-byte form for a value below 24).
    let data: Vec<u8> = vec![0x83, 0x18, 0x05, 0x61, b'a', 0x40];
    assert_eq!(decode_token(&data), Err(DecodeError));
}

#[test]
fn decode_rejects_invalid_utf8() {
    // [0, h'ff' as text, h''] - the text item holds an invalid UTF-8 byte.
    let data: Vec<u8> = vec![0x83, 0x00, 0x61, 0xFF, 0x40];
    assert_eq!(decode_token(&data), Err(DecodeError));
}
