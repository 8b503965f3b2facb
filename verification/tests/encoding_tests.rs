use xattr_json::encoding::encode_value;
use xattr_json::encoding::EncodingPolicy;

#[test]
fn base64_simple_value() {
    let r = encode_value(&vec![0x41, 0x42], EncodingPolicy::Base64);
    assert_eq!(r.unwrap(), "QUI=");
}

#[test]
fn base64_empty_value() {
    let r = encode_value(&vec![], EncodingPolicy::Base64);
    assert_eq!(r.unwrap(), "");
}

#[test]
fn base64_round_trip_various_lengths() {
    let samples: Vec<Vec<u8>> = vec![
        vec![],
        vec![0x00],
        vec![0xFF],
        vec![0xDE, 0xAD],
        vec![0xDE, 0xAD, 0xBE],
        vec![0xDE, 0xAD, 0xBE, 0xEF],
        (0u8..=255u8).collect(),
    ];
    for bytes in samples {
        let encoded = encode_value(&bytes, EncodingPolicy::Base64).unwrap();
        let decoded = base64::Engine::decode(
            &base64::engine::general_purpose::STANDARD,
            encoded.as_bytes(),
        )
        .unwrap();
        assert_eq!(decoded, bytes);
    }
}

#[test]
fn utf8_valid_value() {
    let r = encode_value(&vec![0x41, 0x42], EncodingPolicy::Utf8);
    assert_eq!(r.unwrap(), "AB");
}

#[test]
fn utf8_multibyte_value() {
    let bytes = "héllo".as_bytes().to_vec();
    let r = encode_value(&bytes, EncodingPolicy::Utf8);
    assert_eq!(r.unwrap(), "héllo");
}

#[test]
fn utf8_invalid_value_dropped() {
    assert!(encode_value(&vec![0xFF], EncodingPolicy::Utf8).is_none());
    assert!(encode_value(&vec![0xC0, 0x80], EncodingPolicy::Utf8).is_none());
    assert!(encode_value(&vec![0xED, 0xA0, 0x80], EncodingPolicy::Utf8).is_none());
}

#[test]
fn escaped_exact_text() {
    let r = encode_value(&vec![0x00, 0x41, 0x09, 0x22, 0x5C, 0x7F, 0xFF], EncodingPolicy::Escaped);
    assert_eq!(r.unwrap(), "\\x00A\\t\\\"\\\\\\x7f\\xff");
}

#[test]
fn escaped_matches_conventional_ascii_escape() {
    let bytes: Vec<u8> = (0u8..=255u8).collect();
    let expected: String = bytes
        .iter()
        .flat_map(|b| std::ascii::escape_default(*b))
        .map(|b| b as char)
        .collect();
    let r = encode_value(&bytes, EncodingPolicy::Escaped);
    assert_eq!(r.unwrap(), expected);
}

#[test]
fn escaped_never_fails() {
    for b in 0u8..=255u8 {
        assert!(encode_value(&vec![b], EncodingPolicy::Escaped).is_some());
    }
}
