use chronicle_data_api::ids::{PseudoId, PseudoIdError, ETag, ClientId, is_valid_pseudo_id, MIXED_PSEUDO_ID};

#[test]
fn pseudo_id_valid_24_hex() {
    assert!(PseudoId::new("0123456789abcdef01234567").is_ok());
    assert!(PseudoId::new("ffffffffffffffffffffffff").is_ok());
}

#[test]
fn pseudo_id_rejects_too_short() {
    assert_eq!(PseudoId::new("abc").unwrap_err(), PseudoIdError::Invalid);
    assert_eq!(
        PseudoId::new("0123456789abcdef").unwrap_err(),
        PseudoIdError::Invalid
    );
}

#[test]
fn pseudo_id_rejects_too_long() {
    assert_eq!(
        PseudoId::new("0123456789abcdef0123456789").unwrap_err(),
        PseudoIdError::Invalid
    );
}

#[test]
fn pseudo_id_rejects_non_hex() {
    assert_eq!(
        PseudoId::new("GGGGGGGGGGGGGGGGGGGGGGGG").unwrap_err(),
        PseudoIdError::Invalid
    );
    assert_eq!(
        PseudoId::new("0123456789ABCDEF01234567").unwrap_err(),
        PseudoIdError::Invalid
    );
}

#[test]
fn pseudo_id_mixed_sentinel() {
    assert!(PseudoId::new_or_mixed("mixed").is_ok());
    assert!(PseudoId::new_or_mixed("mixed").unwrap().is_mixed());
    assert!(!PseudoId::new("0123456789abcdef01234567")
        .unwrap()
        .is_mixed());
}

#[test]
fn pseudo_id_new_rejects_mixed_sentinel() {
    assert_eq!(PseudoId::new(MIXED_PSEUDO_ID).unwrap_err(), PseudoIdError::Invalid);
    assert!(PseudoId::new_or_mixed("mixe").is_err());
    assert!(PseudoId::new_or_mixed("0123456789abcdef0123456g").is_err());
}

#[test]
fn pseudo_id_accepts_owned_string_and_keeps_text() {
    let p = PseudoId::new(String::from("00112233445566778899aabb")).unwrap();
    assert_eq!(p.as_str(), "00112233445566778899aabb");
    assert_eq!(p.clone().into_inner(), "00112233445566778899aabb".to_string());
    let q: PseudoId = "00112233445566778899aabb".parse().unwrap();
    assert_eq!(p, q);
}

#[test]
fn pseudo_id_validator_edge_cases() {
    assert!(!is_valid_pseudo_id(""));
    assert!(!is_valid_pseudo_id("0123456789abcdef0123456 "));
    assert!(is_valid_pseudo_id("abcdefabcdefabcdefabcdef"));
    // 24 characters, but one of them is multi-byte.
    assert!(!is_valid_pseudo_id("0123456789abcdef0123456é"));
}

#[test]
fn etag_random_is_16_lower_hex() {
    let a = ETag::new_random();
    assert_eq!(a.as_str().len(), 16);
    assert!(a.as_str().chars().all(|c| c.is_ascii_digit() || ('a'..='f').contains(&c)));
    let b = ETag::new_random();
    assert_ne!(a, b);
}

#[test]
fn client_id_as_str() {
    let c = ClientId("cid-1".to_string());
    assert_eq!(c.as_str(), "cid-1");
}

#[test]
fn etag_is_hex_of_drawn_bytes() {
    let t = ETag::from_bytes(&[0x01, 0x23, 0x45, 0x67, 0x89, 0xab, 0xcd, 0xef]);
    assert_eq!(t.as_str(), "0123456789abcdef");
    assert_eq!(ETag::from_bytes(&[0u8; 8]).as_str(), "0000000000000000");
    assert_eq!(ETag::from_bytes(&[0xf0u8; 8]).as_str(), "f0f0f0f0f0f0f0f0");
}
