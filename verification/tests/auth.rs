use chronicle_data_api::auth::{issue_token, AuthRequest};
use chronicle_data_api::auth::{
    extract_bearer, generate_token, hash_token, token_from_bytes, heartbeat_result, heartbeat_token, reaper_period_nanos,
    session_from_lookup, strip_prefix, ws_bearer, AuthRejection,
};
use chronicle_data_api::error::AppError;

#[test]
fn tokens_are_64_lower_hex_and_fresh() {
    let a = generate_token();
    let b = generate_token();
    assert_eq!(a.len(), 64);
    assert!(a.chars().all(|c| c.is_ascii_digit() || ('a'..='f').contains(&c)));
    assert_ne!(a, b);
}

#[test]
fn token_hash_is_sha256_hex() {
    assert_eq!(hash_token(""), "e3b0c44298fc1c149afbf4c8996fb92427ae41e4649b934ca495991b7852b855");
    assert_eq!(hash_token("abc"), "ba7816bf8f01cfea414140de5dae2223b00361a396177a9cb410ff61f20015ad");
    assert_eq!(hash_token("abc"), hash_token("abc"));
}

#[test]
fn bearer_extraction() {
    assert_eq!(extract_bearer(Some("Bearer tok")).unwrap(), "tok");
    assert_eq!(extract_bearer(Some("Bearer ")).unwrap(), "");
    assert_eq!(extract_bearer(Some("Basic abc")), Err(AuthRejection::BadFormat));
    assert_eq!(extract_bearer(Some("bearer tok")), Err(AuthRejection::BadFormat));
    assert_eq!(extract_bearer(None), Err(AuthRejection::MissingHeader));
    assert_eq!(strip_prefix("prefix-rest", "prefix-"), Some("rest".to_string()));
    assert_eq!(strip_prefix("pre", "prefix"), None);
}

#[test]
fn rejections_map_to_statuses() {
    assert_eq!(AuthRejection::MissingHeader.status(), 401);
    assert_eq!(AuthRejection::LookupFailed.status(), 500);
    assert_eq!(AuthRejection::InvalidSession.message(), "invalid or expired session token");
    assert_eq!(AuthRejection::BadFormat.message(), "invalid authorization format");
}

#[test]
fn lookup_outcomes() {
    assert_eq!(session_from_lookup(Ok(Some("bot".to_string()))).unwrap().service_name, "bot");
    assert!(matches!(session_from_lookup(Ok(None)), Err(AuthRejection::InvalidSession)));
    assert!(matches!(
        session_from_lookup(Err(AppError::Database("down".to_string()))),
        Err(AuthRejection::LookupFailed)
    ));
}

#[test]
fn ws_bearer_prefers_header() {
    assert_eq!(ws_bearer(Some("Bearer h"), Some("q".to_string())), Some("h".to_string()));
    assert_eq!(ws_bearer(Some("Token h"), Some("q".to_string())), Some("q".to_string()));
    assert_eq!(ws_bearer(None, None), None);
}

#[test]
fn heartbeat_checks() {
    assert_eq!(heartbeat_token(Some("Bearer t")).unwrap(), "t");
    match heartbeat_token(None) {
        Err(AppError::Unauthorized(m)) => assert_eq!(m, "missing bearer token"),
        _ => panic!("expected unauthorized"),
    }
    assert!(heartbeat_result(true).is_ok());
    match heartbeat_result(false) {
        Err(AppError::Unauthorized(m)) => assert_eq!(m, "invalid session token"),
        _ => panic!("expected unauthorized"),
    }
}

#[test]
fn reaper_period_is_a_third_with_floor() {
    assert_eq!(reaper_period_nanos(90), 30_000_000_000);
    assert_eq!(reaper_period_nanos(3), 5_000_000_000);
    assert_eq!(reaper_period_nanos(0), 5_000_000_000);
    assert_eq!(reaper_period_nanos(16), 5_333_333_333);
}

#[test]
fn issued_token_is_stored_by_its_hash() {
    let req = AuthRequest { shared_secret: "s".to_string(), service_name: "bot".to_string() };
    let (token, hash) = issue_token(&req, "s").unwrap();
    assert_eq!(token.len(), 64);
    assert_eq!(hash, hash_token(&token));
    match issue_token(&req, "other") {
        Err(AppError::Unauthorized(m)) => assert_eq!(m, "invalid shared secret"),
        _ => panic!("expected unauthorized"),
    }
}

#[test]
fn token_is_hex_of_drawn_bytes() {
    let bytes: Vec<u8> = (0u8..32).map(|i| i.wrapping_mul(37).wrapping_add(5)).collect();
    let t = token_from_bytes(&bytes);
    assert_eq!(t, hex::encode(&bytes));
    assert_eq!(token_from_bytes(&[0xffu8; 32]), "f".repeat(64));
    assert_eq!(
        token_from_bytes(&[0xabu8, 0x01].repeat(16)),
        "ab01ab01ab01ab01ab01ab01ab01ab01ab01ab01ab01ab01ab01ab01ab01ab01"
    );
}
