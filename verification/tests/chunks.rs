use chronicle_data_api::chunks::{check_chunk_size, chunk_headers_from, chunk_key, parse_chunk_headers, session_chunk_key, MAX_CHUNK_BYTES};
use chronicle_data_api::error::AppError;
use chronicle_data_api::ids::PseudoId;

fn some(s: &str) -> Option<Option<String>> {
    Some(Some(s.to_string()))
}

fn bad_request(r: Result<chronicle_data_api::chunks::ChunkHeaders, AppError>) -> String {
    match r {
        Err(AppError::BadRequest(m)) => m,
        _ => panic!("expected bad request"),
    }
}

#[test]
fn headers_parse() {
    let h = parse_chunk_headers(some("2026-01-01T00:00:00Z"), some("16"), some("cid-1")).unwrap();
    assert_eq!(h.capture_started_at, (1_767_225_600, 0));
    assert_eq!(h.duration_ms, 16);
    assert_eq!(h.client_chunk_id, "cid-1");
    let h = parse_chunk_headers(some("2026-01-01T01:00:00.5+01:00"), some("+0"), some("x")).unwrap();
    assert_eq!(h.capture_started_at, (1_767_225_600, 500_000_000));
    assert_eq!(h.duration_ms, 0);
}

#[test]
fn missing_headers_are_named() {
    match parse_chunk_headers(None, some("1"), some("c")) {
        Err(AppError::MissingHeader(n)) => assert_eq!(n, "X-Capture-Started-At"),
        _ => panic!("expected missing header"),
    }
    match parse_chunk_headers(some("2026-01-01T00:00:00Z"), None, some("c")) {
        Err(AppError::MissingHeader(n)) => assert_eq!(n, "X-Duration-Ms"),
        _ => panic!("expected missing header"),
    }
    match parse_chunk_headers(some("2026-01-01T00:00:00Z"), some("1"), None) {
        Err(AppError::MissingHeader(n)) => assert_eq!(n, "X-Client-Chunk-Id"),
        _ => panic!("expected missing header"),
    }
}

#[test]
fn bad_headers_are_explained() {
    assert_eq!(
        bad_request(parse_chunk_headers(some("yesterday"), some("1"), some("c"))),
        "X-Capture-Started-At: premature end of input"
    );
    assert_eq!(
        bad_request(parse_chunk_headers(Some(None), some("1"), some("c"))),
        "X-Capture-Started-At: non-ASCII"
    );
    assert_eq!(
        bad_request(parse_chunk_headers(some("2026-01-01T00:00:00Z"), some("ten"), some("c"))),
        "X-Duration-Ms: invalid digit found in string"
    );
    assert_eq!(
        bad_request(parse_chunk_headers(some("2026-01-01T00:00:00Z"), some("3000000000"), some("c"))),
        "X-Duration-Ms: number too large to fit in target type"
    );
    assert_eq!(
        bad_request(parse_chunk_headers(some("2026-01-01T00:00:00Z"), some(""), some("c"))),
        "X-Duration-Ms: cannot parse integer from empty string"
    );
    assert_eq!(
        bad_request(parse_chunk_headers(some("2026-01-01T00:00:00Z"), some("-5"), some("c"))),
        "X-Duration-Ms: must be >= 0"
    );
    assert_eq!(
        bad_request(parse_chunk_headers(some("2026-01-01T00:00:00Z"), some("5"), some(""))),
        "X-Client-Chunk-Id: must be non-empty"
    );
    assert_eq!(
        bad_request(parse_chunk_headers(some("2026-01-01T00:00:00Z"), some("5"), Some(None))),
        "X-Client-Chunk-Id: non-ASCII"
    );
}

#[test]
fn headers_from_a_given_parse() {
    let h = chunk_headers_from(Some(Some(Ok((7, 8)))), some("9"), some("id")).unwrap();
    assert_eq!(h.capture_started_at, (7, 8));
    assert_eq!(
        bad_request(chunk_headers_from(Some(Some(Err("boom".to_string()))), some("9"), some("id"))),
        "X-Capture-Started-At: boom"
    );
}

#[test]
fn chunk_size_cap() {
    assert_eq!(check_chunk_size(0).unwrap(), 0);
    assert_eq!(check_chunk_size(MAX_CHUNK_BYTES).unwrap(), 3_145_728);
    match check_chunk_size(MAX_CHUNK_BYTES + 1) {
        Err(AppError::PayloadTooLarge(m)) => assert_eq!(m, "chunk exceeds 3145728 bytes"),
        _ => panic!("expected payload too large"),
    }
}

#[test]
fn chunk_keys_are_zero_padded() {
    let pid = PseudoId::new("0123456789abcdef01234567").unwrap();
    assert_eq!(chunk_key("sess/abc", &pid, 7), "sess/abc/audio/0123456789abcdef01234567/chunk_0007.pcm");
    assert_eq!(chunk_key("p", &pid, 1234567), "p/audio/0123456789abcdef01234567/chunk_1234567.pcm");
    assert_eq!(chunk_key("p", &pid, -3), "p/audio/0123456789abcdef01234567/chunk_-003.pcm");
    let mixed = PseudoId::new_or_mixed("mixed").unwrap();
    assert_eq!(chunk_key("p", &mixed, 0), "p/audio/mixed/chunk_0000.pcm");
}

#[test]
fn chunk_keys_never_collide() {
    let pid = PseudoId::new("0123456789abcdef01234567").unwrap();
    let mut keys: Vec<String> = (-20..200).map(|s| chunk_key("pfx", &pid, s)).collect();
    keys.push(chunk_key("pfx", &pid, i32::MAX));
    keys.push(chunk_key("pfx", &pid, i32::MIN));
    let n = keys.len();
    keys.sort();
    keys.dedup();
    assert_eq!(keys.len(), n);
}

#[test]
fn uploaded_chunks_are_keyed_by_session_id() {
    let pid = PseudoId::new("0123456789abcdef01234567").unwrap();
    let id: u128 = 0x67e55044_10b1_426f_9247_bb680e5fe0c8;
    assert_eq!(
        session_chunk_key(id, &pid, 7),
        "sessions/67e55044-10b1-426f-9247-bb680e5fe0c8/audio/0123456789abcdef01234567/chunk_0007.pcm"
    );
    assert_eq!(
        session_chunk_key(0, &pid, 12345),
        "sessions/00000000-0000-0000-0000-000000000000/audio/0123456789abcdef01234567/chunk_12345.pcm"
    );
    let u = uuid::Uuid::new_v4();
    assert_eq!(
        session_chunk_key(u.as_u128(), &pid, 1),
        format!("sessions/{}/audio/0123456789abcdef01234567/chunk_0001.pcm", u)
    );
}
