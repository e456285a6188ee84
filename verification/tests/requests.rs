use chronicle_data_api::error::AppError;
use chronicle_data_api::ids::PseudoId;
use chronicle_data_api::requests::{
    default_true, participant_columns, AddParticipant, CreateMuteRange, GrantRequest, UpdateConsent,
    UpsertDisplayName,
};

fn pid(s: &str) -> PseudoId {
    PseudoId::new(s).unwrap()
}

#[test]
fn display_name_source_must_be_known() {
    let ok = UpsertDisplayName { display_name: "alice".to_string(), source: "bot".to_string() };
    assert!(ok.check().is_ok());
    let ok2 = UpsertDisplayName { display_name: "alice".to_string(), source: "portal_override".to_string() };
    assert!(ok2.check().is_ok());
    let bad = UpsertDisplayName { display_name: "alice".to_string(), source: "web".to_string() };
    match bad.check() {
        Err(AppError::BadRequest(m)) => {
            assert_eq!(m, "invalid source: web (expected 'bot' or 'portal_override')")
        }
        _ => panic!("expected bad request"),
    }
}

#[test]
fn mute_range_must_not_run_backwards() {
    let ok = CreateMuteRange { start_offset_ms: 1000, end_offset_ms: 2000, reason: Some("redact".to_string()) };
    assert!(ok.check().is_ok());
    let empty = CreateMuteRange { start_offset_ms: 5, end_offset_ms: 5, reason: None };
    assert!(empty.check().is_ok());
    let bad = CreateMuteRange { start_offset_ms: 2000, end_offset_ms: 1000, reason: None };
    match bad.check() {
        Err(AppError::BadRequest(m)) => assert_eq!(m, "end_offset_ms < start_offset_ms"),
        _ => panic!("expected bad request"),
    }
}

#[test]
fn consent_scope_must_be_known() {
    for s in ["full", "decline", "timed_out"] {
        assert!(UpdateConsent { consent_scope: s.to_string(), consented_at: None }.check().is_ok());
    }
    match (UpdateConsent { consent_scope: "maybe".to_string(), consented_at: Some(0) }).check() {
        Err(AppError::BadRequest(m)) => assert_eq!(m, "invalid consent_scope: maybe"),
        _ => panic!("expected bad request"),
    }
}

#[test]
fn batch_columns_follow_input_order() {
    let inputs = vec![
        AddParticipant { pseudo_id: pid("0123456789abcdef01234567"), mid_session_join: false },
        AddParticipant { pseudo_id: pid("ffffffffffffffffffffffff"), mid_session_join: true },
    ];
    let (pseudos, mids) = participant_columns(&inputs);
    assert_eq!(pseudos, vec!["0123456789abcdef01234567".to_string(), "ffffffffffffffffffffffff".to_string()]);
    assert_eq!(mids, vec![false, true]);
}

#[test]
fn grant_checks_secret_and_names_action() {
    assert!(default_true());
    let req = GrantRequest {
        shared_secret: "root".to_string(),
        pseudo_id: pid("0123456789abcdef01234567"),
        is_admin: true,
    };
    assert!(req.authorize("root").is_ok());
    match req.authorize("nope") {
        Err(AppError::Unauthorized(m)) => assert_eq!(m, "invalid shared secret"),
        _ => panic!("expected unauthorized"),
    }
    assert_eq!(req.action(), "granted");
    let revoke = GrantRequest { is_admin: false, ..req };
    assert_eq!(revoke.action(), "revoked");
}
