use chronicle_data_api::error::AppError;
use chronicle_data_api::sessions::{check_delete, check_resume, plan_status_change, state_counter_name, ListFilter};
use chronicle_data_api::state::SessionStatus;

const SEC: i64 = 1_000_000;

#[test]
fn list_filter_parses_status() {
    let f = ListFilter { status: Some("uploaded".to_string()), guild_id: None, limit: None, offset: None };
    assert_eq!(f.status_filter().unwrap(), Some(SessionStatus::Uploaded));
    let none = ListFilter { status: None, guild_id: Some(1), limit: Some(5), offset: Some(0) };
    assert_eq!(none.status_filter().unwrap(), None);
    let bad = ListFilter { status: Some("paused".to_string()), guild_id: None, limit: None, offset: None };
    match bad.status_filter() {
        Err(AppError::BadRequest(m)) => assert_eq!(m, "unknown status: paused"),
        _ => panic!("expected bad request"),
    }
}

#[test]
fn legal_change_is_written_and_announced() {
    let p = plan_status_change(SessionStatus::Recording, Some(SessionStatus::Uploaded)).unwrap();
    assert_eq!(p.write, Some(SessionStatus::Uploaded));
    assert_eq!(p.announce, Some((SessionStatus::Recording, SessionStatus::Uploaded)));
}

#[test]
fn transcribing_reclaim_is_written_but_not_announced() {
    let p = plan_status_change(SessionStatus::Transcribing, Some(SessionStatus::Transcribing)).unwrap();
    assert_eq!(p.write, Some(SessionStatus::Transcribing));
    assert_eq!(p.announce, None);
    let none = plan_status_change(SessionStatus::Recording, None).unwrap();
    assert_eq!(none.write, None);
    assert_eq!(none.announce, None);
}

#[test]
fn illegal_change_is_a_conflict() {
    match plan_status_change(SessionStatus::Transcribed, Some(SessionStatus::Uploaded)) {
        Err(AppError::IllegalTransition { from, to }) => {
            assert_eq!(from, "transcribed");
            assert_eq!(to, "uploaded");
        }
        _ => panic!("expected illegal transition"),
    }
}

#[test]
fn counter_name_for_state() {
    assert_eq!(state_counter_name(SessionStatus::TranscribingFailed), "chronicle_session_state_transcribing_failed_total");
}

#[test]
fn resume_within_window() {
    assert!(check_resume(SessionStatus::Abandoned, Some(100 * SEC), 0, 150 * SEC, 86_400).is_ok());
    // exactly at the limit is still allowed
    assert!(check_resume(SessionStatus::Abandoned, Some(0), 0, 60 * SEC + 999_999, 60).is_ok());
    // a clock that runs behind counts as zero
    assert!(check_resume(SessionStatus::Abandoned, Some(500 * SEC), 0, 100 * SEC, 0).is_ok());
}

#[test]
fn resume_after_window_is_gone() {
    match check_resume(SessionStatus::Abandoned, Some(0), 0, 61 * SEC, 60) {
        Err(AppError::Gone(m)) => assert_eq!(m, "resume window expired: abandoned 61s ago, limit 60s"),
        _ => panic!("expected gone"),
    }
    // no abandonment stamp: measured from the start
    match check_resume(SessionStatus::Abandoned, None, 10 * SEC, 200 * SEC, 100) {
        Err(AppError::Gone(m)) => assert_eq!(m, "resume window expired: abandoned 190s ago, limit 100s"),
        _ => panic!("expected gone"),
    }
}

#[test]
fn resume_of_live_session_is_conflict() {
    match check_resume(SessionStatus::Uploaded, None, 0, 0, 60) {
        Err(AppError::IllegalTransition { from, to }) => {
            assert_eq!(from, "uploaded");
            assert_eq!(to, "recording");
        }
        _ => panic!("expected illegal transition"),
    }
}

#[test]
fn an_expired_window_stays_expired() {
    let ttl = 30;
    let mut was_expired = false;
    for t in 0..120 {
        let expired = check_resume(SessionStatus::Abandoned, Some(0), 0, t * SEC, ttl).is_err();
        assert!(!was_expired || expired);
        was_expired = expired;
    }
    assert!(was_expired);
}

#[test]
fn delete_is_allowed_once() {
    for s in [
        SessionStatus::Recording,
        SessionStatus::Uploaded,
        SessionStatus::Transcribing,
        SessionStatus::TranscribingFailed,
        SessionStatus::Transcribed,
        SessionStatus::Abandoned,
    ] {
        assert!(check_delete(s).is_ok());
    }
    match check_delete(SessionStatus::Deleted) {
        Err(AppError::IllegalTransition { from, to }) => {
            assert_eq!(from, "deleted");
            assert_eq!(to, "deleted");
        }
        _ => panic!("a deleted session cannot be deleted again"),
    }
}
