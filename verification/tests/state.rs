use chronicle_data_api::state::{can_transition, SessionStatus};
use chronicle_data_api::state::SessionStatus::{Abandoned, Deleted, Recording, Transcribed, Transcribing, TranscribingFailed, Uploaded};

fn all() -> Vec<SessionStatus> {
    vec![
        Recording,
        Uploaded,
        Transcribing,
        TranscribingFailed,
        Transcribed,
        Abandoned,
        Deleted,
    ]
}

#[test]
fn happy_path_transitions() {
    assert!(can_transition(Recording, Uploaded));
    assert!(can_transition(Uploaded, Transcribing));
    assert!(can_transition(Transcribing, Transcribed));
}

#[test]
fn transcribing_self_transition_allowed() {
    assert!(can_transition(Transcribing, Transcribing));
}

#[test]
fn error_retry_loop() {
    assert!(can_transition(Transcribing, TranscribingFailed));
    assert!(can_transition(TranscribingFailed, Transcribing));
}

#[test]
fn abandoned_is_pathological_via_patch() {
    // Resume uses its own POST endpoint, not PATCH.
    assert!(!can_transition(Abandoned, Recording));
}

#[test]
fn deleted_is_terminal() {
    for target in all() {
        assert!(!can_transition(Deleted, target), "{} from Deleted", target.as_str());
    }
}

#[test]
fn no_self_transition_except_transcribing() {
    for s in all() {
        if s == Transcribing {
            continue;
        }
        assert!(!can_transition(s, s), "{} → {} must be illegal", s.as_str(), s.as_str());
    }
}

#[test]
fn every_state_reaches_deleted() {
    for s in all() {
        if s == Deleted {
            continue;
        }
        assert!(can_transition(s, Deleted), "{} → Deleted", s.as_str());
    }
}

#[test]
fn status_names_round_trip() {
    for s in all() {
        assert_eq!(SessionStatus::parse(s.as_str()).unwrap(), s);
        assert_eq!(s.as_str().parse::<SessionStatus>().unwrap(), s);
    }
    assert_eq!(SessionStatus::TranscribingFailed.as_str(), "transcribing_failed");
    let err = SessionStatus::parse("finished").unwrap_err();
    assert_eq!(err.0, "finished");
    assert!(SessionStatus::parse("Recording").is_err());
}

#[test]
fn full_transition_table() {
    let allowed = [
        (Recording, Uploaded), (Recording, Abandoned), (Recording, Deleted),
        (Uploaded, Transcribing), (Uploaded, Abandoned), (Uploaded, Deleted),
        (Transcribing, Transcribing), (Transcribing, Transcribed),
        (Transcribing, TranscribingFailed), (Transcribing, Deleted),
        (TranscribingFailed, Transcribing), (TranscribingFailed, Deleted),
        (Transcribed, Deleted), (Abandoned, Deleted),
    ];
    for from in all() {
        for to in all() {
            assert_eq!(can_transition(from, to), allowed.contains(&(from, to)));
        }
    }
}
