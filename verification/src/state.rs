//! Session state machine.
//!
//! ```text
//! recording ──finalize──> uploaded ──claim──> transcribing ──> transcribed
//!    │                                            │
//!    │                                            └── error ──> transcribing_failed ──retry──> transcribing
//!    │
//!    └── catastrophic / manual discard ──> abandoned
//!                                             │
//!                                             └── resume (within RESUME_TTL) ──> recording
//! ```
//!
//! `deleted` is a terminal tombstone reachable from any state (via the
//! delete cascade) and accepts no further transitions. The transition table
//! is authoritative: a proposed illegal transition is answered with 409.

use vstd::prelude::*;

use crate::text::str_eq;

verus! {

#[derive(Debug, Clone, Copy, PartialEq, Eq, Hash, Structural)]
pub enum SessionStatus {
    Recording,
    Uploaded,
    Transcribing,
    TranscribingFailed,
    Transcribed,
    Abandoned,
    Deleted,
}

/// The wire name of a status.
pub open spec fn status_name(s: SessionStatus) -> Seq<char> {
    match s {
        SessionStatus::Recording => "recording"@,
        SessionStatus::Uploaded => "uploaded"@,
        SessionStatus::Transcribing => "transcribing"@,
        SessionStatus::TranscribingFailed => "transcribing_failed"@,
        SessionStatus::Transcribed => "transcribed"@,
        SessionStatus::Abandoned => "abandoned"@,
        SessionStatus::Deleted => "deleted"@,
    }
}

/// The status whose wire name is `s`, if any.
pub open spec fn status_from_name(s: Seq<char>) -> Option<SessionStatus> {
    if s == "recording"@ {
        Some(SessionStatus::Recording)
    } else if s == "uploaded"@ {
        Some(SessionStatus::Uploaded)
    } else if s == "transcribing"@ {
        Some(SessionStatus::Transcribing)
    } else if s == "transcribing_failed"@ {
        Some(SessionStatus::TranscribingFailed)
    } else if s == "transcribed"@ {
        Some(SessionStatus::Transcribed)
    } else if s == "abandoned"@ {
        Some(SessionStatus::Abandoned)
    } else if s == "deleted"@ {
        Some(SessionStatus::Deleted)
    } else {
        None
    }
}

/// The legal transitions. `abandoned → recording` is not among them: it is
/// only reachable through the resume endpoint, which enforces a TTL.
pub open spec fn transition_allowed(from: SessionStatus, to: SessionStatus) -> bool {
    match from {
        SessionStatus::Recording => to == SessionStatus::Uploaded || to == SessionStatus::Abandoned
            || to == SessionStatus::Deleted,
        SessionStatus::Uploaded => to == SessionStatus::Transcribing || to == SessionStatus::Abandoned
            || to == SessionStatus::Deleted,
        SessionStatus::Transcribing => to == SessionStatus::Transcribing || to
            == SessionStatus::Transcribed || to == SessionStatus::TranscribingFailed || to
            == SessionStatus::Deleted,
        SessionStatus::TranscribingFailed => to == SessionStatus::Transcribing || to
            == SessionStatus::Deleted,
        SessionStatus::Transcribed => to == SessionStatus::Deleted,
        SessionStatus::Abandoned => to == SessionStatus::Deleted,
        SessionStatus::Deleted => false,
    }
}

impl SessionStatus {
    pub fn as_str(self) -> (r: &'static str)
        ensures
            r@ == status_name(self),
    {
        match self {
            SessionStatus::Recording => "recording",
            SessionStatus::Uploaded => "uploaded",
            SessionStatus::Transcribing => "transcribing",
            SessionStatus::TranscribingFailed => "transcribing_failed",
            SessionStatus::Transcribed => "transcribed",
            SessionStatus::Abandoned => "abandoned",
            SessionStatus::Deleted => "deleted",
        }
    }

    /// Parses a wire name; anything else is an [`UnknownStatus`] carrying
    /// the input.
    pub fn parse(s: &str) -> (r: Result<SessionStatus, UnknownStatus>)
        ensures
            match r {
                Ok(st) => status_from_name(s@) == Some(st),
                Err(e) => status_from_name(s@) is None && e.0@ == s@,
            },
    {
        if str_eq(s, "recording") {
            Ok(SessionStatus::Recording)
        } else if str_eq(s, "uploaded") {
            Ok(SessionStatus::Uploaded)
        } else if str_eq(s, "transcribing") {
            Ok(SessionStatus::Transcribing)
        } else if str_eq(s, "transcribing_failed") {
            Ok(SessionStatus::TranscribingFailed)
        } else if str_eq(s, "transcribed") {
            Ok(SessionStatus::Transcribed)
        } else if str_eq(s, "abandoned") {
            Ok(SessionStatus::Abandoned)
        } else if str_eq(s, "deleted") {
            Ok(SessionStatus::Deleted)
        } else {
            Err(UnknownStatus(s.to_owned()))
        }
    }
}

impl core::str::FromStr for SessionStatus {
    type Err = UnknownStatus;

    fn from_str(s: &str) -> (r: Result<Self, Self::Err>)
        ensures
            match r {
                Ok(st) => status_from_name(s@) == Some(st),
                Err(e) => status_from_name(s@) is None && e.0@ == s@,
            },
    {
        SessionStatus::parse(s)
    }
}

/// A status name that is not one of the seven states.
#[derive(Debug)]
pub struct UnknownStatus(pub String);

/// Is `to` a legal transition from `from`?
pub fn can_transition(from: SessionStatus, to: SessionStatus) -> (r: bool)
    ensures
        r == transition_allowed(from, to),
{
    match from {
        SessionStatus::Recording => matches!(
            to,
            SessionStatus::Uploaded | SessionStatus::Abandoned | SessionStatus::Deleted
        ),
        SessionStatus::Uploaded => matches!(
            to,
            SessionStatus::Transcribing | SessionStatus::Abandoned | SessionStatus::Deleted
        ),
        // Self-transition covers the worker-orphan re-claim case.
        SessionStatus::Transcribing => matches!(
            to,
            SessionStatus::Transcribing | SessionStatus::Transcribed
                | SessionStatus::TranscribingFailed | SessionStatus::Deleted
        ),
        SessionStatus::TranscribingFailed => matches!(
            to,
            SessionStatus::Transcribing | SessionStatus::Deleted
        ),
        SessionStatus::Transcribed => matches!(to, SessionStatus::Deleted),
        SessionStatus::Abandoned => matches!(to, SessionStatus::Deleted),
        SessionStatus::Deleted => false,
    }
}

/// Distinct states have distinct wire names.
pub proof fn lemma_status_names_distinct(a: SessionStatus, b: SessionStatus)
    ensures
        status_name(a) == status_name(b) ==> a == b,
{
    reveal_strlit("recording");
    reveal_strlit("uploaded");
    reveal_strlit("transcribing");
    reveal_strlit("transcribing_failed");
    reveal_strlit("transcribed");
    reveal_strlit("abandoned");
    reveal_strlit("deleted");
    if status_name(a) == status_name(b) && a != b {
        // Two different names differ in length or in some character.
        match a {
            SessionStatus::Recording => { assert(status_name(a)[0] == 'r'); },
            SessionStatus::Uploaded => { assert(status_name(a)[0] == 'u'); },
            SessionStatus::Transcribing => {
                assert(status_name(a).len() == 12);
                assert(status_name(b) =~= status_name(a));
            },
            SessionStatus::TranscribingFailed => { assert(status_name(a).len() == 19); },
            SessionStatus::Transcribed => {
                assert(status_name(a).len() == 11);
                assert(status_name(a)[10] == 'd');
            },
            SessionStatus::Abandoned => { assert(status_name(a)[0] == 'a'); },
            SessionStatus::Deleted => { assert(status_name(a)[0] == 'd'); },
        }
    }
}

/// Parsing a status's wire name gives the status back.
pub proof fn lemma_parse_name_roundtrip(st: SessionStatus)
    ensures
        status_from_name(status_name(st)) == Some(st),
{
    reveal_strlit("recording");
    reveal_strlit("uploaded");
    reveal_strlit("transcribing");
    reveal_strlit("transcribing_failed");
    reveal_strlit("transcribed");
    reveal_strlit("abandoned");
    reveal_strlit("deleted");
    let r = status_from_name(status_name(st));
    assert(r is Some);
    lemma_status_names_distinct(r->0, st);
}

/// A name parses to a status exactly when it is that status's wire name.
pub proof fn lemma_parse_inverts_name(s: Seq<char>, st: SessionStatus)
    ensures
        status_from_name(s) == Some(st) <==> status_name(st) == s,
{
    lemma_parse_name_roundtrip(st);
}

/// `deleted` is terminal: no transition leaves it.
pub proof fn lemma_deleted_is_terminal(to: SessionStatus)
    ensures
        !transition_allowed(SessionStatus::Deleted, to),
{
}

/// Every state other than `deleted` can move to `deleted`.
pub proof fn lemma_every_state_reaches_deleted(from: SessionStatus)
    requires
        from != SessionStatus::Deleted,
    ensures
        transition_allowed(from, SessionStatus::Deleted),
{
}

/// The only self-transition is `transcribing → transcribing`.
pub proof fn lemma_only_transcribing_self_loops(s: SessionStatus)
    ensures
        transition_allowed(s, s) <==> s == SessionStatus::Transcribing,
{
}

/// `abandoned` can only be left by deletion through the transition table;
/// returning to `recording` goes through resume.
pub proof fn lemma_abandoned_only_to_deleted(to: SessionStatus)
    ensures
        transition_allowed(SessionStatus::Abandoned, to) <==> to == SessionStatus::Deleted,
{
}

/// No transition in the table leads back to `recording`.
pub proof fn lemma_recording_not_reentered(from: SessionStatus)
    ensures
        !transition_allowed(from, SessionStatus::Recording),
{
}

} // verus!
