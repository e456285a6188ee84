//! Request bodies for users, display names, participants, mute ranges and
//! the admin grant, with the checks the service makes on them before
//! anything is written. Timestamps are microseconds since the Unix epoch.

use vstd::prelude::*;

use crate::auth::check_shared_secret;
use crate::error::AppError;
use crate::ids::PseudoId;
use crate::text::str_eq;

verus! {

/// `POST /internal/users`.
pub struct UpsertUser {
    pub pseudo_id: PseudoId,
}

/// A display name seen for a user, and who saw it.
pub struct UpsertDisplayName {
    pub display_name: String,
    pub source: String,
}

/// A muted stretch of one participant's audio, in milliseconds from the
/// start of the session.
pub struct CreateMuteRange {
    pub start_offset_ms: i64,
    pub end_offset_ms: i64,
    pub reason: Option<String>,
}

pub struct AddParticipant {
    pub pseudo_id: PseudoId,
    /// Absent in the body means `false`.
    pub mid_session_join: bool,
}

/// `POST /internal/sessions/{id}/participants/batch`.
pub struct Batch {
    pub participants: Vec<AddParticipant>,
}

pub struct UpdateConsent {
    pub consent_scope: String,
    pub consented_at: Option<i64>,
}

/// Each flag, when present, replaces the stored one.
pub struct UpdateLicense {
    pub no_llm_training: Option<bool>,
    pub no_public_release: Option<bool>,
}

/// `POST /internal/admin/grant`.
pub struct GrantRequest {
    pub shared_secret: String,
    pub pseudo_id: PseudoId,
    /// Absent in the body means `true`.
    pub is_admin: bool,
}

/// `POST /internal/sessions/{id}/resume`.
pub struct ResumeBody {
    pub resumed_by_service_name: String,
    pub reason: Option<String>,
}

pub open spec fn valid_source(s: Seq<char>) -> bool {
    s == "bot"@ || s == "portal_override"@
}

pub open spec fn valid_consent_scope(s: Seq<char>) -> bool {
    s == "full"@ || s == "decline"@ || s == "timed_out"@
}

impl UpsertDisplayName {
    /// Only the bot and a portal override may record a display name.
    pub fn check(&self) -> (r: Result<(), AppError>)
        ensures
            valid_source(self.source@) ==> r is Ok,
            !valid_source(self.source@) ==> (r matches Err(AppError::BadRequest(m)) && m@ == "invalid source: "@
                + self.source@ + " (expected 'bot' or 'portal_override')"@),
    {
        if str_eq(self.source.as_str(), "bot") || str_eq(self.source.as_str(), "portal_override") {
            return Ok(());
        }
        let mut m = "invalid source: ".to_owned();
        m.append(self.source.as_str());
        m.append(" (expected 'bot' or 'portal_override')");
        Err(AppError::BadRequest(m))
    }
}

impl CreateMuteRange {
    /// A range may be empty but must not run backwards.
    pub fn check(&self) -> (r: Result<(), AppError>)
        ensures
            self.start_offset_ms <= self.end_offset_ms ==> r is Ok,
            self.end_offset_ms < self.start_offset_ms ==> (r matches Err(AppError::BadRequest(m)) && m@
                == "end_offset_ms < start_offset_ms"@),
    {
        if self.end_offset_ms < self.start_offset_ms {
            return Err(AppError::BadRequest("end_offset_ms < start_offset_ms".to_owned()));
        }
        Ok(())
    }
}

impl UpdateConsent {
    pub fn check(&self) -> (r: Result<(), AppError>)
        ensures
            valid_consent_scope(self.consent_scope@) ==> r is Ok,
            !valid_consent_scope(self.consent_scope@) ==> (r matches Err(AppError::BadRequest(m)) && m@
                == "invalid consent_scope: "@ + self.consent_scope@),
    {
        let s = self.consent_scope.as_str();
        if str_eq(s, "full") || str_eq(s, "decline") || str_eq(s, "timed_out") {
            return Ok(());
        }
        let mut m = "invalid consent_scope: ".to_owned();
        m.append(s);
        Err(AppError::BadRequest(m))
    }
}

/// The two parallel columns a batch add binds: pseudo ids and join flags,
/// in the batch's order.
pub fn participant_columns(inputs: &Vec<AddParticipant>) -> (r: (Vec<String>, Vec<bool>))
    ensures
        r.0@.len() == inputs@.len(),
        r.1@.len() == inputs@.len(),
        forall|i: int| 0 <= i < inputs@.len() ==> #[trigger] r.0@[i]@ == inputs@[i].pseudo_id@,
        forall|i: int| 0 <= i < inputs@.len() ==> #[trigger] r.1@[i] == inputs@[i].mid_session_join,
{
    let mut pseudos: Vec<String> = Vec::new();
    let mut mids: Vec<bool> = Vec::new();
    let mut i: usize = 0;
    while i < inputs.len()
        invariant
            i <= inputs@.len(),
            pseudos@.len() == i,
            mids@.len() == i,
            forall|j: int| 0 <= j < i ==> #[trigger] pseudos@[j]@ == inputs@[j].pseudo_id@,
            forall|j: int| 0 <= j < i ==> #[trigger] mids@[j] == inputs@[j].mid_session_join,
        decreases inputs@.len() - i,
    {
        pseudos.push(inputs[i].pseudo_id.as_str().to_owned());
        mids.push(inputs[i].mid_session_join);
        i = i + 1;
    }
    (pseudos, mids)
}

/// The value of an absent `is_admin`.
pub fn default_true() -> (r: bool)
    ensures
        r,
{
    true
}

impl GrantRequest {
    /// The grant is authorised by the shared secret alone.
    pub fn authorize(&self, shared_secret: &str) -> (r: Result<(), AppError>)
        ensures
            self.shared_secret@ == shared_secret@ ==> r is Ok,
            self.shared_secret@ != shared_secret@ ==> (r matches Err(AppError::Unauthorized(m)) && m@
                == "invalid shared secret"@),
    {
        check_shared_secret(self.shared_secret.as_str(), shared_secret)
    }

    /// The audit action the grant is recorded under.
    pub fn action(&self) -> (r: &'static str)
        ensures
            self.is_admin ==> r@ == "granted"@,
            !self.is_admin ==> r@ == "revoked"@,
    {
        if self.is_admin {
            "granted"
        } else {
            "revoked"
        }
    }
}

} // verus!
