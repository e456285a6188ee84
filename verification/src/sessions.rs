//! Session lifecycle decisions: listing filters, status changes proposed by
//! a PATCH, and the time-limited resume of an abandoned session.
//!
//! Timestamps are microseconds since the Unix epoch.

use vstd::prelude::*;

use crate::error::AppError;
use crate::state::{can_transition, status_name, transition_allowed, SessionStatus};
use crate::text::push_decimal;

verus! {

/// Query of `GET /internal/sessions`.
pub struct ListFilter {
    pub status: Option<String>,
    pub guild_id: Option<i64>,
    pub limit: Option<i64>,
    pub offset: Option<i64>,
}

/// Licence restrictions of a session: each set when any participant asked
/// for it.
#[derive(Debug, Clone, Copy, PartialEq, Eq, Structural)]
pub struct LicenseFlags {
    pub no_llm_training: bool,
    pub no_public_release: bool,
}

impl ListFilter {
    /// The status to filter on, if any; an unknown name is a bad request.
    pub fn status_filter(&self) -> (r: Result<Option<SessionStatus>, AppError>)
        ensures
            self.status is None ==> r == Ok::<Option<SessionStatus>, AppError>(None),
            self.status matches Some(s) ==> (crate::state::status_from_name(s@) matches Some(st) ==> r
                == Ok::<Option<SessionStatus>, AppError>(Some(st))),
            self.status matches Some(s) ==> (crate::state::status_from_name(s@) is None ==> (r matches Err(
                AppError::BadRequest(m),
            ) && m@ == "unknown status: "@ + s@)),
    {
        match &self.status {
            None => Ok(None),
            Some(s) => match SessionStatus::parse(s.as_str()) {
                Ok(st) => Ok(Some(st)),
                Err(e) => Err(AppError::from_unknown_status(e)),
            },
        }
    }
}

/// What a PATCH with a proposed status does: the status to write, if any,
/// and the change to announce, if the status really changes.
pub struct StatusPlan {
    pub write: Option<SessionStatus>,
    pub announce: Option<(SessionStatus, SessionStatus)>,
}

/// Plans the status half of `PATCH /internal/sessions/{id}`. An illegal
/// transition is a conflict naming both states; a legal one is written, and
/// announced only when the status differs.
pub fn plan_status_change(current: SessionStatus, requested: Option<SessionStatus>) -> (r: Result<
    StatusPlan,
    AppError,
>)
    ensures
        requested is None ==> (r matches Ok(p) && p.write is None && p.announce is None),
        requested matches Some(n) ==> (!transition_allowed(current, n) ==> (r matches Err(
            AppError::IllegalTransition { from, to },
        ) && from@ == status_name(current) && to@ == status_name(n))),
        requested matches Some(n) ==> (transition_allowed(current, n) ==> (r matches Ok(p) && p.write == Some(n)
            && (if current != n {
            p.announce == Some((current, n))
        } else {
            p.announce is None
        }))),
{
    match requested {
        None => Ok(StatusPlan { write: None, announce: None }),
        Some(n) => {
            if !can_transition(current, n) {
                return Err(
                    AppError::IllegalTransition {
                        from: current.as_str().to_owned(),
                        to: n.as_str().to_owned(),
                    },
                );
            }
            let announce = if current != n {
                Some((current, n))
            } else {
                None
            };
            Ok(StatusPlan { write: Some(n), announce })
        },
    }
}

/// The delete cascade moves a session to the `deleted` tombstone, which
/// every other state may reach; a session already deleted accepts no
/// further transition, so deleting it again is the same conflict as any
/// illegal transition.
pub fn check_delete(current: SessionStatus) -> (r: Result<(), AppError>)
    ensures
        transition_allowed(current, SessionStatus::Deleted) ==> r is Ok,
        !transition_allowed(current, SessionStatus::Deleted) ==> (r matches Err(AppError::IllegalTransition { from, to })
            && from@ == status_name(current) && to@ == status_name(SessionStatus::Deleted)),
        r is Ok <==> current != SessionStatus::Deleted,
{
    if !can_transition(current, SessionStatus::Deleted) {
        return Err(
            AppError::IllegalTransition {
                from: current.as_str().to_owned(),
                to: SessionStatus::Deleted.as_str().to_owned(),
            },
        );
    }
    Ok(())
}

/// The counter bumped when a session enters `status`.
pub fn state_counter_name(status: SessionStatus) -> (r: String)
    ensures
        r@ == "chronicle_session_state_"@ + status_name(status) + "_total"@,
{
    let mut m = "chronicle_session_state_".to_owned();
    m.append(status.as_str());
    m.append("_total");
    m
}

/// Whole seconds from `anchor` to `now`, or 0 when `now` is not after it.
pub open spec fn elapsed_secs(anchor_us: i64, now_us: i64) -> int {
    if now_us <= anchor_us {
        0
    } else {
        (now_us - anchor_us) / 1_000_000
    }
}

pub open spec fn resume_expired_message(age: int, ttl_secs: u64) -> Seq<char> {
    "resume window expired: abandoned "@ + crate::text::decimal(age as nat) + "s ago, limit "@ + crate::text::decimal(ttl_secs as nat)
        + "s"@
}

/// Time only closes the resume window: the age measured from the same
/// anchor never decreases as the clock advances.
pub proof fn lemma_resume_window_only_closes(anchor_us: i64, now1_us: i64, now2_us: i64)
    requires
        now1_us <= now2_us,
    ensures
        elapsed_secs(anchor_us, now1_us) <= elapsed_secs(anchor_us, now2_us),
{
    if now1_us > anchor_us {
        let d1 = now1_us - anchor_us;
        let d2 = now2_us - anchor_us;
        assert(d1 / 1_000_000 <= d2 / 1_000_000) by (nonlinear_arith)
            requires
                0 < d1 <= d2,
        ;
    }
}

/// The age is the true number of whole seconds elapsed, however large:
/// after the anchor, `age` full seconds have passed and `age + 1` have not.
pub proof fn lemma_elapsed_is_whole_seconds(anchor_us: i64, now_us: i64)
    ensures
        now_us <= anchor_us ==> elapsed_secs(anchor_us, now_us) == 0,
        now_us > anchor_us ==> elapsed_secs(anchor_us, now_us) * 1_000_000 <= now_us - anchor_us
            < (elapsed_secs(anchor_us, now_us) + 1) * 1_000_000,
{
    if now_us > anchor_us {
        let d = now_us - anchor_us;
        let q = d / 1_000_000;
        assert(q * 1_000_000 <= d < (q + 1) * 1_000_000) by (nonlinear_arith)
            requires
                d > 0,
                q == d / 1_000_000,
        ;
    }
}

/// Whether more than `ttl_secs` whole seconds separate `anchor_us` from
/// `now_us`: `ttl_secs + 1` full seconds have passed.
pub open spec fn window_expired(anchor_us: i64, now_us: i64, ttl_secs: u64) -> bool {
    now_us - anchor_us >= (ttl_secs + 1) * 1_000_000
}

/// The window closes exactly when `ttl_secs + 1` full seconds have passed
/// since the anchor.
pub proof fn lemma_age_exceeds_ttl(anchor_us: i64, now_us: i64, ttl_secs: u64)
    ensures
        (elapsed_secs(anchor_us, now_us) > ttl_secs) == window_expired(anchor_us, now_us, ttl_secs),
{
    lemma_elapsed_is_whole_seconds(anchor_us, now_us);
    let age = elapsed_secs(anchor_us, now_us);
    let d = now_us - anchor_us;
    let t = ttl_secs as int;
    if now_us > anchor_us {
        if age > t {
            assert(d >= (t + 1) * 1_000_000) by (nonlinear_arith)
                requires
                    age >= t + 1,
                    age * 1_000_000 <= d,
            ;
        } else {
            assert(d < (t + 1) * 1_000_000) by (nonlinear_arith)
                requires
                    age <= t,
                    d < (age + 1) * 1_000_000,
            ;
        }
    } else {
        assert((t + 1) * 1_000_000 > 0) by (nonlinear_arith)
            requires
                t >= 0,
        ;
    }
}

/// The condition on `abandoned → recording`: only an abandoned session may
/// resume, and only within `ttl_secs` whole seconds of being abandoned
/// (measured from `started_at` when no abandonment time was stamped).
pub fn check_resume(
    status: SessionStatus,
    abandoned_at_us: Option<i64>,
    started_at_us: i64,
    now_us: i64,
    ttl_secs: u64,
) -> (r: Result<(), AppError>)
    ensures
        status != SessionStatus::Abandoned ==> (r matches Err(AppError::IllegalTransition { from, to }) && from@
            == status_name(status) && to@ == "recording"@),
        ({
            let anchor = match abandoned_at_us {
                Some(a) => a,
                None => started_at_us,
            };
            let age = elapsed_secs(anchor, now_us);
            &&& status == SessionStatus::Abandoned && age > ttl_secs ==> (r matches Err(AppError::Gone(m)) && m@
                == resume_expired_message(age, ttl_secs))
            &&& status == SessionStatus::Abandoned && age <= ttl_secs ==> r is Ok
            &&& status == SessionStatus::Abandoned && window_expired(anchor, now_us, ttl_secs) ==> (r matches Err(
                AppError::Gone(_),
            ))
            &&& status == SessionStatus::Abandoned && !window_expired(anchor, now_us, ttl_secs) ==> r is Ok
        }),
{
    proof {
        let anchor = match abandoned_at_us {
            Some(a) => a,
            None => started_at_us,
        };
        lemma_age_exceeds_ttl(anchor, now_us, ttl_secs);
    }
    if status != SessionStatus::Abandoned {
        return Err(
            AppError::IllegalTransition {
                from: status.as_str().to_owned(),
                to: SessionStatus::Recording.as_str().to_owned(),
            },
        );
    }
    let anchor = match abandoned_at_us {
        Some(a) => a,
        None => started_at_us,
    };
    let age: u64 = if now_us <= anchor {
        0
    } else {
        let d: i128 = (now_us as i128) - (anchor as i128);
        let q: i128 = d / 1_000_000;
        assert(q < 0x1_0000_0000_0000_0000) by (nonlinear_arith)
            requires
                0 < d < 0x1_0000_0000_0000_0000,
                q == d / 1_000_000,
        ;
        q as u64
    };
    if age > ttl_secs {
        let mut m = "resume window expired: abandoned ".to_owned();
        push_decimal(&mut m, age);
        m.append("s ago, limit ");
        push_decimal(&mut m, ttl_secs);
        m.append("s");
        return Err(AppError::Gone(m));
    }
    Ok(())
}

} // verus!
