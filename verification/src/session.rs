//! Logical recording sessions: who may read them, the recorded fragments
//! that make them up, and where their timeline ends.

use vstd::prelude::*;

verus! {

/// A logical recording session the caller may read.
#[derive(Clone, Debug)]
pub struct SessionAccess {
    pub session_id: i64,
    pub guild_id: i64,
    pub user_id: i64,
    pub starting_channel_id: i64,
    pub state: String,
    pub started_at_ms: i64,
    pub ended_at_ms: Option<i64>,
    pub pause_started_at_ms: Option<i64>,
}

/// One recorded file of a session (a fragment of its timeline).
#[derive(Clone, Debug)]
pub struct AudioFragment {
    pub id: i64,
    pub guild_id: i64,
    pub channel_id: i64,
    pub user_id: i64,
    pub recording_session_id: Option<i64>,
    pub file_name: String,
    pub year: i32,
    pub month: i32,
    pub start_ms: i64,
    pub end_ms: Option<i64>,
    pub segment_index: Option<i32>,
    pub live: bool,
}

/// A silent stretch of a session, with why it is silent.
#[derive(Clone, Debug)]
pub struct Gap {
    pub start_ms: i64,
    pub end_ms: i64,
    pub reason: String,
    pub from_channel_id: Option<i64>,
    pub to_channel_id: Option<i64>,
}

/// Where the timeline of a session ends when the clock reads `now_ms`: a
/// finalized session at its end, a pending one where it was paused, and an
/// active one now. A missing timestamp falls back to the start.
pub open spec fn timeline_end_spec(
    state: Seq<char>,
    started_at_ms: i64,
    ended_at_ms: Option<i64>,
    pause_started_at_ms: Option<i64>,
    now_ms: i64,
) -> i64 {
    if state == "finalized"@ {
        match ended_at_ms {
            Some(e) => e,
            None => started_at_ms,
        }
    } else if state == "pending"@ {
        match pause_started_at_ms {
            Some(p) => p,
            None => started_at_ms,
        }
    } else {
        now_ms
    }
}

pub open spec fn access_timeline_end(access: SessionAccess, now_ms: i64) -> i64 {
    timeline_end_spec(
        access.state@,
        access.started_at_ms,
        access.ended_at_ms,
        access.pause_started_at_ms,
        now_ms,
    )
}

/// Milliseconds since the Unix epoch from `chrono::Utc::now()`. The value
/// depends on the clock alone, so nothing is stated of it; chrono panics
/// when the system clock reads a time before the epoch.
#[verifier::external_body]
pub(crate) fn now_millis() -> i64 {
    chrono::Utc::now().timestamp_millis()
}

/// Where the timeline of `access` ends, the clock reading `now_ms`.
pub fn timeline_end_ms_at(access: &SessionAccess, now_ms: i64) -> (end: i64)
    ensures
        end == access_timeline_end(*access, now_ms),
{
    let state = crate::text::chars_of(access.state.as_str());
    let finalized = crate::text::chars_of("finalized");
    let pending = crate::text::chars_of("pending");
    if crate::text::chars_equal(&state, &finalized) {
        match access.ended_at_ms {
            Some(e) => e,
            None => access.started_at_ms,
        }
    } else if crate::text::chars_equal(&state, &pending) {
        match access.pause_started_at_ms {
            Some(p) => p,
            None => access.started_at_ms,
        }
    } else {
        now_ms
    }
}

/// Where the timeline of `access` ends now.
pub fn timeline_end_ms(access: &SessionAccess) -> (end: i64)
    ensures
        exists|now: i64| end == access_timeline_end(*access, now),
{
    let now = now_millis();
    timeline_end_ms_at(access, now)
}

} // verus!
