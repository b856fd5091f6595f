use web_server::session::{timeline_end_ms, timeline_end_ms_at, SessionAccess};
use web_server::voice_settings::{
    effective_voice_settings, validate_voice_settings, GuildVoiceSettingsBody, DEFAULT_PENDING_CAP_SECONDS,
    MIN_PENDING_CAP_SECONDS,
};

fn access(state: &str) -> SessionAccess {
    SessionAccess {
        session_id: 1,
        guild_id: 2,
        user_id: 3,
        starting_channel_id: 4,
        state: state.to_string(),
        started_at_ms: 1_000,
        ended_at_ms: Some(9_000),
        pause_started_at_ms: Some(5_000),
    }
}

#[test]
fn tests_pending_timeline_stops_at_original_pause() {
    assert_eq!(timeline_end_ms(&access("pending")), 5_000);
    assert_eq!(timeline_end_ms(&access("finalized")), 9_000);
}

#[test]
fn sessions_pending_timeline_stops_at_original_pause() {
    assert_eq!(timeline_end_ms(&access("pending")), 5_000);
    assert_eq!(timeline_end_ms(&access("finalized")), 9_000);
}

#[test]
fn active_timeline_runs_to_now() {
    assert_eq!(timeline_end_ms_at(&access("active"), 12_345), 12_345);
    let mut started_only = access("pending");
    started_only.pause_started_at_ms = None;
    assert_eq!(timeline_end_ms_at(&started_only, 12_345), 1_000);
}

#[test]
fn defaults_and_minimum_match_recording_policy() {
    assert_eq!(DEFAULT_PENDING_CAP_SECONDS, 21_600);
    assert_eq!(MIN_PENDING_CAP_SECONDS, 60);
}

#[test]
fn voice_settings_fall_back_to_the_default_cap() {
    let s = effective_voice_settings(None);
    assert_eq!(s.pending_cap_seconds, 21_600);
    assert!(s.is_default);
    let s = effective_voice_settings(Some(120));
    assert_eq!(s.pending_cap_seconds, 120);
    assert!(!s.is_default);
}

#[test]
fn voice_settings_refuse_caps_under_a_minute() {
    let e = validate_voice_settings(GuildVoiceSettingsBody { pending_cap_seconds: 59 }).unwrap_err();
    assert_eq!(e.message(), "Bad Request: pending_cap_seconds must be at least 60");
    let s = validate_voice_settings(GuildVoiceSettingsBody { pending_cap_seconds: 60 }).unwrap();
    assert_eq!(s.pending_cap_seconds, 60);
    assert!(!s.is_default);
}
