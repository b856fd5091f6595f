use web_server::mix::{
    add_fragment_sources, build_tracks, source_segment, ChannelMixParticipant, ChannelMixTrack, MixSource, MixWindow,
};
use web_server::mix_plan::{
    anchor_wait_reason, authorization_targets, canonical_generation_settings, default_generation_settings,
    generate_action, mix_candidates, mix_contributors, mix_fingerprint, mix_participant_users, mix_source_fingerprint,
    mix_status, mix_timeline, participant_entries, AuthTarget, CandidateRow, ChannelMixGenerationSettings,
    ChannelMixParticipantSettings, ChannelMixQuery, ChannelMixScope, ChannelMixStatus, GenerateAction,
    MixCacheMetadata, MixJobView, MixPlan, channel_mix_response, mix_cache_key, mix_response, trusted_cache_metadata,
};
use web_server::errors::AppError;
use web_server::session::{AudioFragment, SessionAccess};

fn session_access(state: &str) -> SessionAccess {
    SessionAccess {
        session_id: 1,
        guild_id: 2,
        user_id: 3,
        starting_channel_id: 4,
        state: state.into(),
        started_at_ms: 1_000,
        ended_at_ms: Some(9_000),
        pause_started_at_ms: Some(5_000),
    }
}

fn track(user_id: &str, name: &str, is_anchor: bool) -> ChannelMixTrack {
    ChannelMixTrack { user_id: user_id.into(), display_name: Some(name.into()), is_anchor, segments: Vec::new() }
}

fn settings_tracks() -> Vec<ChannelMixTrack> {
    vec![track("3", "Anchor", true), track("7", "Contributor", false)]
}

fn setting(user_id: &str, gain_db: f32, muted: bool) -> ChannelMixParticipantSettings<f32> {
    ChannelMixParticipantSettings { user_id: user_id.into(), gain_db, muted }
}

/// The float test the server makes before asking for canonical settings.
fn gain_ok(requested: &[ChannelMixParticipantSettings<f32>]) -> Vec<bool> {
    requested.iter().map(|p| p.gain_db.is_finite() && (-60.0..=12.0).contains(&p.gain_db)).collect()
}

fn canonical(requested: Vec<ChannelMixParticipantSettings<f32>>) -> Result<ChannelMixGenerationSettings<f32>, AppError> {
    let ok = gain_ok(&requested);
    canonical_generation_settings(&settings_tracks(), &requested, &ok, 0.0)
}

fn fragment(id: i64, user_id: i64, session: Option<i64>, channel_id: i64, start_ms: i64, end_ms: Option<i64>) -> AudioFragment {
    AudioFragment {
        id,
        guild_id: 1,
        channel_id,
        user_id,
        recording_session_id: session,
        file_name: format!("{start_ms}-{user_id}"),
        year: 2026,
        month: 8,
        start_ms,
        end_ms,
        segment_index: Some(0),
        live: false,
    }
}

#[test]
fn anchor_wait_reason_distinguishes_active_and_pending_sessions() {
    assert!(anchor_wait_reason(&session_access("finalized")).is_none());
    assert_eq!(anchor_wait_reason(&session_access("active")).expect("active reason").code, "active_anchor");
    assert_eq!(
        anchor_wait_reason(&session_access("pending")).expect("pending reason").message,
        "The anchor recording is paused and awaiting finalization."
    );
    assert_eq!(anchor_wait_reason(&session_access("stopping")).expect("other reason").code, "unfinalized_anchor");
}

#[test]
fn generation_settings_default_missing_participants_and_normalize_ids() {
    let settings = canonical(vec![setting("07", 3.5, true)]).expect("valid settings");
    let got: Vec<(String, f32, bool)> =
        settings.participants.iter().map(|p| (p.user_id.clone(), p.gain_db, p.muted)).collect();
    assert_eq!(got, vec![("3".to_string(), 0.0, false), ("7".to_string(), 3.5, true)]);
    assert!(settings.source_fingerprint.is_none());
}

#[test]
fn generation_settings_reject_duplicate_unknown_invalid_and_all_muted() {
    let duplicate = canonical(vec![setting("3", 0.0, false), setting("03", 0.0, false)]);
    assert!(matches!(duplicate, Err(AppError::BadRequest(message)) if message.contains("Duplicate")));
    let unknown = canonical(vec![setting("99", 0.0, false)]);
    assert!(matches!(unknown, Err(AppError::BadRequest(message)) if message.contains("Unknown")));
    let invalid = canonical(vec![setting("3", 12.1, false)]);
    assert!(matches!(invalid, Err(AppError::BadRequest(message)) if message.contains("between")));
    let all_muted = canonical(vec![setting("3", 0.0, true), setting("7", 0.0, true)]);
    assert!(matches!(all_muted, Err(AppError::BadRequest(message)) if message.contains("unmuted")));
}

#[test]
fn generation_settings_name_the_offending_participant() {
    let unknown = canonical(vec![setting("abc", 0.0, false)]);
    assert!(matches!(unknown, Err(AppError::BadRequest(m)) if m == "Unknown channel mix participant abc"));
    let invalid = canonical(vec![setting("7", f32::NAN, false)]);
    assert!(
        matches!(invalid, Err(AppError::BadRequest(m)) if m == "Channel mix gain for 7 must be between -60 dB and +12 dB")
    );
}

#[test]
fn default_settings_order_by_number() {
    let tracks = vec![track("10", "b", false), track("9", "a", true), track("x", "c", false)];
    let settings = default_generation_settings(&tracks, 0.0f32);
    let ids: Vec<&str> = settings.participants.iter().map(|p| p.user_id.as_str()).collect();
    assert_eq!(ids, vec!["9", "10", "x"]);
}

#[test]
fn tracks_include_anchor_and_aligned_authenticated_source_metadata() {
    let anchor = AudioFragment {
        id: 11,
        guild_id: 1,
        channel_id: 10,
        user_id: 3,
        recording_session_id: Some(1),
        file_name: "1000-3".into(),
        year: 2026,
        month: 8,
        start_ms: 1_500,
        end_ms: Some(3_000),
        segment_index: Some(0),
        live: false,
    };
    let contributor = AudioFragment {
        id: 22,
        user_id: 7,
        recording_session_id: Some(2),
        file_name: "1200-7".into(),
        start_ms: 1_000,
        end_ms: Some(3_000),
        live: true,
        ..anchor.clone()
    };
    let participants = vec![
        ChannelMixParticipant {
            user_id: "3".into(),
            display_name: Some("Anchor".into()),
            session_ids: vec!["1".into()],
            source_count: 1,
        },
        ChannelMixParticipant {
            user_id: "7".into(),
            display_name: Some("Contributor".into()),
            session_ids: vec!["2".into()],
            source_count: 1,
        },
    ];
    let mut sources = Vec::new();
    add_fragment_sources(&mut sources, std::slice::from_ref(&anchor), std::slice::from_ref(&contributor), 7, 1_000, 3_000);
    let tracks = build_tracks(&participants, &sources, Some(3), 1_000);
    assert_eq!(tracks.len(), 2);
    assert!(tracks[0].is_anchor);
    let segment = &tracks[1].segments[0];
    assert_eq!(segment.start_ms, 500);
    assert_eq!(segment.end_ms, 2_000);
    assert_eq!(segment.source_offset_ms, 500);
    assert!(segment.live);
    assert_eq!(segment.id, "22:1500");
    assert_eq!(segment.recording_session_id.as_deref(), Some("2"));
    assert_eq!(segment.media_url, "/api/audio/sessions/2/segments/22");
    assert_eq!(segment.hls_playlist_url, "/api/audio/sessions/2/live/22/playlist.m3u8");
    assert_eq!(segment.waveform_url, "/api/audio/waveform/1/10/2026/08/1200-7");
    let mut extended_source: MixSource = sources[0].clone();
    extended_source.overlap_end_ms += 1_000;
    assert_eq!(source_segment(&sources[0], 1_000).id, source_segment(&extended_source, 1_000).id);
}

#[test]
fn channel_switches_never_contribute_to_the_wrong_anchor_visit() {
    let anchor = fragment(1, 20, Some(1), 10, 1_000, Some(2_000));
    let other_channel = AudioFragment { channel_id: 11, ..anchor.clone() };
    let mut sources = Vec::new();
    add_fragment_sources(&mut sources, &[anchor], &[other_channel], 20, 1_000, 2_000);
    assert!(sources.is_empty());
}

#[test]
fn query_scope_defaults_to_all_recordings() {
    assert_eq!(ChannelMixQuery { scope: None }.scope(), ChannelMixScope::AllRecordings);
    assert_eq!(ChannelMixQuery { scope: Some(ChannelMixScope::SelectedSession) }.scope(), ChannelMixScope::SelectedSession);
    assert_eq!(ChannelMixScope::SelectedSession.as_str(), "selected_session");
}

#[test]
fn candidates_outside_every_window_are_dropped() {
    let windows = vec![MixWindow { channel_id: 10, start_ms: 1_000, end_ms: 2_000 }];
    let rows = vec![
        CandidateRow { fragment: fragment(1, 5, Some(2), 10, 1_500, Some(2_500)), state: "finalized".into() },
        CandidateRow { fragment: fragment(2, 6, Some(3), 11, 1_500, Some(2_500)), state: "finalized".into() },
        CandidateRow { fragment: fragment(3, 7, None, 10, 2_000, None), state: "active".into() },
    ];
    let kept = mix_candidates(rows, &windows, 1_000, 2_000);
    let ids: Vec<i64> = kept.iter().map(|c| c.fragment.id).collect();
    assert_eq!(ids, vec![1]);
    assert!(mix_candidates(Vec::new(), &[], 0, 10).is_empty());
}

#[test]
fn each_other_session_is_authorized_once() {
    let access = session_access("finalized");
    let rows = vec![
        CandidateRow { fragment: fragment(1, 5, Some(2), 10, 0, Some(5)), state: "finalized".into() },
        CandidateRow { fragment: fragment(2, 5, Some(2), 10, 5, Some(9)), state: "finalized".into() },
        CandidateRow { fragment: fragment(3, 3, Some(1), 10, 0, Some(9)), state: "finalized".into() },
        CandidateRow { fragment: fragment(4, 8, None, 12, 0, Some(9)), state: "finalized".into() },
    ];
    let targets = authorization_targets(&rows, &access);
    assert_eq!(targets, vec![AuthTarget::Session(2), AuthTarget::Channel { guild_id: 1, channel_id: 12 }]);
}

#[test]
fn selected_session_mix_leaves_out_its_own_recordings() {
    let access = session_access("finalized");
    let rows = vec![
        CandidateRow { fragment: fragment(1, 5, Some(2), 10, 0, Some(5)), state: "finalized".into() },
        CandidateRow { fragment: fragment(3, 3, Some(1), 10, 0, Some(9)), state: "finalized".into() },
    ];
    let selected = mix_contributors(&rows, ChannelMixScope::SelectedSession, &access);
    assert_eq!(selected.len(), 1);
    assert_eq!(selected[0].user_id, 5);
    let all = mix_contributors(&rows, ChannelMixScope::AllRecordings, &access);
    assert_eq!(all.len(), 2);
    let users = mix_participant_users(Some((3, 1)), &all);
    assert_eq!(users, vec![3, 5]);
}

#[test]
fn participants_are_ordered_by_id_with_sorted_sessions() {
    let access = session_access("finalized");
    let rows = vec![
        CandidateRow { fragment: fragment(1, 12, Some(10), 10, 0, Some(5)), state: "finalized".into() },
        CandidateRow { fragment: fragment(2, 12, Some(9), 10, 5, Some(9)), state: "finalized".into() },
        CandidateRow { fragment: fragment(4, 5, None, 10, 0, Some(9)), state: "finalized".into() },
    ];
    let contributors = mix_contributors(&rows, ChannelMixScope::SelectedSession, &access);
    let anchor_fragments = vec![fragment(7, 3, Some(1), 10, 0, Some(4)), fragment(7, 3, Some(1), 10, 4, Some(8))];
    let names = vec![(12, Some("Old".to_string())), (12, Some("New".to_string())), (3, None)];
    let ps = participant_entries(Some((3, 1)), &anchor_fragments, &contributors, &names);
    let ids: Vec<&str> = ps.iter().map(|p| p.user_id.as_str()).collect();
    assert_eq!(ids, vec!["3", "5", "12"]);
    assert_eq!(ps[0].session_ids, vec!["1".to_string()]);
    assert_eq!(ps[0].source_count, 1);
    assert_eq!(ps[0].display_name, None);
    assert!(ps[1].session_ids.is_empty());
    assert_eq!(ps[2].session_ids, vec!["10".to_string(), "9".to_string()]);
    assert_eq!(ps[2].source_count, 2);
    assert_eq!(ps[2].display_name.as_deref(), Some("New"));
}

#[test]
fn all_recordings_timeline_spans_the_windows() {
    let access = session_access("finalized");
    let windows = vec![
        MixWindow { channel_id: 10, start_ms: 500, end_ms: 900 },
        MixWindow { channel_id: 11, start_ms: 100, end_ms: 300 },
    ];
    assert_eq!(mix_timeline(ChannelMixScope::AllRecordings, &access, &windows, 9_000), (100, 900));
    assert_eq!(mix_timeline(ChannelMixScope::AllRecordings, &access, &[], 9_000), (1_000, 9_000));
    assert_eq!(mix_timeline(ChannelMixScope::SelectedSession, &access, &windows, 9_000), (1_000, 9_000));
}

#[test]
fn fingerprints_name_every_input() {
    let access = session_access("finalized");
    let windows = vec![MixWindow { channel_id: 10, start_ms: 100, end_ms: 300 }];
    let anchors = vec![fragment(7, 3, Some(1), 10, 100, None)];
    let fp = mix_source_fingerprint(&access, ChannelMixScope::SelectedSession, 100, 200, &windows, &anchors, &[]);
    assert_eq!(
        fp,
        "v4;scope=selected_session;session=1;timeline_start=100;duration=200\nwindow:10:100:300\nanchor:7:10:100:0:100-3:2026:8:false"
    );
    assert_eq!(mix_fingerprint("src", "[]"), "src\nsettings:[]");
}

fn empty_plan(scope: ChannelMixScope, sources: Vec<MixSource>) -> MixPlan<f32> {
    MixPlan {
        session_id: 1,
        scope,
        duration_ms: 1_000,
        contributors: Vec::new(),
        sources,
        participants: Vec::new(),
        tracks: Vec::new(),
        cache_dir: "cache".into(),
        source_fingerprint: "source".into(),
        fingerprint: "source\nsettings:[]".into(),
        settings: ChannelMixGenerationSettings { participants: Vec::new(), source_fingerprint: None },
    }
}

fn one_source() -> Vec<MixSource> {
    let mut sources = Vec::new();
    let anchor = fragment(1, 3, Some(1), 10, 0, Some(1_000));
    add_fragment_sources(&mut sources, std::slice::from_ref(&anchor), std::slice::from_ref(&anchor), 3, 0, 1_000);
    sources
}

#[test]
fn mix_status_follows_blocking_jobs_and_cache() {
    let access = session_access("finalized");
    let pending = session_access("pending");
    let plan = empty_plan(ChannelMixScope::SelectedSession, one_source());
    assert_eq!(mix_status(&plan, &pending, None, None, false).status, ChannelMixStatus::Waiting);
    let nothing = empty_plan(ChannelMixScope::AllRecordings, Vec::new());
    let parts = mix_status(&nothing, &access, None, None, false);
    assert_eq!(parts.status, ChannelMixStatus::Unavailable);
    assert_eq!(parts.reason.unwrap().code, "no_overlap");
    let job = MixJobView {
        source_fingerprint: "source".into(),
        settings: ChannelMixGenerationSettings { participants: Vec::new(), source_fingerprint: None },
        progress: 40,
        failed: None,
    };
    let parts = mix_status(&plan, &access, Some(&job), None, false);
    assert_eq!((parts.status, parts.progress), (ChannelMixStatus::Processing, 40));
    assert_eq!(parts.generation_settings.unwrap().source_fingerprint.as_deref(), Some("source"));
    let stale = MixJobView { source_fingerprint: "old".into(), ..job };
    assert_eq!(mix_status(&plan, &access, Some(&stale), None, false).status, ChannelMixStatus::Idle);
    let cache = MixCacheMetadata {
        source_fingerprint: "source".into(),
        fingerprint: "source\nsettings:[]".into(),
        settings: ChannelMixGenerationSettings { participants: Vec::new(), source_fingerprint: None },
    };
    let ready = mix_status(&plan, &access, None, Some(&cache), false);
    assert_eq!(ready.status, ChannelMixStatus::Ready);
    assert_eq!(ready.media_url.as_deref(), Some("/api/audio/sessions/1/channel-mix/media?scope=selected_session"));
    let other_settings = MixCacheMetadata { fingerprint: "source\nsettings:[x]".into(), ..cache };
    assert_eq!(mix_status(&plan, &access, None, Some(&other_settings), false).status, ChannelMixStatus::Idle);
    assert_eq!(mix_status(&plan, &access, None, Some(&other_settings), true).status, ChannelMixStatus::Ready);
}

#[test]
fn generate_decision_matches_the_status() {
    assert_eq!(generate_action(true, ChannelMixStatus::Idle), GenerateAction::Conflict);
    assert_eq!(generate_action(false, ChannelMixStatus::Idle), GenerateAction::StartRender);
    assert_eq!(generate_action(false, ChannelMixStatus::Failed), GenerateAction::StartRender);
    assert_eq!(generate_action(false, ChannelMixStatus::Ready), GenerateAction::AlreadyReady);
    assert_eq!(generate_action(false, ChannelMixStatus::Processing), GenerateAction::AlreadyUnderWay);
}

fn ready_cache() -> MixCacheMetadata<f32> {
    MixCacheMetadata {
        source_fingerprint: "source".into(),
        fingerprint: "source\nsettings:[]".into(),
        settings: ChannelMixGenerationSettings { participants: Vec::new(), source_fingerprint: None },
    }
}

#[test]
fn mix_response_carries_the_plan_around_the_status() {
    let access = session_access("finalized");
    let mut plan = empty_plan(ChannelMixScope::SelectedSession, one_source());
    plan.tracks = vec![track("3", "Anchor", true)];
    let cache = ready_cache();
    let r = channel_mix_response(plan, &access, None, Some(&cache), false);
    assert_eq!(r.status, ChannelMixStatus::Ready);
    assert_eq!(r.progress, 100);
    assert_eq!(r.media_url.as_deref(), Some("/api/audio/sessions/1/channel-mix/media?scope=selected_session"));
    assert_eq!(r.duration_ms, 1_000);
    assert_eq!(r.tracks.len(), 1);
    assert_eq!(r.source_count, 1);
    assert!(r.can_generate);
    assert_eq!(r.scope, ChannelMixScope::SelectedSession);
    assert_eq!(r.generation_settings.unwrap().source_fingerprint.as_deref(), Some("source"));

    let pending = session_access("pending");
    let plan = empty_plan(ChannelMixScope::SelectedSession, one_source());
    let parts = mix_status(&plan, &pending, None, None, false);
    let r = mix_response(plan, &pending, parts);
    assert_eq!(r.status, ChannelMixStatus::Waiting);
    assert!(!r.can_generate);
    assert!(r.media_url.is_none());
}

#[test]
fn cache_metadata_must_match_the_fingerprint_file() {
    let text = "source\nsettings:[]";
    assert!(trusted_cache_metadata(true, Some(text), Some(ready_cache())).is_some());
    assert!(trusted_cache_metadata(true, Some("other"), Some(ready_cache())).is_none());
    assert!(trusted_cache_metadata(false, Some(text), Some(ready_cache())).is_none());
    assert!(trusted_cache_metadata::<f32>(true, Some(text), None).is_none());
    assert!(trusted_cache_metadata(true, None, Some(ready_cache())).is_none());
}

#[test]
fn mix_cache_key_dates_a_fragmentless_session_by_its_start() {
    let mut access = session_access("finalized");
    for (ms, year, month) in [(951_868_800_000i64, 2000, 3), (951_868_799_999, 2000, 2), (-1, 1969, 12), (1_000, 1970, 1)] {
        access.started_at_ms = ms;
        let key = mix_cache_key(&access, &[]);
        assert_eq!((key.year, key.month), (year, month));
        assert_eq!(key.channel_id, access.starting_channel_id);
    }
}
