use web_server::errors::AppError;
use web_server::mix::MixSource;
use web_server::mix_plan::{
    ChannelMixGenerationSettings, ChannelMixParticipantSettings, ChannelMixScope, MixPlan,
};
use web_server::mix_render::{
    build_mix_filter, files_to_materialize, gain_entry, mix_ffmpeg_args, mix_progress_percent,
    render_failure_message, require_renderable, should_start_render,
};
use web_server::session::SessionAccess;
use web_server::session_jobs::{
    new_session_clip_names, session_clip_names, session_silence_free_path, silence_removal_start, silence_removal_status, waveform_file_response,
    waveform_rebuild, waveform_status, RemovalStart, WaveformStatus,
};

fn source(audio_file_id: i64, user: i64) -> MixSource {
    MixSource {
        audio_file_id,
        recording_session_id: None,
        participant_user_id: user,
        guild_id: 1,
        channel_id: 10,
        year: 2026,
        month: 8,
        file_name: "source".into(),
        fragment_start_ms: 1_000,
        fragment_end_ms: 2_000,
        live: false,
        source_start_ms: 1_000,
        overlap_start_ms: 1_500,
        overlap_end_ms: 2_000,
        delay_ms: 500,
    }
}

fn settings(muted: bool) -> ChannelMixGenerationSettings<f32> {
    ChannelMixGenerationSettings {
        participants: vec![ChannelMixParticipantSettings { user_id: "20".into(), gain_db: -6.0, muted }],
        source_fingerprint: None,
    }
}

/// The gain text of each source, as the server formats the stored float.
fn gain_texts(plan: &MixPlan<f32>, sources: &[&MixSource]) -> Vec<String> {
    sources
        .iter()
        .map(|s| match gain_entry(&plan.settings.participants, s.participant_user_id) {
            Some(k) => format!("{}", plan.settings.participants[k].gain_db),
            None => "0".to_string(),
        })
        .collect()
}

#[test]
fn ffmpeg_graph_uses_timestamp_delay_mono_mix_and_limiter() {
    let plan = MixPlan {
        session_id: 1,
        scope: ChannelMixScope::SelectedSession,
        duration_ms: 1_000,
        contributors: Vec::new(),
        sources: vec![source(2, 20)],
        participants: Vec::new(),
        tracks: Vec::new(),
        cache_dir: "cache".into(),
        source_fingerprint: "test".into(),
        fingerprint: "test".into(),
        settings: settings(false),
    };
    let sources = plan.renderable_sources();
    let gains = gain_texts(&plan, &sources);
    let filter = build_mix_filter(&sources, &gains, plan.duration_ms);
    assert!(filter.contains("volume=-6dB, adelay="));
    assert!(filter.contains("atrim=start=0.500:end=1.000"));
    assert!(filter.contains("adelay=24000S|24000S"));
    assert!(filter.contains("amix=inputs=1:duration=longest:normalize=0"));
    assert!(filter.contains("alimiter=limit=0.95"));
    assert!(filter.contains("apad=whole_len=48000"));
    assert!(filter.contains("atrim=duration=1.000"));
    drop(sources);

    let muted = plan.with_settings(settings(true), "[]");
    assert!(muted.renderable_sources().is_empty());
}

#[test]
fn mix_filter_is_exact_for_one_source() {
    let s = source(2, 20);
    let filter = build_mix_filter(&[&s], &["-6".to_string()], 1_000);
    assert_eq!(
        filter,
        "[0:a]aresample=48000, aformat=sample_fmts=fltp:channel_layouts=mono, atrim=start=0.500:end=1.000, asetpts=PTS-STARTPTS, volume=-6dB, adelay=24000S|24000S, apad=whole_len=48000, atrim=duration=1.000[mix0];[mix0]amix=inputs=1:duration=longest:normalize=0:dropout_transition=0, alimiter=limit=0.95:attack=5:release=50:level=false, atrim=duration=1.000, asetpts=N/SR/TB[out]"
    );
}

#[test]
fn gain_entry_finds_the_first_setting_of_the_user() {
    let participants = vec![
        ChannelMixParticipantSettings { user_id: "7".into(), gain_db: 1.0f32, muted: false },
        ChannelMixParticipantSettings { user_id: "20".into(), gain_db: 2.0f32, muted: false },
        ChannelMixParticipantSettings { user_id: "20".into(), gain_db: 3.0f32, muted: false },
    ];
    assert_eq!(gain_entry(&participants, 20), Some(1));
    assert_eq!(gain_entry(&participants, 8), None);
}

#[test]
fn render_starts_only_without_a_live_job_or_valid_cache() {
    assert!(should_start_render(None, false));
    assert!(should_start_render(Some(true), false));
    assert!(!should_start_render(Some(false), false));
    assert!(!should_start_render(None, true));
    assert_eq!(render_failure_message(), "Channel mix generation failed. Try again.");
}

#[test]
fn a_mix_without_audio_is_not_rendered() {
    assert!(require_renderable(1_000, 1).is_ok());
    match require_renderable(0, 1) {
        Err(AppError::BadRequest(m)) => assert_eq!(m, "Channel mix has no renderable audio"),
        _ => panic!("expected a bad request"),
    }
    assert!(require_renderable(1_000, 0).is_err());
}

#[test]
fn each_file_is_materialized_once_in_first_seen_order() {
    let a = source(5, 20);
    let b = source(3, 21);
    let c = source(5, 22);
    assert_eq!(files_to_materialize(&[&a, &b, &c]), vec![5, 3]);
    assert!(files_to_materialize(&[]).is_empty());
}

#[test]
fn mix_command_line_lists_inputs_then_encoding() {
    let args = mix_ffmpeg_args(&["a.ogg".to_string(), "b.ogg".to_string()], "F", 1_500, "out.ogg");
    let expected = vec![
        "-y", "-hide_banner", "-loglevel", "error", "-nostdin", "-i", "a.ogg", "-i", "b.ogg",
        "-filter_complex", "F", "-map", "[out]", "-ar", "48000", "-ac", "1", "-c:a", "libopus", "-b:a",
        "96k", "-t", "1.500", "-progress", "pipe:2", "-nostats", "out.ogg",
    ];
    assert_eq!(args, expected);
}

#[test]
fn mix_progress_scales_output_time_into_one_to_ninety_nine() {
    assert_eq!(mix_progress_percent("out_time_us=500000", 1_000), Some(49));
    assert_eq!(mix_progress_percent("out_time_us=0", 1_000), Some(1));
    assert_eq!(mix_progress_percent("out_time_us=5000000", 1_000), Some(99));
    assert_eq!(mix_progress_percent("out_time_us=500", 0), Some(49));
    assert_eq!(mix_progress_percent("progress=end", 1_000), None);
}

fn access(state: &str) -> SessionAccess {
    SessionAccess {
        session_id: 1,
        guild_id: 2,
        user_id: 3,
        starting_channel_id: 4,
        state: state.to_string(),
        started_at_ms: 1_000,
        ended_at_ms: Some(9_000),
        pause_started_at_ms: Some(5_000),
    }
}

#[test]
fn silence_free_cache_identity_uses_the_finalized_session_timestamps() {
    let path = session_silence_free_path("/recordings/no_silence", &access("finalized")).unwrap();
    assert!(path.ends_with("/1-1000-9000.ogg"));
    assert_eq!(path, "/recordings/no_silence/logical_sessions/1-1000-9000.ogg");
    assert!(session_silence_free_path("/recordings/no_silence", &access("active")).is_err());
}

#[test]
fn finalized_session_without_end_has_no_silence_free_copy() {
    let mut a = access("finalized");
    a.ended_at_ms = None;
    match session_silence_free_path("/r", &a) {
        Err(AppError::BadRequest(m)) => assert_eq!(m, "Finalized recording has no end timestamp"),
        _ => panic!("expected a bad request"),
    }
    match session_silence_free_path("/r", &access("pending")) {
        Err(AppError::BadRequest(m)) => {
            assert_eq!(m, "Silence removal is available after the recording is finalized")
        }
        _ => panic!("expected a bad request"),
    }
}

#[test]
fn silence_removal_status_reports_each_state() {
    let r = silence_removal_status(Some(-1), true);
    assert_eq!((r.status.as_str(), r.progress), ("failed", 0));
    let r = silence_removal_status(Some(150), false);
    assert_eq!((r.status.as_str(), r.progress), ("processing", 99));
    let r = silence_removal_status(None, true);
    assert_eq!((r.status.as_str(), r.progress), ("ready", 100));
    let r = silence_removal_status(None, false);
    assert_eq!((r.status.as_str(), r.progress), ("idle", 0));
}

#[test]
fn silence_removal_never_starts_twice() {
    assert_eq!(silence_removal_start(Some(30), true, true), RemovalStart::Processing(30));
    assert_eq!(silence_removal_start(None, false, true), RemovalStart::Ready);
    assert_eq!(silence_removal_start(None, true, true), RemovalStart::Start);
    assert_eq!(silence_removal_start(Some(-1), false, false), RemovalStart::Start);
}

#[test]
fn waveform_status_and_rebuild_follow_the_stored_progress() {
    assert_eq!(waveform_status(Some(-1), true), WaveformStatus::Failed);
    assert_eq!(waveform_status(Some(120), false), WaveformStatus::Building(99));
    assert_eq!(waveform_status(None, true), WaveformStatus::Built);
    assert_eq!(waveform_status(None, false), WaveformStatus::Idle);
    assert_eq!(waveform_rebuild(Some(40)), Some(40));
    assert_eq!(waveform_rebuild(Some(-1)), None);
    assert_eq!(waveform_rebuild(None), None);
}

#[test]
fn built_waveform_is_served_in_base64() {
    let r = waveform_file_response(b"abcd");
    assert_eq!(r.progress, 100);
    assert!(!r.building);
    assert_eq!(r.data.as_deref(), Some("YWJjZA=="));
}

#[test]
fn session_clips_are_stored_by_month_and_named_by_session() {
    let n = session_clip_names(7, false, None, 2026, 8, "abc".into());
    assert_eq!(n.saved_file_name, "2026/08/abc.ogg");
    assert_eq!((n.year_dir.as_str(), n.month_dir.as_str()), ("2026", "08"));
    assert_eq!(n.original_file_name, "session:7");
    assert_eq!(n.name, "session-7");
    let s = session_clip_names(7, true, Some("Best bit".into()), 2026, 12, "abc".into());
    assert_eq!(s.saved_file_name, "2026/12/abc.ogg");
    assert_eq!(s.original_file_name, "session-silence-free:7");
    assert_eq!(s.name, "Best bit");
    let fresh = new_session_clip_names(7, false, None);
    assert_eq!(fresh.clip_id.len(), 36);
    assert!(fresh.saved_file_name.ends_with(&format!("/{}.ogg", fresh.clip_id)));
}
