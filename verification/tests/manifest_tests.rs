use web_server::manifest::{
    build_manifest, channel_journey, connection_event_type, manifest_end_ms, merge_session_events,
    SessionTimelineEventDto,
};
use web_server::session::{AudioFragment, Gap, SessionAccess};

fn access() -> SessionAccess {
    SessionAccess {
        session_id: 1,
        guild_id: 2,
        user_id: 3,
        starting_channel_id: 4,
        state: "finalized".into(),
        started_at_ms: 1_000,
        ended_at_ms: Some(9_000),
        pause_started_at_ms: None,
    }
}

fn fragment(id: i64, channel_id: i64, start_ms: i64, end_ms: Option<i64>, live: bool) -> AudioFragment {
    AudioFragment {
        id,
        guild_id: 2,
        channel_id,
        user_id: 3,
        recording_session_id: Some(1),
        file_name: format!("f{id}"),
        year: 2026,
        month: 8,
        start_ms,
        end_ms,
        segment_index: Some(0),
        live,
    }
}

fn event(source: &str, offset_ms: i64) -> SessionTimelineEventDto<()> {
    SessionTimelineEventDto {
        source: source.into(),
        event_type: "e".into(),
        offset_ms,
        channel_id: None,
        previous_channel_id: None,
        details: (),
    }
}

#[test]
fn manifest_end_covers_late_fragments() {
    let fragments = vec![fragment(1, 4, 1_000, Some(12_000), false)];
    assert_eq!(manifest_end_ms(&access(), &fragments, 9_000), 12_000);
    assert_eq!(manifest_end_ms(&access(), &[], 9_000), 9_000);
}

#[test]
fn journey_records_each_channel_change() {
    let fragments = vec![
        fragment(1, 4, 1_000, Some(2_000), false),
        fragment(2, 5, 2_000, Some(3_000), false),
        fragment(3, 5, 3_000, Some(4_000), false),
    ];
    assert_eq!(channel_journey(&access(), &fragments, Some(6)), vec!["4", "5", "6"]);
    assert_eq!(channel_journey(&access(), &fragments, Some(5)), vec!["4", "5"]);
}

#[test]
fn manifest_segments_are_sorted_relative_to_the_start() {
    let fragments = vec![fragment(7, 4, 3_000, None, true), fragment(8, 4, 1_000, Some(2_000), false)];
    let gaps = vec![Gap {
        start_ms: 2_000,
        end_ms: 3_000,
        reason: "moved".into(),
        from_channel_id: Some(4),
        to_channel_id: None,
    }];
    let m = build_manifest(&access(), &fragments, &gaps, 9_000, None, vec![event("recording", 5)]);
    assert_eq!(m.duration_ms, 8_000);
    assert_eq!(m.recording_session_id, "1");
    let kinds: Vec<&str> = m.segments.iter().map(|s| s.kind.as_str()).collect();
    assert_eq!(kinds, vec!["audio", "silence", "active_hls"]);
    assert_eq!((m.segments[0].start_ms, m.segments[0].end_ms), (0, 1_000));
    assert_eq!(m.segments[1].from_channel_id.as_deref(), Some("4"));
    assert_eq!(m.segments[2].end_ms, 8_000);
    assert_eq!(m.segments[2].media_url.as_deref(), Some("/api/audio/sessions/1/segments/7"));
    assert_eq!(m.segments[2].hls_playlist_url.as_deref(), Some("/api/audio/sessions/1/live/7/playlist.m3u8"));
    assert_eq!(m.events.len(), 1);
}

#[test]
fn events_are_merged_in_time_order() {
    let merged = merge_session_events(
        vec![event("recording", 30), event("recording", 10)],
        vec![event("voice_state", 10)],
        vec![event("voice_connection", 0)],
    );
    let order: Vec<(&str, i64)> = merged.iter().map(|e| (e.source.as_str(), e.offset_ms)).collect();
    assert_eq!(order, vec![("voice_connection", 0), ("recording", 10), ("voice_state", 10), ("recording", 30)]);
    assert_eq!(connection_event_type("slash", "joined"), "slash:joined");
}
