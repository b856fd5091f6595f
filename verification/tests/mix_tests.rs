use std::collections::HashSet;
use web_server::mix::{
    build_occupancy_windows, intersect_mix_intervals, select_occupancy_windows, BotConnectionEvent, MixInterval,
    MixWindow,
};

fn interval(start_ms: i64, end_ms: i64) -> MixInterval {
    MixInterval { start_ms, end_ms }
}

fn event(started_ms: i64, completed_ms: i64, to: Option<i64>, outcome: &str) -> BotConnectionEvent {
    BotConnectionEvent { started_ms, completed_ms, to_channel_id: to, outcome: outcome.into() }
}

#[test]
fn staggered_intervals_are_trimmed_to_the_shared_half_open_range() {
    assert_eq!(
        intersect_mix_intervals(interval(1_000, 4_000), interval(2_500, 5_000)),
        Some(interval(2_500, 4_000))
    );
}

#[test]
fn exact_boundaries_do_not_overlap() {
    assert_eq!(intersect_mix_intervals(interval(1_000, 2_000), interval(2_000, 3_000)), None);
}

#[test]
fn occupancy_windows_expand_to_the_selected_connected_episode() {
    let events = vec![
        event(100, 110, Some(10), "joined"),
        event(200, 210, Some(10), "already_in_channel"),
        event(500, 520, Some(11), "switched"),
        event(900, 910, None, "disconnected"),
        event(2_000, 2_010, Some(10), "joined"),
    ];
    let windows = build_occupancy_windows(&events, 3_000);
    assert_eq!(
        windows
            .iter()
            .map(|window| (window.channel_id, window.start_ms, window.end_ms, window.episode_id))
            .collect::<Vec<_>>(),
        vec![(10, 110, 500, 1), (11, 520, 900, 1), (10, 2_010, 3_000, 2)]
    );
    let selected_channels: HashSet<i64> = HashSet::from([10, 11]);
    let selected = select_occupancy_windows(windows, 300, 600, &selected_channels);
    assert_eq!(
        selected,
        vec![
            MixWindow { channel_id: 10, start_ms: 110, end_ms: 500 },
            MixWindow { channel_id: 11, start_ms: 520, end_ms: 900 },
        ]
    );
}

#[test]
fn failed_connection_audits_do_not_create_occupancy() {
    let events = vec![event(100, 110, Some(10), "join_failed")];
    assert!(build_occupancy_windows(&events, 3_000).is_empty());
}

#[test]
fn a_repeated_anchor_visit_has_independent_overlap_windows() {
    let anchor = [interval(1_000, 2_000), interval(4_000, 5_000)];
    let contributor = interval(1_500, 4_500);
    let overlaps = anchor
        .iter()
        .filter_map(|window| intersect_mix_intervals(*window, contributor))
        .collect::<Vec<_>>();
    assert_eq!(overlaps, vec![interval(1_500, 2_000), interval(4_000, 4_500)]);
}

#[test]
fn delay_is_relative_to_the_anchor_start_even_across_a_gap() {
    let overlap_start = 4_000;
    let anchor_start = 1_000;
    assert_eq!(overlap_start - anchor_start, 3_000);
}

#[test]
fn output_duration_includes_anchor_handoff_gaps() {
    let anchor_start = 1_000;
    let anchor_end = 9_000;
    let fragments = [interval(1_000, 3_000), interval(6_000, 9_000)];
    let covered: i64 = fragments.iter().map(|fragment| fragment.end_ms - fragment.start_ms).sum();
    assert_eq!(anchor_end - anchor_start, 8_000);
    assert_eq!(covered, 5_000);
}

#[test]
fn occupancy_outside_the_selection_is_dropped() {
    let events = vec![
        event(100, 110, Some(10), "joined"),
        event(900, 910, None, "disconnected"),
        event(2_000, 2_010, Some(10), "joined"),
    ];
    let windows = build_occupancy_windows(&events, 3_000);
    let selected_channels: HashSet<i64> = HashSet::from([10]);
    let selected = select_occupancy_windows(windows, 2_500, 2_600, &selected_channels);
    assert_eq!(selected, vec![MixWindow { channel_id: 10, start_ms: 2_010, end_ms: 3_000 }]);
}

#[test]
fn empty_intervals_are_refused() {
    assert_eq!(MixInterval::new(5, 5), None);
    assert_eq!(MixWindow::new(1, 7, 3), None);
    assert_eq!(MixWindow::new(1, 3, 7), Some(MixWindow { channel_id: 1, start_ms: 3, end_ms: 7 }));
}

#[test]
fn failed_audits_never_shape_the_windows() {
    let log = vec![
        event(100, 110, Some(10), "joined"),
        event(200, 210, Some(11), "failed"),
        event(300, 310, None, "timeout"),
        event(400, 410, Some(11), "switched"),
        event(500, 510, None, "join_error"),
        event(600, 610, None, "disconnected"),
    ];
    let kept: Vec<BotConnectionEvent> = log
        .iter()
        .filter(|e| {
            ["joined", "rejoined", "switched", "already_in_channel", "disconnected", "switched_after_join_error"]
                .contains(&e.outcome.as_str())
        })
        .cloned()
        .collect();
    assert_eq!(kept.len(), 3);
    assert_eq!(build_occupancy_windows(&log, 1_000), build_occupancy_windows(&kept, 1_000));
    assert_eq!(build_occupancy_windows(&log, 1_000).len(), 2);
}
