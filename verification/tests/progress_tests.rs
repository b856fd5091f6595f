use web_server::progress::{compose_progress_percent, composition_progress_percent, is_ffmpeg_progress_line};

#[test]
fn tests_maps_ffmpeg_output_time_into_composition_progress() {
    assert_eq!(composition_progress_percent("out_time_us=5000000", 10_000, 85), Some(42));
    assert_eq!(composition_progress_percent("out_time_us=10000000", 10_000, 85), Some(84));
    assert_eq!(composition_progress_percent("progress=end", 10_000, 85), None);
    assert_eq!(compose_progress_percent("out_time_us=5000000", 10_000), Some(49));
    assert_eq!(compose_progress_percent("out_time_us=10000000", 10_000), Some(99));
    assert_eq!(compose_progress_percent("progress=end", 10_000), None);
}

#[test]
fn sessions_maps_ffmpeg_output_time_into_composition_progress() {
    assert_eq!(composition_progress_percent("out_time_us=5000000", 10_000, 85), Some(42));
    assert_eq!(composition_progress_percent("out_time_us=10000000", 10_000, 85), Some(84));
    assert_eq!(composition_progress_percent("progress=end", 10_000, 85), None);
}

#[test]
fn clip_editor_maps_ffmpeg_output_time_into_composition_progress() {
    assert_eq!(compose_progress_percent("out_time_us=5000000", 10_000), Some(49));
    assert_eq!(compose_progress_percent("out_time_us=10000000", 10_000), Some(99));
    assert_eq!(compose_progress_percent("progress=end", 10_000), None);
}

#[test]
fn progress_never_passes_its_ceiling() {
    assert_eq!(composition_progress_percent("out_time_us=99000000", 10_000, 85), Some(84));
    assert_eq!(compose_progress_percent("out_time_us=99000000", 10_000), Some(99));
    assert_eq!(composition_progress_percent("out_time_us=0", 10_000, 85), Some(1));
    assert_eq!(compose_progress_percent("out_time_us=0", 10_000), Some(1));
}

#[test]
fn progress_lines_are_recognised() {
    assert!(is_ffmpeg_progress_line("out_time_us=5000000"));
    assert!(is_ffmpeg_progress_line("progress=continue"));
    assert!(!is_ffmpeg_progress_line("Stream mapping:"));
}
