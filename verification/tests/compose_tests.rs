use web_server::compose::{
    capture_error_line, classify_stderr_line, milliseconds_as_seconds, raise_progress, session_ffmpeg_args,
    session_filter, StderrLine,
};
use web_server::timeline::{PartKind, TimelinePart};

#[test]
fn milliseconds_print_as_seconds_with_three_decimals() {
    assert_eq!(milliseconds_as_seconds(0), "0.000");
    assert_eq!(milliseconds_as_seconds(1_500), "1.500");
    assert_eq!(milliseconds_as_seconds(61_007), "61.007");
    assert_eq!(milliseconds_as_seconds(-5), "0.000");
    for ms in [1i64, 999, 1_000, 123_456_789] {
        assert_eq!(milliseconds_as_seconds(ms), format!("{:.3}", ms as f64 / 1_000.0));
    }
}

#[test]
fn session_filter_resamples_and_concatenates() {
    assert_eq!(
        session_filter(2, false, false),
        "[0:a]aresample=48000,aformat=sample_fmts=fltp:channel_layouts=mono[a0];\
[1:a]aresample=48000,aformat=sample_fmts=fltp:channel_layouts=mono[a1];[a0][a1]concat=n=2:v=0:a=1[joined]"
    );
    assert!(session_filter(1, true, true).ends_with(
        ";[joined]asplit=2[progress_audio][silence_input];[silence_input]silenceremove=stop_periods=-1:stop_duration=1:stop_threshold=-40dB[out]"
    ));
    assert!(session_filter(1, true, false)
        .ends_with(";[joined]silenceremove=stop_periods=-1:stop_duration=1:stop_threshold=-40dB[out]"));
}

#[test]
fn session_command_reads_each_part() {
    let parts = vec![
        TimelinePart { start_ms: 2_000, end_ms: 3_500, kind: PartKind::Audio { fragment: 0, source_start_ms: 1_000 } },
        TimelinePart { start_ms: 3_500, end_ms: 4_000, kind: PartKind::Silence },
    ];
    let paths = vec!["/rec/a.ogg".to_string()];
    let args = session_ffmpeg_args(&parts, &paths, false, false, "/out.ogg");
    let expected: Vec<&str> = vec![
        "-y", "-hide_banner", "-loglevel", "error", "-ss", "1.000", "-t", "1.500", "-i", "/rec/a.ogg", "-f", "lavfi",
        "-t", "0.500", "-i", "anullsrc=channel_layout=mono:sample_rate=48000", "-filter_complex",
    ];
    assert_eq!(&args[..expected.len()], expected.as_slice());
    assert_eq!(&args[expected.len() + 1..], ["-map", "[joined]", "-c:a", "libopus", "-b:a", "96k", "/out.ogg"]);
    let with_progress = session_ffmpeg_args(&parts, &paths, true, true, "/out.ogg");
    assert!(with_progress.ends_with(&[
        "/out.ogg".to_string(),
        "-map".into(),
        "[progress_audio]".into(),
        "-f".into(),
        "null".into(),
        "-".into(),
        "-progress".into(),
        "pipe:2".into(),
        "-nostats".into()
    ]));
}

#[test]
fn progress_only_rises() {
    assert_eq!(raise_progress(10, 20), 20);
    assert_eq!(raise_progress(20, 10), 20);
    assert_eq!(raise_progress(-1, 50), -1);
}

#[test]
fn error_output_is_capped() {
    let mut buf = Vec::new();
    capture_error_line(&mut buf, b"first");
    assert_eq!(buf, b"first\n");
    let mut full = vec![b'x'; 4_094];
    capture_error_line(&mut full, b"abcdef");
    assert_eq!(full.len(), 4_097);
    assert!(full.ends_with(b"ab\n"));
    let before = full.clone();
    capture_error_line(&mut full, b"more");
    assert_eq!(full, before);
}

#[test]
fn stderr_lines_are_sorted_out() {
    assert_eq!(classify_stderr_line("out_time_us=5000000", true, 10_000, 85, 0), StderrLine::Progress(42));
    assert_eq!(classify_stderr_line("progress=continue", true, 10_000, 85, 0), StderrLine::Ignored);
    assert_eq!(classify_stderr_line("Invalid data found", true, 10_000, 85, 0), StderrLine::ErrorText);
    assert_eq!(classify_stderr_line("out_time_us=5000000", false, 10_000, 85, 0), StderrLine::Ignored);
}

#[test]
fn error_text_stops_at_the_limit() {
    assert_eq!(classify_stderr_line("Invalid data found", true, 10_000, 85, 4_096), StderrLine::Ignored);
}
