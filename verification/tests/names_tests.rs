use web_server::names::{
    audio_leaf, is_valid_clip_id, is_valid_file_segment, segment_file_name, temporary_segment_path, validate_segment_name,
};

#[test]
fn audio_leaf_adds_ogg_to_a_recording_stem() {
    assert_eq!(
        audio_leaf("1786473460682-183931044829986817", false),
        "1786473460682-183931044829986817.ogg"
    );
}

#[test]
fn audio_leaf_preserves_an_existing_extension() {
    assert_eq!(audio_leaf("recording.ogg", false), "recording.ogg");
}

#[test]
fn audio_leaf_adds_the_silence_free_prefix_after_normalizing() {
    assert_eq!(audio_leaf("recording", true), "_no_silence_recording.ogg");
}

#[test]
fn file_segment_accepts_generated_names() {
    assert!(is_valid_file_segment("1786473460682-183931044829986817"));
    assert!(is_valid_file_segment("1786473460682-183931044829986817.ogg"));
    assert!(is_valid_file_segment("seg_00001.m4s"));
}

#[test]
fn file_segment_rejects_traversal_and_separators() {
    assert!(!is_valid_file_segment(""));
    assert!(!is_valid_file_segment(".."));
    assert!(!is_valid_file_segment("../secret"));
    assert!(!is_valid_file_segment("a..b"));
    assert!(!is_valid_file_segment("dir/file"));
    assert!(!is_valid_file_segment("dir\\file"));
}

#[test]
fn file_segment_rejects_shell_metacharacters() {
    assert!(!is_valid_file_segment("bad'name"));
    assert!(!is_valid_file_segment("bad\"name"));
    assert!(!is_valid_file_segment("bad\nname"));
    assert!(!is_valid_file_segment("bad\tname"));
}

#[test]
fn clip_editor_validates_clip_ids() {
    assert!(is_valid_clip_id("abc-123"));
    assert!(!is_valid_clip_id(""));
    assert!(!is_valid_clip_id("../secret"));
    assert!(!is_valid_clip_id("a/b"));
    assert!(!is_valid_clip_id("a\\b"));
    assert!(!is_valid_clip_id("a\nb"));
}

#[test]
fn tests_validates_clip_ids() {
    assert!(is_valid_clip_id("abc-123"));
    assert!(!is_valid_clip_id(""));
    assert!(!is_valid_clip_id("../secret"));
    assert!(!is_valid_clip_id("a/b"));
    assert!(!is_valid_clip_id("a\\b"));
    assert!(!is_valid_clip_id("a\nb"));
}

#[test]
fn tests_hls_segment_validation_blocks_traversal_and_reserved_routes() {
    assert!(validate_segment_name("seg_00001.m4s").is_ok());
    assert!(validate_segment_name("../secret").is_err());
    assert!(validate_segment_name("playlist.m3u8").is_err());
}

#[test]
fn sessions_hls_segment_validation_blocks_traversal_and_reserved_routes() {
    assert!(validate_segment_name("seg_00001.m4s").is_ok());
    assert!(validate_segment_name("../secret").is_err());
    assert!(validate_segment_name("playlist.m3u8").is_err());
}

#[test]
fn segment_scratch_files_sit_beside_the_output() {
    assert_eq!(temporary_segment_path("/clips/compositions/abc.ogg", 2), "/clips/compositions/.abc.dsp-segment-2.f32");
    assert_eq!(temporary_segment_path("out", 0), ".out.dsp-segment-0.f32");
    assert_eq!(segment_file_name(None, 5), ".compose.dsp-segment-5.f32");
}
