use web_server::hls::{
    codec_gate, codec_name, live_pipeline_command, recording_month, shell_quote, tail_wait_step, vod_ffmpeg_args,
    TailWait,
    ffmpeg_output_args, hls_cache_action, parse_fdinfo_pos, parse_stat_comm_pgrp, playlist_finalized,
    reject_reserved_segment, with_endlist, HlsCacheAction,
};

#[test]
fn live_ffmpeg_flags_do_not_append_existing_playlist() {
    let args = ffmpeg_output_args("/tmp/live", true);
    let flags_pos = args.iter().position(|arg| arg == "-hls_flags").expect("hls flags option should exist");
    let flags = &args[flags_pos + 1];
    assert!(flags.contains("omit_endlist"));
    assert!(!flags.contains("append_list"));
}

#[test]
fn stat_parser_handles_awkward_comm_names() {
    let stat = "1234 (tail) S 1 5678 5678 0 -1 4194304 0";
    assert_eq!(parse_stat_comm_pgrp(stat), Some(("tail", 5678)));
    let nested = "99 ((sd-pam) x) S 1 42 42 0 -1";
    assert_eq!(parse_stat_comm_pgrp(nested), Some(("(sd-pam) x", 42)));
    assert_eq!(parse_stat_comm_pgrp("garbage"), None);
}

#[test]
fn fdinfo_parser_reads_pos() {
    let fdinfo = "pos:\t123456\nflags:\t0100000\nmnt_id:\t29\n";
    assert_eq!(parse_fdinfo_pos(fdinfo), Some(123456));
    assert_eq!(parse_fdinfo_pos("flags:\t0\n"), None);
}

#[test]
fn hls_cache_action_builds_when_playlist_missing() {
    assert_eq!(hls_cache_action(false, false, true), HlsCacheAction::BuildFresh);
}

#[test]
fn hls_cache_action_reuses_finalized_playlist() {
    let finalized = playlist_finalized("#EXTM3U\n#EXT-X-ENDLIST\n");
    assert!(finalized);
    assert_eq!(hls_cache_action(true, finalized, true), HlsCacheAction::ReuseFinalized);
}

#[test]
fn hls_cache_action_purges_unfinalized_live_playlist() {
    let finalized = playlist_finalized("#EXTM3U\n#EXT-X-PLAYLIST-TYPE:EVENT\n");
    assert!(!finalized);
    assert_eq!(hls_cache_action(true, finalized, true), HlsCacheAction::PurgeStaleLive);
    assert_eq!(hls_cache_action(true, finalized, false), HlsCacheAction::BuildFresh);
}

#[test]
fn endlist_is_appended_once() {
    assert_eq!(with_endlist("#EXTM3U"), Some("#EXTM3U\n#EXT-X-ENDLIST\n".to_string()));
    assert_eq!(with_endlist("#EXTM3U\n"), Some("#EXTM3U\n#EXT-X-ENDLIST\n".to_string()));
    assert_eq!(with_endlist("#EXTM3U\n#EXT-X-ENDLIST\n"), None);
}

#[test]
fn reserved_segment_names_are_refused() {
    assert!(reject_reserved_segment("playlist.m3u8").is_err());
    assert!(reject_reserved_segment("seg_00001.m4s").is_ok());
}

#[test]
fn live_pipeline_quotes_every_word() {
    assert_eq!(shell_quote("it's"), "'it'\\''s'");
    let cmd = live_pipeline_command("/rec/a'b.ogg", "/out");
    assert!(cmd.starts_with("tail -F -c +0 -- '/rec/a'\\''b.ogg' | ffmpeg '-hide_banner' '-loglevel' 'warning' '-f' 'ogg' '-i' 'pipe:0' '-c:a'"));
    assert!(cmd.ends_with("'/out/seg_%05d.m4s' '/out/playlist.m3u8'"));
    let vod = vod_ffmpeg_args("/rec/a.ogg", "/out");
    assert_eq!(&vod[..5], ["-hide_banner", "-loglevel", "warning", "-i", "/rec/a.ogg"]);
    assert!(vod.contains(&"vod".to_string()));
}

#[test]
fn tail_wait_needs_two_catch_ups() {
    assert_eq!(tail_wait_step(false, Some(10), Some(10), true, false), TailWait::Poll { caught_up: true });
    assert_eq!(tail_wait_step(true, Some(10), Some(10), true, false), TailWait::Stop);
    assert_eq!(tail_wait_step(true, Some(5), Some(10), true, false), TailWait::Poll { caught_up: false });
    assert_eq!(tail_wait_step(false, None, Some(10), false, false), TailWait::Stop);
    assert_eq!(tail_wait_step(false, Some(5), Some(10), true, true), TailWait::Stop);
}

#[test]
fn only_opus_is_streamed() {
    assert_eq!(codec_name(b" OPUS\n"), "opus");
    assert!(codec_gate(Some("opus")).is_ok());
    assert!(matches!(codec_gate(Some("vorbis")), Err(web_server::errors::AppError::BadRequest(m)) if m == "unsupported codec: vorbis"));
    assert!(codec_gate(None).is_err());
    assert_eq!(recording_month(8).unwrap(), 8);
    assert!(recording_month(u32::MAX).is_err());
}
