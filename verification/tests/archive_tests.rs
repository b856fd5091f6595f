use web_server::archive::{
    after_eviction, backoff_delay_seconds, cache_cap_step, over_cap, required_bytes, source_of_row, stored_bytes, SourceId, eviction_order, retry_delay_seconds, is_evictable_cache_dir, is_hls_dir, older_than, HLS_MAX_AGE_MS, existing_verified_step, headed_step, local_checked_step, local_retention_days,
    remote_metadata_matches, remote_response_head, uploaded_verified_step, ArchiveStep, RemoteDisposition, VerifyOutcome,
};
use web_server::errors::AppError;

#[test]
fn cache_cap_evicts_oldest_entries_first() {
    let order_ms = [1i64, 2];
    let bytes = [5u64, 4];
    let order = eviction_order(&order_ms);
    let (mut total, mut removed) = (9u64, 0u64);
    for index in order {
        if total <= 4 {
            break;
        }
        (total, removed) = after_eviction(total, removed, bytes[index], true);
    }
    assert_eq!((removed, total), (1, 4));
}

#[test]
fn eviction_order_is_stable() {
    assert_eq!(eviction_order(&[5, 1, 5, 0]), vec![3, 1, 0, 2]);
    assert_eq!(after_eviction(3, 1, 5, true), (0, 2));
    assert_eq!(after_eviction(3, 1, 5, false), (3, 1));
}

#[test]
fn archiving_steps_follow_the_storage_answers() {
    assert!(matches!(local_checked_step(true, false), ArchiveStep::HashLocal));
    assert!(matches!(local_checked_step(false, true), ArchiveStep::VerifyExisting));
    assert!(matches!(local_checked_step(false, false), ArchiveStep::MarkMissing(m) if m == "local source file is missing"));
    assert!(matches!(existing_verified_step(VerifyOutcome::NotFound), ArchiveStep::MarkMissing(m) if m == "local and archived source files are missing"));
    assert!(matches!(headed_step(None), ArchiveStep::UploadThenRenew));
    match uploaded_verified_step(VerifyOutcome::Verified { etag: None }, Some("up".into())) {
        ArchiveStep::Finish { etag } => assert_eq!(etag.as_deref(), Some("up")),
        other => panic!("unexpected {other:?}"),
    }
    assert_eq!(local_retention_days(None), 7);
}

#[test]
fn remote_media_must_match_the_ledger() {
    assert!(remote_metadata_matches(10, Some("abc"), 10, "abc"));
    assert!(!remote_metadata_matches(10, None, 10, "abc"));
    assert!(!remote_metadata_matches(9, Some("abc"), 10, "abc"));
    assert_eq!(RemoteDisposition::Attachment.header_value(), "attachment");
}

fn header<'a>(head: &'a web_server::archive::RemoteResponseHead, name: &str) -> Option<&'a str> {
    head.headers.iter().find(|(n, _)| n == name).map(|(_, v)| v.as_str())
}

#[test]
fn range_response_preserves_streaming_headers() {
    // A range of bytes 2..=5 of 10: four bytes long.
    let head = remote_response_head(Some((4, "bytes 2-5/10".to_string())), 10, Some("\"etag-value\""), RemoteDisposition::Attachment);
    assert_eq!(head.status, 206);
    assert_eq!(header(&head, "content-length"), Some("4"));
    assert_eq!(header(&head, "content-range"), Some("bytes 2-5/10"));
    assert_eq!(header(&head, "accept-ranges"), Some("bytes"));
    assert_eq!(header(&head, "content-type"), Some("audio/ogg"));
    assert_eq!(header(&head, "content-disposition"), Some("attachment"));
    assert_eq!(header(&head, "etag"), Some("\"etag-value\""));
}

#[test]
fn whole_response_has_the_full_length_and_drops_bad_etags() {
    let head = remote_response_head(None, 10, Some("bad\netag"), RemoteDisposition::Inline);
    assert_eq!(head.status, 200);
    assert_eq!(header(&head, "content-length"), Some("10"));
    assert_eq!(header(&head, "content-range"), None);
    assert_eq!(header(&head, "content-disposition"), Some("inline"));
    assert_eq!(header(&head, "etag"), None);
    assert_eq!(head.headers.len(), 4);
}

#[test]
fn unsatisfiable_range_returns_416_with_total() {
    let error = AppError::RangeNotSatisfiable { total: 10 };
    assert_eq!(error.status_code(), 416);
    assert_eq!(error.content_range_header().as_deref(), Some("bytes */10"));
}

#[test]
fn cache_sweeps_recognize_stream_and_mix_directories() {
    assert!(is_evictable_cache_dir("hls-1700-42"));
    assert!(is_evictable_cache_dir("mix-selected"));
    assert!(!is_evictable_cache_dir("2026"));
    assert!(is_hls_dir("hls-1700-42"));
    assert!(!is_hls_dir("mix-selected"));
    assert!(older_than(Some(HLS_MAX_AGE_MS + 1), HLS_MAX_AGE_MS));
    assert!(!older_than(Some(HLS_MAX_AGE_MS), HLS_MAX_AGE_MS));
    assert!(!older_than(None, 0));
}

#[test]
fn upload_retries_back_off_to_an_hour_with_jitter() {
    assert_eq!(backoff_delay_seconds(1, 0), 15);
    assert_eq!(backoff_delay_seconds(2, 0), 30);
    assert_eq!(backoff_delay_seconds(5, 3), 243);
    assert_eq!(backoff_delay_seconds(8, 0), 1920);
    assert_eq!(backoff_delay_seconds(9, 0), 3600);
    assert_eq!(backoff_delay_seconds(i32::MAX, 1800), 5400);
    assert_eq!(backoff_delay_seconds(i32::MIN, 0), 15);
    for _ in 0..50 {
        let d = retry_delay_seconds(1);
        assert!((15..=22).contains(&d));
        let d = retry_delay_seconds(20);
        assert!((3600..=5400).contains(&d));
    }
}

#[test]
fn ledger_rows_name_one_source_and_sizes_are_never_negative() {
    assert_eq!(source_of_row(Some(4), None), Ok(SourceId::Recording(4)));
    assert_eq!(source_of_row(None, Some("c".into())), Ok(SourceId::Clip("c".into())));
    assert_eq!(source_of_row(Some(4), Some("c".into())), Err(AppError::InternalError));
    assert_eq!(source_of_row(None, None), Err(AppError::InternalError));
    assert_eq!(stored_bytes(None), Ok(None));
    assert_eq!(stored_bytes(Some(10)), Ok(Some(10)));
    assert_eq!(stored_bytes(Some(-1)), Err(AppError::InternalError));
    assert_eq!(required_bytes(Some(0)), Ok(0));
    assert_eq!(required_bytes(None), Err(AppError::InternalError));
}

#[test]
fn cache_trim_stops_once_under_the_cap() {
    let order_ms = [3i64, 1, 2];
    let bytes = [4u64, 5, 3];
    let (mut total, mut removed) = (12u64, 0u64);
    let mut go_on = over_cap(total, 6);
    let mut visited = 0;
    for index in eviction_order(&order_ms) {
        if !go_on {
            break;
        }
        visited += 1;
        (total, removed, go_on) = cache_cap_step(total, removed, 6, bytes[index], true);
    }
    assert_eq!((visited, removed, total), (2, 2, 4));
    assert_eq!(cache_cap_step(10, 0, 6, 5, false), (10, 0, true));
    assert!(!over_cap(6, 6));
}
