use web_server::clip_exports::{
    attempt_failure, check_export_size, check_pinned_source, composition_file_name, disk_budget_check,
    segment_muted, tick_report, DISK_BUDGET,
    check_muted_tracks, check_overwrite_clip_id, check_segment_count, check_segment_source, MAX_SEGMENTS,
    check_worker_arguments, compose_clip_accepted, composition_status, export_request_key, heartbeat_outcome,
    overwrite_permission, overwrite_target, queue_admission, result_clip_id, LeaseRenewal, QueueAdmission,
};
use web_server::errors::AppError;

fn bad_request(r: Result<String, AppError>) -> String {
    match r {
        Err(AppError::BadRequest(m)) => m,
        other => panic!("expected a bad request, got {other:?}"),
    }
}

#[test]
fn export_key_comes_from_the_header_or_a_fresh_uuid() {
    assert_eq!(export_request_key(Some(Some("abc-DEF-123"))).unwrap(), "abc-DEF-123");
    let fresh = export_request_key(None).unwrap();
    assert_eq!(fresh.len(), 36);
    assert_eq!(&fresh[14..15], "4");
    assert!(fresh.bytes().all(|b| b == b'-' || b.is_ascii_digit() || (b'a'..=b'f').contains(&b)));
    assert_ne!(fresh, export_request_key(None).unwrap());
}

#[test]
fn malformed_export_keys_are_refused() {
    assert_eq!(bad_request(export_request_key(Some(None))), "Invalid export request key");
    assert_eq!(bad_request(export_request_key(Some(Some("")))), "Invalid export request key");
    assert_eq!(bad_request(export_request_key(Some(Some("has space")))), "Invalid export request key");
    assert_eq!(bad_request(export_request_key(Some(Some("é")))), "Invalid export request key");
    let long = "a".repeat(129);
    assert_eq!(bad_request(export_request_key(Some(Some(&long)))), "Invalid export request key");
    let limit = "a".repeat(128);
    assert_eq!(export_request_key(Some(Some(&limit))).unwrap(), limit);
}

#[test]
fn only_composed_clips_are_overwritten() {
    assert_eq!(overwrite_permission(Some("compose"), Some(7), 7).unwrap(), false);
    assert_eq!(overwrite_permission(Some("compose"), Some(8), 7).unwrap(), true);
    assert_eq!(overwrite_permission(Some("compose"), None, 7).unwrap(), true);
    for name in [Some("upload.ogg"), None] {
        match overwrite_permission(name, Some(7), 7) {
            Err(AppError::BadRequest(m)) => assert_eq!(m, "Only composed clips can be overwritten"),
            other => panic!("expected a bad request, got {other:?}"),
        }
    }
}

#[test]
fn overwrite_keeps_the_clip_id_and_needs_its_file() {
    let target = overwrite_target("target".into(), Some("old.ogg".into()), None).unwrap();
    assert_eq!(target.clip_id, "target");
    assert_eq!(target.old_saved_file_name, "old.ogg");
    assert_eq!(target.fallback_name, None);
    assert!(matches!(overwrite_target("target".into(), None, None), Err(AppError::ClipNotFound)));
    assert_eq!(result_clip_id(Some(&target)), "target");
    assert_eq!(result_clip_id(None).len(), 36);
}

#[test]
fn queue_bounds_new_exports_but_answers_repeated_keys() {
    assert_eq!(queue_admission(None, 0, 0).unwrap(), QueueAdmission::Enqueue);
    assert_eq!(queue_admission(None, 99, 2).unwrap(), QueueAdmission::Enqueue);
    assert!(matches!(queue_admission(None, 100, 0), Err(AppError::ServiceUnavailable(_))));
    match queue_admission(None, 3, 3) {
        Err(AppError::ServiceUnavailable(m)) => {
            assert_eq!(m, "Export queue is full; try again after an export finishes")
        }
        other => panic!("expected the queue to be full, got {other:?}"),
    }
    assert_eq!(queue_admission(Some(true), 100, 3).unwrap(), QueueAdmission::Existing);
    match queue_admission(Some(false), 0, 0) {
        Err(AppError::Conflict(m)) => {
            assert_eq!(m, "This export request key was already used for a different edit")
        }
        other => panic!("expected a conflict, got {other:?}"),
    }
}

#[test]
fn status_names_the_result_only_when_ready() {
    let ready = composition_status("ready".into(), "done".into(), 100, None, "target".into());
    assert_eq!(ready.result_clip_id.as_deref(), Some("target"));
    let queued = composition_status("queued".into(), "retrying".into(), 10, Some("Transient".into()), "x".into());
    assert_eq!(queued.result_clip_id, None);
    assert_eq!(queued.status, "queued");
    assert_eq!(queued.error.as_deref(), Some("Transient"));
    let accepted = compose_clip_accepted("job".into());
    assert_eq!((accepted.status.as_str(), accepted.progress, accepted.id.as_str()), ("processing", 0, "job"));
}

#[test]
fn worker_needs_a_job_id_and_token() {
    let id = "550e8400-e29b-41d4-a716-446655440000".to_string();
    let token = "{550E8400-E29B-41D4-A716-446655440000}".to_string();
    assert!(check_worker_arguments(&[id.clone(), token.clone()]).is_ok());
    assert!(check_worker_arguments(&[id.clone(), "urn:uuid:550e8400-e29b-41d4-a716-446655440000".into()]).is_ok());
    assert!(check_worker_arguments(&[id.clone(), "550e8400e29b41d4a716446655440000".into()]).is_ok());
    match check_worker_arguments(&[id.clone()]) {
        Err(AppError::BadRequest(m)) => assert_eq!(m, "Expected job id and attempt token"),
        other => panic!("expected a bad request, got {other:?}"),
    }
    assert!(check_worker_arguments(&[id.clone(), "not-a-uuid".into()]).is_err());
    assert!(check_worker_arguments(&[id.clone(), token, "extra".into()]).is_err());
}

#[test]
fn only_a_lost_lease_stops_the_worker() {
    assert!(heartbeat_outcome(LeaseRenewal::Renewed).is_none());
    assert!(heartbeat_outcome(LeaseRenewal::Failed).is_none());
    match heartbeat_outcome(LeaseRenewal::Lost) {
        Some(AppError::Conflict(m)) => assert_eq!(m, "Export lease lost"),
        other => panic!("expected a conflict, got {other:?}"),
    }
}

/// The structural checks of an edit, in the order the server makes them,
/// for segments given as (source, source id, track, merge group).
fn structure(overwrite: Option<&str>, segments: &[(&str, &str, i32, Option<&str>)]) -> Result<(), AppError> {
    check_segment_count(segments.len())?;
    check_overwrite_clip_id(overwrite)?;
    check_muted_tracks(0)?;
    for (index, (source, id, track, group)) in segments.iter().enumerate() {
        check_segment_source(index, source, id, *track, *group)?;
    }
    Ok(())
}

const SEGMENT: (&str, &str, i32, Option<&str>) = ("clip", "abc", 0, None);

#[test]
fn clip_editor_rejects_empty_and_oversized_compositions() {
    assert!(structure(None, &[]).is_err());
    assert!(structure(None, &vec![SEGMENT; MAX_SEGMENTS + 1]).is_err());
}

#[test]
fn tests_rejects_empty_and_oversized_compositions() {
    assert!(check_segment_count(0).is_err());
    assert!(check_segment_count(MAX_SEGMENTS + 1).is_err());
    assert!(check_segment_count(MAX_SEGMENTS).is_ok());
}

#[test]
fn accepts_plain_composed_clip_overwrite_ids() {
    assert!(structure(Some("abc-123"), &[SEGMENT]).is_ok());
}

#[test]
fn rejects_unsafe_overwrite_clip_ids() {
    for id in ["", "../secret", "a/b", "a\\b", "a\nb"] {
        assert!(structure(Some(id), &[SEGMENT]).is_err(), "id {id:?} was accepted");
    }
}

#[test]
fn clip_editor_rejects_non_clip_sources() {
    assert!(structure(None, &[("session", "abc", 0, None)]).is_err());
}

#[test]
fn tests_rejects_non_clip_sources() {
    match check_segment_source(0, "session", "abc", 0, None) {
        Err(AppError::BadRequest(m)) => assert_eq!(m, "Segment 0: only \"clip\" sources are supported"),
        other => panic!("expected a bad request, got {other:?}"),
    }
}

#[test]
fn clip_editor_rejects_invalid_merge_group_ids() {
    assert!(structure(None, &[("clip", "abc", 0, Some("../escape"))]).is_err());
    assert!(structure(None, &[("clip", "abc", 0, Some(""))]).is_err());
}

#[test]
fn tests_rejects_invalid_merge_group_ids() {
    match check_segment_source(3, "clip", "abc", 0, Some("../escape")) {
        Err(AppError::BadRequest(m)) => assert_eq!(m, "Segment 3: invalid merge group id"),
        other => panic!("expected a bad request, got {other:?}"),
    }
    assert!(check_segment_source(3, "clip", "abc", 0, Some("")).is_err());
}

#[test]
fn segment_checks_name_the_first_problem() {
    let msg = |r: Result<(), AppError>| match r {
        Err(AppError::BadRequest(m)) => m,
        other => panic!("expected a bad request, got {other:?}"),
    };
    assert_eq!(msg(check_segment_source(1, "clip", "../x", 40, None)), "Segment 1: invalid source clip id");
    assert_eq!(msg(check_segment_source(1, "clip", "x", 33, None)), "Segment 1: track must be between 0 and 32");
    assert_eq!(msg(check_segment_source(1, "clip", "x", -1, None)), "Segment 1: track must be between 0 and 32");
    assert!(check_segment_source(1, "clip", "x", 32, Some("group-1")).is_ok());
    assert_eq!(msg(check_muted_tracks(34)), "muted_tracks cannot contain more than 33 tracks");
    assert!(check_muted_tracks(33).is_ok());
    assert_eq!(msg(check_overwrite_clip_id(Some("a/b"))), "Invalid overwrite clip id");
    assert_eq!(msg(check_segment_count(0)), "Composition must contain between 1 and 200 segments");
}

#[test]
fn render_ticks_report_stage_and_bounded_progress() {
    assert_eq!(tick_report(None), (0, "preparing"));
    assert_eq!(tick_report(Some(-4)), (0, "preparing"));
    assert_eq!(tick_report(Some(37)), (37, "rendering"));
    assert_eq!(tick_report(Some(140)), (99, "rendering"));
}

#[test]
fn attempts_stop_at_the_disk_budget() {
    assert!(disk_budget_check(DISK_BUDGET).is_none());
    match disk_budget_check(DISK_BUDGET + 1) {
        Some(AppError::BadRequest(m)) => assert_eq!(m, "Export exceeded the temporary storage budget"),
        other => panic!("expected a bad request, got {other:?}"),
    }
}

#[test]
fn failures_are_classified_for_retry() {
    assert_eq!(attempt_failure(&AppError::Conflict("Export lease lost".into())), (false, "Export lease lost".to_string()));
    assert_eq!(attempt_failure(&AppError::Forbidden), (false, "Access to a source clip was removed.".to_string()));
    assert_eq!(attempt_failure(&AppError::ClipNotFound), (false, "A source or destination clip was deleted.".to_string()));
    assert_eq!(
        attempt_failure(&AppError::InternalError),
        (true, "The export could not finish. Check the source clips and retry.".to_string())
    );
}

#[test]
fn export_sources_and_outputs_are_checked() {
    assert!(check_pinned_source(Some("a.ogg"), "a.ogg").is_ok());
    assert!(matches!(check_pinned_source(Some("a.ogg"), "b.ogg"), Err(AppError::Conflict(_))));
    assert!(check_pinned_source(None, "a.ogg").is_err());
    assert!(segment_muted(&[false, true], 1));
    assert!(!segment_muted(&[false, true], 5));
    assert_eq!(composition_file_name("job", "tok"), "compositions/job-tok.ogg");
    assert!(matches!(check_export_size(0), Err(AppError::FfmpegError(m)) if m == "Empty export"));
    assert!(check_export_size(10).is_ok());
}
