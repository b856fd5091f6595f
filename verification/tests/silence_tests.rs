use web_server::errors::AppError;
use web_server::silence::{
    ffmpeg_result, handle_idempotency_key, job_outcome, replay_job_result, silence_free_file, silence_removal_args,
    source_file, waited_job_result,
};
use web_server::silence_jobs::{SilenceJobClaim, SilenceJobFailure, SilenceJobState};

#[test]
fn idempotency_replays_completed_result() {
    let mut jobs = SilenceJobState::new();
    let fingerprint = "1/2/2026/06/recording";
    assert!(matches!(jobs.claim(7, "request-1".into(), fingerprint, 0), Ok(SilenceJobClaim::Start)));
    jobs.finish(fingerprint, &Ok(()), 10);
    assert!(matches!(jobs.claim(7, "request-1".into(), fingerprint, 20), Ok(SilenceJobClaim::Replay(Ok(())))));
}

#[test]
fn idempotency_rejects_key_reuse_for_different_recording() {
    let mut jobs = SilenceJobState::new();
    assert!(matches!(jobs.claim(7, "request-1".into(), "recording-a", 0), Ok(SilenceJobClaim::Start)));
    assert!(matches!(jobs.claim(7, "request-1".into(), "recording-b", 1), Err(AppError::Conflict(_))));
}

#[test]
fn concurrent_keys_share_same_recording_job() {
    let mut jobs = SilenceJobState::new();
    assert!(matches!(jobs.claim(7, "request-1".into(), "recording-a", 0), Ok(SilenceJobClaim::Start)));
    assert!(matches!(jobs.claim(7, "request-2".into(), "recording-a", 1), Ok(SilenceJobClaim::Wait)));
}

#[test]
fn finished_results_expire_after_a_day() {
    let mut jobs = SilenceJobState::new();
    assert!(matches!(jobs.claim(7, "k".into(), "rec", 0), Ok(SilenceJobClaim::Start)));
    jobs.finish("rec", &Err(SilenceJobFailure::Ffmpeg("boom".into())), 1_000);
    match jobs.claim(7, "k".into(), "rec", 1_000 + 86_399_999) {
        Ok(SilenceJobClaim::Replay(Err(SilenceJobFailure::Ffmpeg(m)))) => assert_eq!(m, "boom"),
        other => panic!("expected a replayed failure, got {other:?}"),
    }
    assert!(matches!(jobs.claim(7, "k".into(), "rec", 1_000 + 86_400_000), Ok(SilenceJobClaim::Start)));
}

#[test]
fn ffmpeg_nonzero_exit_is_failure() {
    assert!(matches!(ffmpeg_result(true, b"", "exit status: 0"), Ok(())));
    match ffmpeg_result(false, b"invalid input", "exit status: 1") {
        Err(SilenceJobFailure::Ffmpeg(m)) => assert_eq!(m, "invalid input"),
        other => panic!("unexpected {other:?}"),
    }
    match ffmpeg_result(false, b"  \n", "exit status: 1") {
        Err(SilenceJobFailure::Ffmpeg(m)) => assert_eq!(m, "ffmpeg exited with exit status: 1"),
        other => panic!("unexpected {other:?}"),
    }
    let long = vec![b'e'; 5_000];
    match ffmpeg_result(false, &long, "exit status: 1") {
        Err(SilenceJobFailure::Ffmpeg(m)) => assert_eq!(m.len(), 4_096),
        other => panic!("unexpected {other:?}"),
    }
}

#[test]
fn job_outcome_requires_the_database_update() {
    assert!(matches!(job_outcome(Ok(()), true), Ok(())));
    assert!(matches!(job_outcome(Ok(()), false), Err(SilenceJobFailure::Database)));
    assert!(matches!(job_outcome(Err(SilenceJobFailure::Io("x".into())), true), Err(SilenceJobFailure::Io(_))));
}

#[test]
fn replies_carry_the_file_or_the_error() {
    let ok = replay_job_result(Ok(()), "/f.ogg".into()).unwrap();
    assert_eq!((ok.url.as_str(), ok.message), ("/f.ogg", "Request already completed"));
    assert!(matches!(replay_job_result(Err(SilenceJobFailure::Database), "/f".into()), Err(AppError::InternalError)));
    let waited = waited_job_result(Some(Ok(())), "/f.ogg".into()).unwrap();
    assert_eq!(waited.message, "Success");
    assert!(matches!(waited_job_result(None, "/f".into()), Err(AppError::ServiceUnavailable(m)) if m == "processing result unavailable; retry"));
}

#[test]
fn silence_free_paths_and_command() {
    assert_eq!(silence_free_file("/ns/1/2", "rec"), "/ns/1/2/_no_silence_rec.ogg");
    assert_eq!(source_file("/r/1/2", "rec"), "/r/1/2/rec.ogg");
    assert_eq!(
        silence_removal_args("/in.ogg", "/out.ogg"),
        vec!["-y", "-i", "/in.ogg", "-af", "silenceremove=stop_periods=-1:stop_duration=1:stop_threshold=-40dB", "/out.ogg"]
    );
}

#[test]
fn idempotency_key_is_trimmed() {
    assert_eq!(handle_idempotency_key(Some(Some(" request-123 "))).unwrap(), "request-123");
}

#[test]
fn idempotency_key_rejects_empty_values() {
    assert!(handle_idempotency_key(Some(Some("   "))).is_err());
    assert!(matches!(handle_idempotency_key(None), Err(AppError::BadRequest(m)) if m == "Idempotency key is missing"));
    assert!(matches!(handle_idempotency_key(Some(None)), Err(AppError::BadRequest(m)) if m == "No value in Idempotency header"));
    let long = "k".repeat(256);
    assert!(matches!(handle_idempotency_key(Some(Some(&long))), Err(AppError::BadRequest(m)) if m == "Idempotency key exceeds 255 bytes"));
}

#[test]
fn a_running_render_is_never_started_again() {
    let mut jobs = SilenceJobState::new();
    assert!(matches!(jobs.claim(7, "request-1".into(), "recording-a", 0), Ok(SilenceJobClaim::Start)));
    assert!(matches!(jobs.claim(8, "other".into(), "recording-b", 1), Ok(SilenceJobClaim::Start)));
    assert!(matches!(jobs.claim(7, "request-2".into(), "recording-a", 2), Ok(SilenceJobClaim::Wait)));
    assert!(matches!(jobs.claim(9, "request-3".into(), "recording-a", 3), Ok(SilenceJobClaim::Wait)));
    assert!(matches!(jobs.claim(7, "request-1".into(), "recording-a", 4), Ok(SilenceJobClaim::Wait)));
    assert!(matches!(jobs.claim(7, "request-2".into(), "recording-b", 5), Err(AppError::Conflict(_))));
}
