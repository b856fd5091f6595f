use web_server::media_cli::{
    archive_gauges, nonnegative, dry_run_line, parse_ids, parse_media_command, queue_poll_delay_ms, restore_summary, status_lines, terminal_state,
    unavailable_message, usage, verification_summary, ArchiveStatus, EligibleStatus, IdsError, MediaCommand,
};

fn args(words: &[&str]) -> Vec<String> {
    words.iter().map(|w| w.to_string()).collect()
}

#[test]
fn media_commands_are_recognized() {
    assert_eq!(parse_media_command(&args(&["status"])), Ok(MediaCommand::Status));
    assert_eq!(parse_media_command(&args(&["migrate", "--dry-run"])), Ok(MediaCommand::MigrateDryRun));
    assert_eq!(parse_media_command(&args(&["migrate", "--wait"])), Ok(MediaCommand::MigrateWait));
    assert_eq!(parse_media_command(&args(&["verify"])), Ok(MediaCommand::Verify));
    assert_eq!(parse_media_command(&args(&["restore", "--all"])), Ok(MediaCommand::RestoreAll));
    assert_eq!(
        parse_media_command(&args(&["restore", "--audio-file-ids", "3,1"])),
        Ok(MediaCommand::RestoreIds("3,1".into()))
    );
    assert_eq!(parse_media_command(&args(&["status", "extra"])), Err(usage().to_string()));
    assert_eq!(parse_media_command(&args(&[])), Err(usage().to_string()));
}

#[test]
fn restore_ids_are_sorted_and_deduplicated() {
    assert_eq!(parse_ids("3,1,3,2").unwrap(), vec![1, 2, 3]);
    assert_eq!(parse_ids("+7").unwrap(), vec![7]);
}

#[test]
fn restore_ids_must_be_positive_integers() {
    assert_eq!(parse_ids("1,0").unwrap_err(), IdsError::NotPositive);
    assert_eq!(
        parse_ids("1,-2").unwrap_err().message(),
        "--audio-file-ids requires positive comma-separated ids"
    );
    assert!(matches!(parse_ids("1,x"), Err(IdsError::Invalid(_))));
    assert!(matches!(parse_ids(""), Err(IdsError::Invalid(_))));
    assert!(matches!(parse_ids("1,,2"), Err(IdsError::Invalid(_))));
    assert!(matches!(parse_ids("1, 2"), Err(IdsError::Invalid(_))));
    assert_eq!(parse_ids("x").unwrap_err().message(), "invalid digit found in string");
}

#[test]
fn status_reports_are_formatted() {
    let eligible = EligibleStatus { recordings: 4, clips: 2, in_ledger: 5 };
    let status = ArchiveStatus {
        pending_objects: 1,
        pending_bytes: 10,
        uploading_objects: 0,
        available_objects: 3,
        available_bytes: 300,
        missing_objects: 0,
        conflict_objects: 1,
        oldest_backlog_seconds: 7,
    };
    assert_eq!(
        status_lines(&eligible, &status),
        vec![
            "eligible: 4 recording(s), 2 clip(s); tracked: 5".to_string(),
            "pending: 1 object(s), 10 byte(s); uploading: 0; oldest backlog: 7s".to_string(),
            "available: 3 object(s), 300 byte(s); missing: 0; conflict: 1".to_string(),
        ]
    );
    assert_eq!(
        dry_run_line(&eligible),
        "dry run: 4 finalized recording(s) + 2 saved clip(s) = 6 eligible object(s); 5 already tracked"
    );
    assert_eq!(
        terminal_state(&status),
        Err("archive incomplete: 0 missing object(s), 1 conflict object(s)".to_string())
    );
    assert!(terminal_state(&ArchiveStatus::default()).is_ok());
}

#[test]
fn restore_and_verification_summaries() {
    assert_eq!(restore_summary(2, 5), "restore complete: 2 downloaded, 3 already matched, 5 verified");
    assert_eq!(verification_summary(4), "full verification complete for 4 available object(s)");
    assert_eq!(
        unavailable_message(&[3, 9]),
        format!("selected recording(s) are neither local nor available in the archive: {:?}", vec![3, 9])
    );
    assert_eq!(
        unavailable_message(&[]),
        "selected recording(s) are neither local nor available in the archive: []"
    );
}

#[test]
fn queue_wait_is_bounded() {
    assert_eq!(queue_poll_delay_ms(None), 1000);
    assert_eq!(queue_poll_delay_ms(Some(-5)), 100);
    assert_eq!(queue_poll_delay_ms(Some(2_500)), 2_500);
    assert_eq!(queue_poll_delay_ms(Some(60_000)), 15_000);
}

#[test]
fn gauges_never_read_negative() {
    assert_eq!(nonnegative(-3), 0);
    assert_eq!(nonnegative(7), 7);
    let status = ArchiveStatus { pending_objects: 2, uploading_objects: 1, pending_bytes: -1, oldest_backlog_seconds: 9, ..ArchiveStatus::default() };
    assert_eq!(archive_gauges(&status), (3, 0, 9));
}
