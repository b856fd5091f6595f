//! Clip exports: the request key that makes an export idempotent, who may
//! overwrite a composed clip, admission to the bounded export queue, what
//! the status route reports, and the arguments of a worker process.

use vstd::prelude::*;
use crate::errors::AppError;
use crate::names::{is_valid_clip_id, valid_clip_id};
use crate::text::{chars_equal, chars_of, dec, string_of};

verus! {

/// The answer to an accepted export: queued, with the job's id.
#[derive(Debug)]
pub struct ComposeClipAccepted {
    pub status: String,
    pub progress: i16,
    pub id: String,
}

/// An accepted export of job `id`.
pub fn compose_clip_accepted(id: String) -> (r: ComposeClipAccepted)
    ensures
        r.status@ == "processing"@,
        r.progress == 0,
        r.id == id,
{
    ComposeClipAccepted { status: string_of(&chars_of("processing")), progress: 0, id }
}

/// The state of an export job as its owner sees it.
#[derive(Debug)]
pub struct ComposeClipStatus {
    pub status: String,
    pub stage: String,
    pub progress: i16,
    pub error: Option<String>,
    pub result_clip_id: Option<String>,
}

/// The status of a job: the clip it produced is named only once it is
/// ready.
pub fn composition_status(
    state: String,
    stage: String,
    progress: i16,
    error: Option<String>,
    result_clip_id: String,
) -> (r: ComposeClipStatus)
    ensures
        r.status == state,
        r.stage == stage,
        r.progress == progress,
        r.error == error,
        r.result_clip_id == (if state@ == "ready"@ {
            Some(result_clip_id)
        } else {
            None::<String>
        }),
{
    let ready = chars_equal(&chars_of(state.as_str()), &chars_of("ready"));
    ComposeClipStatus {
        status: state,
        stage,
        progress,
        error,
        result_clip_id: if ready {
            Some(result_clip_id)
        } else {
            None
        },
    }
}

pub open spec fn is_key_char(c: char) -> bool {
    ('a' <= c && c <= 'z') || ('A' <= c && c <= 'Z') || ('0' <= c && c <= '9') || c == '-'
}

/// A usable request key: 1 to 128 ASCII letters, digits or hyphens.
pub open spec fn valid_export_key(k: Seq<char>) -> bool {
    &&& 0 < k.len() <= 128
    &&& forall|i: int| 0 <= i < k.len() ==> is_key_char(#[trigger] k[i])
}

pub open spec fn is_lower_hex(c: char) -> bool {
    ('0' <= c && c <= '9') || ('a' <= c && c <= 'f')
}

pub open spec fn is_hex(c: char) -> bool {
    is_lower_hex(c) || ('A' <= c && c <= 'F')
}

pub open spec fn is_hyphen_position(i: int) -> bool {
    i == 8 || i == 13 || i == 18 || i == 23
}

/// The hyphenated text of a UUID: 36 characters, hyphens at 8, 13, 18 and
/// 23, hexadecimal digits elsewhere.
pub open spec fn hyphenated_uuid(s: Seq<char>) -> bool {
    &&& s.len() == 36
    &&& forall|i: int|
        0 <= i < 36 ==> (if is_hyphen_position(i) {
            #[trigger] s[i] == '-'
        } else {
            is_hex(s[i])
        })
}

/// The text of a fresh random UUID: hyphenated, lowercase, version 4 and
/// the RFC 4122 variant.
pub open spec fn fresh_uuid_text(s: Seq<char>) -> bool {
    &&& hyphenated_uuid(s)
    &&& forall|i: int| 0 <= i < 36 && !is_hyphen_position(i) ==> is_lower_hex(#[trigger] s[i])
    &&& s[14] == '4'
    &&& (s[19] == '8' || s[19] == '9' || s[19] == 'a' || s[19] == 'b')
}

/// `uuid::Uuid::new_v4().to_string()`. The crate draws the bits at random
/// and formats them hyphenated in lowercase, with the version nibble 4 and
/// the RFC 4122 variant; which UUID comes out is not stated.
#[verifier::external_body]
pub(crate) fn new_uuid_text() -> (s: String)
    ensures
        fresh_uuid_text(s@),
{
    uuid::Uuid::new_v4().to_string()
}

/// The request key of an export: the `Idempotency-Key` header when one is
/// sent (`Some(None)` when its value is not visible ASCII), else a fresh
/// UUID. A key that is empty, longer than 128, or holds anything but ASCII
/// letters, digits and hyphens is refused.
pub fn export_request_key(header: Option<Option<&str>>) -> (r: Result<String, AppError>)
    ensures
        match header {
            None => r matches Ok(k) && fresh_uuid_text(k@),
            Some(None) => r matches Err(AppError::BadRequest(m)) && m@ == "Invalid export request key"@,
            Some(Some(h)) => if valid_export_key(h@) {
                r matches Ok(k) && k@ == h@
            } else {
                r matches Err(AppError::BadRequest(m)) && m@ == "Invalid export request key"@
            },
        },
        r matches Ok(k) ==> valid_export_key(k@),
{
    match header {
        None => {
            let k = new_uuid_text();
            assert forall|i: int| 0 <= i < k@.len() implies is_key_char(#[trigger] k@[i]) by {
                if !is_hyphen_position(i) {
                    assert(is_lower_hex(k@[i]));
                }
            }
            Ok(k)
        },
        Some(None) => Err(AppError::BadRequest(string_of(&chars_of("Invalid export request key")))),
        Some(Some(h)) => {
            let cs = chars_of(h);
            if cs.len() == 0 || cs.len() > 128 {
                return Err(AppError::BadRequest(string_of(&chars_of("Invalid export request key"))));
            }
            let mut i: usize = 0;
            while i < cs.len()
                invariant
                    i <= cs@.len(),
                    cs@ == h@,
                    header == Some(Some(h)),
                    0 < cs@.len() <= 128,
                    forall|j: int| 0 <= j < i ==> is_key_char(#[trigger] cs@[j]),
                decreases cs.len() - i,
            {
                let c = cs[i];
                if !(('a' <= c && c <= 'z') || ('A' <= c && c <= 'Z') || ('0' <= c && c <= '9') || c == '-') {
                    return Err(AppError::BadRequest(string_of(&chars_of("Invalid export request key"))));
                }
                i = i + 1;
            }
            Ok(string_of(&cs))
        },
    }
}

/// Whether an overwrite needs the manager check: only a composed clip can
/// be overwritten, and only its owner may do so without being a manager.
/// `Ok(true)` means the requester is not the owner.
pub fn overwrite_permission(original_file_name: Option<&str>, owner: Option<i64>, user_id: i64) -> (r: Result<
    bool,
    AppError,
>)
    ensures
        match original_file_name {
            Some(n) if n@ == "compose"@ => r == Ok::<bool, AppError>(owner != Some(user_id)),
            _ => r matches Err(AppError::BadRequest(m)) && m@ == "Only composed clips can be overwritten"@,
        },
{
    let composed = match original_file_name {
        Some(n) => chars_equal(&chars_of(n), &chars_of("compose")),
        None => false,
    };
    if !composed {
        return Err(AppError::BadRequest(string_of(&chars_of("Only composed clips can be overwritten"))));
    }
    Ok(match owner {
        Some(o) => o != user_id,
        None => true,
    })
}

/// The clip an export replaces: it keeps its id; its stored file is
/// replaced; its name is kept when the export names none.
#[derive(Debug)]
pub struct ComposeOverwrite {
    pub clip_id: String,
    pub old_saved_file_name: String,
    pub fallback_name: Option<String>,
}

/// The overwrite target; a clip without a stored file cannot be found.
pub fn overwrite_target(clip_id: String, saved_file_name: Option<String>, name: Option<String>) -> (r: Result<
    ComposeOverwrite,
    AppError,
>)
    ensures
        match saved_file_name {
            Some(s) => r matches Ok(o) && o.clip_id == clip_id && o.old_saved_file_name == s && o.fallback_name
                == name,
            None => r matches Err(AppError::ClipNotFound),
        },
{
    match saved_file_name {
        Some(s) => Ok(ComposeOverwrite { clip_id, old_saved_file_name: s, fallback_name: name }),
        None => Err(AppError::ClipNotFound),
    }
}

/// Exports queued or running at once, over all users.
pub const EXPORT_QUEUE_CAPACITY: i64 = 100;

/// Exports queued or running at once for one user.
pub const EXPORTS_PER_USER: i64 = 3;

/// What becomes of a submitted export.
#[derive(Clone, Copy, Debug, PartialEq, Eq, Structural)]
pub enum QueueAdmission {
    /// The same request was already submitted under this key: its job answers.
    Existing,
    /// A new job is queued.
    Enqueue,
}

/// A key reused with the same request answers with its job, a key reused
/// with another request is a conflict; a new request waits for room in the
/// queue. `previous_matches` says whether a job under this key exists and
/// holds the same request.
pub fn queue_admission(previous_matches: Option<bool>, total: i64, owned: i64) -> (r: Result<
    QueueAdmission,
    AppError,
>)
    ensures
        match previous_matches {
            Some(true) => r == Ok::<QueueAdmission, AppError>(QueueAdmission::Existing),
            Some(false) => r matches Err(AppError::Conflict(m)) && m@
                == "This export request key was already used for a different edit"@,
            None => if total >= EXPORT_QUEUE_CAPACITY || owned >= EXPORTS_PER_USER {
                r matches Err(AppError::ServiceUnavailable(m)) && m@
                    == "Export queue is full; try again after an export finishes"@
            } else {
                r == Ok::<QueueAdmission, AppError>(QueueAdmission::Enqueue)
            },
        },
{
    match previous_matches {
        Some(true) => Ok(QueueAdmission::Existing),
        Some(false) => Err(
            AppError::Conflict(string_of(&chars_of("This export request key was already used for a different edit"))),
        ),
        None => if total >= EXPORT_QUEUE_CAPACITY || owned >= EXPORTS_PER_USER {
            Err(AppError::ServiceUnavailable(
                string_of(&chars_of("Export queue is full; try again after an export finishes")),
            ))
        } else {
            Ok(QueueAdmission::Enqueue)
        },
    }
}

/// The id of the clip an export produces: the overwritten clip's, or a
/// fresh UUID.
pub fn result_clip_id(overwrite: Option<&ComposeOverwrite>) -> (r: String)
    ensures
        match overwrite {
            Some(o) => r@ == o.clip_id@,
            None => fresh_uuid_text(r@),
        },
{
    match overwrite {
        Some(o) => string_of(&chars_of(o.clip_id.as_str())),
        None => new_uuid_text(),
    }
}

pub open spec fn lower_ascii(c: char) -> char {
    if 'A' <= c && c <= 'Z' {
        ((c as u32) + 32) as char
    } else {
        c
    }
}

/// What `uuid::Uuid::parse_str` accepts: 32 hex digits, the hyphenated
/// form, the hyphenated form in braces, or it behind `urn:uuid:` in any
/// case.
pub open spec fn uuid_text(s: Seq<char>) -> bool {
    ||| (s.len() == 32 && forall|i: int| 0 <= i < 32 ==> is_hex(#[trigger] s[i]))
    ||| hyphenated_uuid(s)
    ||| (s.len() == 38 && s[0] == '{' && s[37] == '}' && hyphenated_uuid(s.subrange(1, 37)))
    ||| (s.len() == 45 && s.subrange(0, 9).map_values(|c: char| lower_ascii(c)) == "urn:uuid:"@
        && hyphenated_uuid(s.subrange(9, 45)))
}

/// `uuid::Uuid::parse_str(s).is_ok()`. The crate's parser takes the input
/// as bytes; a character outside ASCII never matches any of its forms, so
/// over characters it accepts exactly `uuid_text`.
#[verifier::external_body]
fn parses_as_uuid(s: &str) -> (b: bool)
    ensures
        b == uuid_text(s@),
{
    uuid::Uuid::parse_str(s).is_ok()
}

/// A worker process is started with exactly a job id and an attempt
/// token, both UUIDs.
pub fn check_worker_arguments(arguments: &[String]) -> (r: Result<(), AppError>)
    ensures
        r is Ok <==> (arguments@.len() == 2 && forall|i: int|
            0 <= i < 2 ==> uuid_text(#[trigger] arguments@[i]@)),
        r matches Err(e) ==> (e matches AppError::BadRequest(m) && m@ == "Expected job id and attempt token"@),
{
    if arguments.len() != 2 || !parses_as_uuid(arguments[0].as_str()) || !parses_as_uuid(arguments[1].as_str()) {
        return Err(AppError::BadRequest(string_of(&chars_of("Expected job id and attempt token"))));
    }
    Ok(())
}

/// What a renewal attempt of a running export's lease came to.
#[derive(Clone, Copy, Debug, PartialEq, Eq, Structural)]
pub enum LeaseRenewal {
    Renewed,
    /// The database answered that the lease is no longer held.
    Lost,
    /// The database failed or did not answer in time.
    Failed,
}

/// A supervisor keeps its worker running through failed renewals (the
/// lease outlives several heartbeats) and stops it once the lease is lost.
pub fn heartbeat_outcome(renewal: LeaseRenewal) -> (r: Option<AppError>)
    ensures
        match renewal {
            LeaseRenewal::Lost => r matches Some(AppError::Conflict(m)) && m@ == "Export lease lost"@,
            _ => r is None,
        },
{
    match renewal {
        LeaseRenewal::Lost => Some(AppError::Conflict(string_of(&chars_of("Export lease lost")))),
        _ => None,
    }
}

/// The most segments an export may hold.
pub const MAX_SEGMENTS: usize = 200;

/// The highest track number of an export.
pub const MAX_TRACKS: i32 = 32;

fn bad_request(prefix: &Vec<char>, rest: &str) -> (e: AppError)
    ensures
        e matches AppError::BadRequest(m) && m@ == prefix@ + rest@,
{
    let mut v: Vec<char> = Vec::new();
    crate::text::push_all(&mut v, prefix);
    crate::text::push_str(&mut v, rest);
    AppError::BadRequest(string_of(&v))
}

/// An export holds 1 to `MAX_SEGMENTS` segments.
pub fn check_segment_count(count: usize) -> (r: Result<(), AppError>)
    ensures
        r is Ok <==> (1 <= count <= MAX_SEGMENTS),
        r matches Err(e) ==> (e matches AppError::BadRequest(m) && m@
            == "Composition must contain between 1 and 200 segments"@),
{
    if count == 0 || count > MAX_SEGMENTS {
        return Err(AppError::BadRequest(string_of(&chars_of("Composition must contain between 1 and 200 segments"))));
    }
    Ok(())
}

/// The clip an export overwrites must have a usable id.
pub fn check_overwrite_clip_id(overwrite_clip_id: Option<&str>) -> (r: Result<(), AppError>)
    ensures
        r is Ok <==> (overwrite_clip_id matches Some(id) ==> valid_clip_id(id@)),
        r matches Err(e) ==> (e matches AppError::BadRequest(m) && m@ == "Invalid overwrite clip id"@),
{
    match overwrite_clip_id {
        Some(id) => if !is_valid_clip_id(id) {
            return Err(AppError::BadRequest(string_of(&chars_of("Invalid overwrite clip id"))));
        },
        None => {},
    }
    Ok(())
}

/// Mute flags cover at most the tracks `0..=MAX_TRACKS`.
pub fn check_muted_tracks(count: usize) -> (r: Result<(), AppError>)
    ensures
        r is Ok <==> count <= 33,
        r matches Err(e) ==> (e matches AppError::BadRequest(m) && m@
            == "muted_tracks cannot contain more than 33 tracks"@),
{
    if count > 33 {
        return Err(AppError::BadRequest(string_of(&chars_of("muted_tracks cannot contain more than 33 tracks"))));
    }
    Ok(())
}

/// What refuses a segment's source and placement, in the order checked:
/// only clips are sources, the source id and merge group must be usable
/// ids, the track within `0..=MAX_TRACKS`.
pub open spec fn segment_source_error(
    source: Seq<char>,
    source_id: Seq<char>,
    track: i32,
    merge_group: Option<Seq<char>>,
) -> Option<Seq<char>> {
    if source != "clip"@ {
        Some("only \"clip\" sources are supported"@)
    } else if !valid_clip_id(source_id) {
        Some("invalid source clip id"@)
    } else if !(0 <= track <= MAX_TRACKS) {
        Some("track must be between 0 and 32"@)
    } else if merge_group matches Some(g) && !valid_clip_id(g) {
        Some("invalid merge group id"@)
    } else {
        None
    }
}

/// The source and placement of segment `index`; an error names the
/// segment.
pub fn check_segment_source(
    index: usize,
    source: &str,
    source_id: &str,
    track: i32,
    merge_group: Option<&str>,
) -> (r: Result<(), AppError>)
    ensures
        match segment_source_error(
            source@,
            source_id@,
            track,
            match merge_group {
                Some(g) => Some(g@),
                None => None,
            },
        ) {
            None => r is Ok,
            Some(m) => r matches Err(AppError::BadRequest(t)) && t@ == "Segment "@ + dec(index as nat) + ": "@ + m,
        },
{
    let mut prefix: Vec<char> = Vec::new();
    crate::text::push_str(&mut prefix, "Segment ");
    crate::text::push_dec(&mut prefix, index as u64);
    crate::text::push_str(&mut prefix, ": ");
    if !chars_equal(&chars_of(source), &chars_of("clip")) {
        return Err(bad_request(&prefix, "only \"clip\" sources are supported"));
    }
    if !is_valid_clip_id(source_id) {
        return Err(bad_request(&prefix, "invalid source clip id"));
    }
    if track < 0 || track > MAX_TRACKS {
        return Err(bad_request(&prefix, "track must be between 0 and 32"));
    }
    match merge_group {
        Some(g) => if !is_valid_clip_id(g) {
            return Err(bad_request(&prefix, "invalid merge group id"));
        },
        None => {},
    }
    Ok(())
}

/// What a render tick reports: the render's progress (none yet reads as
/// 0) kept within 0..=99, as `preparing` until it moves, then `rendering`.
pub fn tick_report(progress: Option<i16>) -> (r: (i16, &'static str))
    ensures
        r.0 == match progress {
            Some(p) => if p < 0 {
                0
            } else if p > 99 {
                99
            } else {
                p
            },
            None => 0,
        },
        r.1@ == (if r.0 == 0 {
            "preparing"@
        } else {
            "rendering"@
        }),
{
    let p: i16 = match progress {
        Some(p) => if p < 0 {
            0
        } else if p > 99 {
            99
        } else {
            p
        },
        None => 0,
    };
    if p == 0 {
        (p, "preparing")
    } else {
        (p, "rendering")
    }
}

/// The temporary storage an export attempt may use: 8 GiB.
pub const DISK_BUDGET: u64 = 8_589_934_592;

/// An attempt whose workspace outgrows the budget is stopped.
pub fn disk_budget_check(workspace_bytes: u64) -> (r: Option<AppError>)
    ensures
        workspace_bytes > DISK_BUDGET ==> (r matches Some(AppError::BadRequest(m)) && m@
            == "Export exceeded the temporary storage budget"@),
        workspace_bytes <= DISK_BUDGET ==> r is None,
{
    if workspace_bytes > DISK_BUDGET {
        return Some(AppError::BadRequest(string_of(&chars_of("Export exceeded the temporary storage budget"))));
    }
    None
}

/// Whether a failed attempt is tried again: not when the request itself is
/// at fault (bad request, conflict, lost access, a deleted clip).
pub open spec fn retryable_failure(e: AppError) -> bool {
    !(e is BadRequest || e is Conflict || e is Forbidden || e is ClipNotFound)
}

/// What the owner is told of a failed attempt.
pub open spec fn failure_message(e: AppError) -> Seq<char> {
    match e {
        AppError::Conflict(m) => m@,
        AppError::BadRequest(m) => m@,
        AppError::Forbidden => "Access to a source clip was removed."@,
        AppError::ClipNotFound => "A source or destination clip was deleted."@,
        _ => "The export could not finish. Check the source clips and retry."@,
    }
}

/// How a failed attempt is recorded: whether it is retried, and its
/// message.
pub fn attempt_failure(error: &AppError) -> (r: (bool, String))
    ensures
        r.0 == retryable_failure(*error),
        r.1@ == failure_message(*error),
{
    match error {
        AppError::Conflict(m) => (false, string_of(&chars_of(m.as_str()))),
        AppError::BadRequest(m) => (false, string_of(&chars_of(m.as_str()))),
        AppError::Forbidden => (false, string_of(&chars_of("Access to a source clip was removed."))),
        AppError::ClipNotFound => (false, string_of(&chars_of("A source or destination clip was deleted."))),
        _ => (true, string_of(&chars_of("The export could not finish. Check the source clips and retry."))),
    }
}

/// A segment's source must still be the file the export was submitted
/// with (`submitted`: the file recorded for this segment, if any).
pub fn check_pinned_source(submitted: Option<&str>, resolved: &str) -> (r: Result<(), AppError>)
    ensures
        r is Ok <==> (submitted matches Some(s) && s@ == resolved@),
        r matches Err(e) ==> (e matches AppError::Conflict(m) && m@
            == "A source clip changed after this export was submitted"@),
{
    let same = match submitted {
        Some(s) => chars_equal(&chars_of(s), &chars_of(resolved)),
        None => false,
    };
    if !same {
        return Err(AppError::Conflict(string_of(&chars_of("A source clip changed after this export was submitted"))));
    }
    Ok(())
}

/// A segment is silenced when its track is muted; tracks without a flag
/// are heard.
pub fn segment_muted(muted_tracks: &[bool], track: usize) -> (b: bool)
    ensures
        b == (track < muted_tracks@.len() && muted_tracks@[track as int]),
{
    if track < muted_tracks.len() {
        muted_tracks[track]
    } else {
        false
    }
}

/// Where a finished export is stored: named by its job and attempt.
pub fn composition_file_name(job_id: &str, token: &str) -> (s: String)
    ensures
        s@ == "compositions/"@ + job_id@ + "-"@ + token@ + ".ogg"@,
{
    let mut v: Vec<char> = Vec::new();
    crate::text::push_str(&mut v, "compositions/");
    crate::text::push_str(&mut v, job_id);
    crate::text::push_str(&mut v, "-");
    crate::text::push_str(&mut v, token);
    crate::text::push_str(&mut v, ".ogg");
    string_of(&v)
}

/// An empty render is a failure.
pub fn check_export_size(size: i64) -> (r: Result<(), AppError>)
    ensures
        r is Ok <==> size != 0,
        r matches Err(e) ==> (e matches AppError::FfmpegError(m) && m@ == "Empty export"@),
{
    if size == 0 {
        return Err(AppError::FfmpegError(string_of(&chars_of("Empty export"))));
    }
    Ok(())
}

} // verus!
