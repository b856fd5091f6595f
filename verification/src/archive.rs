//! The media archive: the decisions that move a local recording or clip
//! into verified remote storage, how archived media is served, and the
//! order in which the local cache is trimmed.

use vstd::prelude::*;
use crate::errors::AppError;
use crate::order::{is_stable_order, stable_order};
use crate::text::{chars_of, dec, has_prefix, push_dec, starts_with, string_of};

verus! {

/// How archived media is offered to the browser.
#[derive(Clone, Copy, Debug, PartialEq, Eq, Structural)]
pub enum RemoteDisposition {
    Inline,
    Attachment,
}

impl RemoteDisposition {
    /// The `Content-Disposition` value.
    pub fn header_value(self) -> (s: &'static str)
        ensures
            s@ == match self {
                RemoteDisposition::Inline => "inline"@,
                RemoteDisposition::Attachment => "attachment"@,
            },
    {
        match self {
            RemoteDisposition::Inline => "inline",
            RemoteDisposition::Attachment => "attachment",
        }
    }
}

/// Why archiving an item failed (and is retried later).
#[derive(Debug)]
pub enum ProcessingError {
    Database(String),
    App(AppError),
    Storage(String),
    Local(String),
}

/// What a remote verification of an object reported.
#[derive(Debug)]
pub enum VerifyOutcome {
    /// The object matches the digest; with its entity tag, if any.
    Verified { etag: Option<String> },
    /// The object exists but does not match.
    Integrity(String),
    /// There is no such object.
    NotFound,
    /// Storage failed otherwise.
    Failed(String),
}

/// The next thing to do for an item being archived.
#[derive(Debug)]
pub enum ArchiveStep {
    /// Verify the object recorded for it earlier.
    VerifyExisting,
    /// Hash the local file and go on with uploading.
    HashLocal,
    /// Record the object as uploaded (with its tag) and finish.
    MarkUploadedAndFinish { etag: Option<String> },
    /// Record the object as missing, with why; the item is done.
    MarkMissing(String),
    /// Record a conflict, with why; the item is done.
    MarkConflict(String),
    /// Record the digest and object key before uploading.
    RecordPrepared,
    /// Ask storage whether the object exists.
    Head,
    /// Record the existing object as uploaded, then renew the lease.
    MarkUploadedThenRenew { etag: Option<String> },
    /// Upload the file, record it, then renew the lease.
    UploadThenRenew,
    /// Verify the uploaded object.
    VerifyUploaded,
    /// Mark the item available with this tag.
    Finish { etag: Option<String> },
    /// Give up for now; the item is retried.
    Fail(ProcessingError),
}

fn text(s: &str) -> (r: String)
    ensures
        r@ == s@,
{
    string_of(&chars_of(s))
}

/// Nothing is archived while the archive is disabled.
pub fn require_archive(archive_enabled: bool) -> (r: Result<(), ProcessingError>)
    ensures
        archive_enabled ==> r is Ok,
        !archive_enabled ==> (r matches Err(ProcessingError::Local(m)) && m@ == "archive disabled"@),
{
    if archive_enabled {
        Ok(())
    } else {
        Err(ProcessingError::Local(text("archive disabled")))
    }
}

/// After looking for the local file: hash it when it is there; when it is
/// gone, verify the object recorded earlier, or record the source as
/// missing when nothing was.
pub fn local_checked_step(local_exists: bool, has_recorded_object: bool) -> (s: ArchiveStep)
    ensures
        local_exists ==> (s matches ArchiveStep::HashLocal),
        !local_exists && has_recorded_object ==> (s matches ArchiveStep::VerifyExisting),
        !local_exists && !has_recorded_object ==> (s matches ArchiveStep::MarkMissing(m) && m@
            == "local source file is missing"@),
{
    if local_exists {
        ArchiveStep::HashLocal
    } else if has_recorded_object {
        ArchiveStep::VerifyExisting
    } else {
        ArchiveStep::MarkMissing(text("local source file is missing"))
    }
}

/// After verifying the object recorded for a file that is gone locally.
pub fn existing_verified_step(outcome: VerifyOutcome) -> (s: ArchiveStep)
    ensures
        match outcome {
            VerifyOutcome::Verified { etag } => s == (ArchiveStep::MarkUploadedAndFinish { etag }),
            VerifyOutcome::Integrity(m) => s == ArchiveStep::MarkConflict(m),
            VerifyOutcome::NotFound => s matches ArchiveStep::MarkMissing(m) && m@
                == "local and archived source files are missing"@,
            VerifyOutcome::Failed(m) => s == ArchiveStep::Fail(ProcessingError::Storage(m)),
        },
{
    match outcome {
        VerifyOutcome::Verified { etag } => ArchiveStep::MarkUploadedAndFinish { etag },
        VerifyOutcome::Integrity(m) => ArchiveStep::MarkConflict(m),
        VerifyOutcome::NotFound => ArchiveStep::MarkMissing(text("local and archived source files are missing")),
        VerifyOutcome::Failed(m) => ArchiveStep::Fail(ProcessingError::Storage(m)),
    }
}

/// After hashing: a source whose id cannot form an object key is a
/// conflict.
pub fn hashed_step(key_formed: bool) -> (s: ArchiveStep)
    ensures
        key_formed ==> (s matches ArchiveStep::RecordPrepared),
        !key_formed ==> (s matches ArchiveStep::MarkConflict(m) && m@
            == "source id cannot be represented in opaque object key"@),
{
    if key_formed {
        ArchiveStep::RecordPrepared
    } else {
        ArchiveStep::MarkConflict(text("source id cannot be represented in opaque object key"))
    }
}

/// After recording the digest: bytes that changed since an earlier record
/// are a conflict.
pub fn prepared_step(recorded: bool) -> (s: ArchiveStep)
    ensures
        recorded ==> (s matches ArchiveStep::Head),
        !recorded ==> (s matches ArchiveStep::MarkConflict(m) && m@
            == "local bytes changed after archive metadata was recorded"@),
{
    if recorded {
        ArchiveStep::Head
    } else {
        ArchiveStep::MarkConflict(text("local bytes changed after archive metadata was recorded"))
    }
}

/// After asking for the object: an existing one is recorded as uploaded,
/// otherwise the file is uploaded.
pub fn headed_step(existing: Option<Option<String>>) -> (s: ArchiveStep)
    ensures
        match existing {
            Some(etag) => s == (ArchiveStep::MarkUploadedThenRenew { etag }),
            None => s matches ArchiveStep::UploadThenRenew,
        },
{
    match existing {
        Some(etag) => ArchiveStep::MarkUploadedThenRenew { etag },
        None => ArchiveStep::UploadThenRenew,
    }
}

/// Verification needs the lease still held.
pub fn renewed_step(renewed: bool) -> (s: ArchiveStep)
    ensures
        renewed ==> (s matches ArchiveStep::VerifyUploaded),
        !renewed ==> (s matches ArchiveStep::Fail(ProcessingError::Local(m)) && m@
            == "archive lease lost before verification"@),
{
    if renewed {
        ArchiveStep::VerifyUploaded
    } else {
        ArchiveStep::Fail(ProcessingError::Local(text("archive lease lost before verification")))
    }
}

/// After verifying the uploaded object: finish with the verified tag (or
/// the upload's), record an integrity conflict, or fail.
pub fn uploaded_verified_step(outcome: VerifyOutcome, upload_etag: Option<String>) -> (s: ArchiveStep)
    ensures
        match outcome {
            VerifyOutcome::Verified { etag } => s == (ArchiveStep::Finish {
                etag: match etag {
                    Some(e) => Some(e),
                    None => upload_etag,
                },
            }),
            VerifyOutcome::Integrity(m) => s == ArchiveStep::MarkConflict(m),
            VerifyOutcome::NotFound => s matches ArchiveStep::Fail(ProcessingError::Storage(_)),
            VerifyOutcome::Failed(m) => s == ArchiveStep::Fail(ProcessingError::Storage(m)),
        },
{
    match outcome {
        VerifyOutcome::Verified { etag } => ArchiveStep::Finish {
            etag: match etag {
                Some(e) => Some(e),
                None => upload_etag,
            },
        },
        VerifyOutcome::Integrity(m) => ArchiveStep::MarkConflict(m),
        VerifyOutcome::NotFound => ArchiveStep::Fail(ProcessingError::Storage(text("object not found"))),
        VerifyOutcome::Failed(m) => ArchiveStep::Fail(ProcessingError::Storage(m)),
    }
}

/// Marking the item available needs the lease still held.
pub fn finished_step(marked: bool) -> (r: Result<(), ProcessingError>)
    ensures
        marked ==> r is Ok,
        !marked ==> (r matches Err(ProcessingError::Local(m)) && m@
            == "archive lease lost while marking verification complete"@),
{
    if marked {
        Ok(())
    } else {
        Err(ProcessingError::Local(text("archive lease lost while marking verification complete")))
    }
}

/// How many days a verified file stays cached locally: as configured, or a
/// week.
pub fn local_retention_days(configured: Option<i32>) -> (d: i32)
    ensures
        d == match configured {
            Some(v) => v,
            None => 7,
        },
{
    match configured {
        Some(v) => v,
        None => 7,
    }
}

/// Archived media is served only while storage agrees with the ledger: the
/// same size and the recorded digest.
pub fn remote_metadata_matches(remote_bytes: u64, remote_sha256: Option<&str>, expected_bytes: u64, sha256: &str) -> (b:
    bool)
    ensures
        b == (remote_bytes == expected_bytes && match remote_sha256 {
            Some(s) => s@ == sha256@,
            None => false,
        }),
{
    remote_bytes == expected_bytes && match remote_sha256 {
        Some(s) => crate::text::chars_equal(&chars_of(s), &chars_of(sha256)),
        None => false,
    }
}

/// Whether a text can stand as an HTTP header value: tabs, and no control
/// character otherwise.
pub open spec fn header_value_text(s: Seq<char>) -> bool {
    forall|i: int| 0 <= i < s.len() ==> ((#[trigger] s[i] as u32) >= 32 && s[i] != '\u{7f}') || s[i] == '\t'
}

/// `actix_web::http::header::HeaderValue::from_str(s).is_ok()`. The crate
/// accepts a text when each of its bytes is a tab or at least 32 and not
/// 127; the bytes of a character outside ASCII are all at least 128.
#[verifier::external_body]
fn is_header_value(s: &str) -> (b: bool)
    ensures
        b == header_value_text(s@),
{
    actix_web::http::header::HeaderValue::from_str(s).is_ok()
}

/// The status and headers of a response that streams archived media.
#[derive(Debug)]
pub struct RemoteResponseHead {
    pub status: u16,
    pub headers: Vec<(String, String)>,
}

pub open spec fn header_texts(h: Seq<(String, String)>) -> Seq<(Seq<char>, Seq<char>)> {
    h.map_values(|p: (String, String)| (p.0@, p.1@))
}

/// What a response for archived media carries: 206 with the range's length
/// and `Content-Range` when a range (its length and `Content-Range` text) was
/// asked for, else 200 with the whole length; always byte ranges, Ogg audio
/// and the disposition; the entity tag when it can stand as a header value.
pub open spec fn remote_head_spec(
    range: Option<(u64, Seq<char>)>,
    total: u64,
    etag: Option<Seq<char>>,
    disposition: RemoteDisposition,
) -> (u16, Seq<(Seq<char>, Seq<char>)>) {
    let length: u64 = match range {
        Some(r) => r.0,
        None => total,
    };
    let base = seq![
        ("accept-ranges"@, "bytes"@),
        ("content-type"@, "audio/ogg"@),
        ("content-disposition"@, match disposition {
            RemoteDisposition::Inline => "inline"@,
            RemoteDisposition::Attachment => "attachment"@,
        }),
        ("content-length"@, dec(length as nat)),
    ];
    let with_range = match range {
        Some(r) => base.push(("content-range"@, r.1)),
        None => base,
    };
    let headers = match etag {
        Some(e) if header_value_text(e) => with_range.push(("etag"@, e)),
        _ => with_range,
    };
    (if range is Some { 206 } else { 200 }, headers)
}

fn header(v: &mut Vec<(String, String)>, name: &str, value: String)
    ensures
        header_texts(final(v)@) == header_texts(old(v)@).push((name@, value@)),
{
    let ghost before = v@;
    v.push((string_of(&chars_of(name)), value));
    assert(header_texts(v@) =~= header_texts(before).push((name@, value@)));
}

/// The head of a response for archived media.
pub fn remote_response_head(
    range: Option<(u64, String)>,
    total: u64,
    etag: Option<&str>,
    disposition: RemoteDisposition,
) -> (r: RemoteResponseHead)
    ensures
        (r.status, header_texts(r.headers@)) == remote_head_spec(
            match range {
                Some(p) => Some((p.0, p.1@)),
                None => None,
            },
            total,
            match etag {
                Some(e) => Some(e@),
                None => None,
            },
            disposition,
        ),
{
    let mut headers: Vec<(String, String)> = Vec::new();
    header(&mut headers, "accept-ranges", string_of(&chars_of("bytes")));
    header(&mut headers, "content-type", string_of(&chars_of("audio/ogg")));
    header(&mut headers, "content-disposition", string_of(&chars_of(disposition.header_value())));
    let length = match &range {
        Some(r) => r.0,
        None => total,
    };
    let mut digits: Vec<char> = Vec::new();
    push_dec(&mut digits, length);
    header(&mut headers, "content-length", string_of(&digits));
    let status: u16 = match range {
        Some(r) => {
            header(&mut headers, "content-range", r.1);
            206
        },
        None => 200,
    };
    match etag {
        Some(e) => if is_header_value(e) {
            header(&mut headers, "etag", string_of(&chars_of(e)));
        },
        None => {},
    }
    RemoteResponseHead { status, headers }
}

/// A directory of the local cache that is evicted whole: a live stream's
/// segments (`hls-`) or a channel mix (`mix-`); other directories are
/// walked into.
pub fn is_evictable_cache_dir(name: &str) -> (b: bool)
    ensures
        b == (starts_with(name@, "hls-"@) || starts_with(name@, "mix-"@)),
{
    let cs = chars_of(name);
    has_prefix(&cs, &chars_of("hls-")) || has_prefix(&cs, &chars_of("mix-"))
}

/// A directory of a recording's live stream, which the sweep removes once
/// it has not changed for `HLS_MAX_AGE_MS`; other directories are walked
/// into.
pub fn is_hls_dir(name: &str) -> (b: bool)
    ensures
        b == starts_with(name@, "hls-"@),
{
    has_prefix(&chars_of(name), &chars_of("hls-"))
}

/// Live-stream directories older than a week are removed.
pub const HLS_MAX_AGE_MS: u64 = 604_800_000;

/// Whether something last changed `age_ms` ago (`None`: unreadable, or in
/// the future) is older than `max_age_ms`; what cannot be dated is kept.
pub fn older_than(age_ms: Option<u64>, max_age_ms: u64) -> (b: bool)
    ensures
        b == (age_ms matches Some(a) && a > max_age_ms),
{
    match age_ms {
        Some(a) => a > max_age_ms,
        None => false,
    }
}

/// `2^n`.
pub open spec fn pow2(n: nat) -> nat
    decreases n,
{
    if n == 0 {
        1
    } else {
        2 * pow2((n - 1) as nat)
    }
}

/// The doubling step of the retry delay: attempts past the first, at most 8.
pub open spec fn backoff_exponent(attempts: i32) -> nat {
    if attempts - 1 < 0 {
        0
    } else if attempts - 1 > 8 {
        8
    } else {
        (attempts - 1) as nat
    }
}

/// The base delay before retrying an upload: 15 s doubled per earlier
/// attempt, at most an hour.
pub open spec fn backoff_base(attempts: i32) -> u64 {
    let b = 15 * pow2(backoff_exponent(attempts));
    if b > 3600 {
        3600
    } else {
        b as u64
    }
}

/// The most jitter added to a base delay: half of it, at least a second.
pub open spec fn max_jitter(base: u64) -> u64 {
    if base / 2 > 1 {
        base / 2
    } else {
        1
    }
}

fn base_delay(attempts: i32) -> (b: u64)
    ensures
        b == backoff_base(attempts),
        15 <= b <= 3600,
{
    let e: u32 = if attempts <= 1 {
        0
    } else if attempts > 9 {
        8
    } else {
        (attempts - 1) as u32
    };
    let mut b: u64 = 15;
    let mut i: u32 = 0;
    while i < e
        invariant
            i <= e <= 8,
            e == backoff_exponent(attempts),
            b == 15 * pow2(i as nat),
            b <= 15 * 256,
        decreases e - i,
    {
        proof {
            lemma_pow2_bound(i as nat);
        }
        b = b * 2;
        i = i + 1;
    }
    proof {
        lemma_pow2_bound(e as nat);
    }
    if b > 3600 {
        3600
    } else {
        b
    }
}

proof fn lemma_pow2_bound(n: nat)
    requires
        n <= 8,
    ensures
        1 <= pow2(n) <= 256,
        n < 8 ==> pow2(n) <= 128,
{
    reveal_with_fuel(pow2, 9);
    assert(pow2(0) == 1 && pow2(1) == 2 && pow2(2) == 4 && pow2(3) == 8 && pow2(4) == 16);
    assert(pow2(5) == 32 && pow2(6) == 64 && pow2(7) == 128 && pow2(8) == 256);
}

/// The retry delay for a failed upload, in seconds, given the jitter drawn.
pub fn backoff_delay_seconds(attempts: i32, jitter: u64) -> (d: i64)
    requires
        jitter <= max_jitter(backoff_base(attempts)),
    ensures
        d == backoff_base(attempts) + jitter,
{
    let base = base_delay(attempts);
    (base + jitter) as i64
}

/// `fastrand::u64(low..=high)`: a number drawn from the thread's
/// generator, within the range; which one is not stated. The crate panics
/// only on an empty range.
#[verifier::external_body]
fn random_in(low: u64, high: u64) -> (r: u64)
    requires
        low <= high,
    ensures
        low <= r <= high,
{
    fastrand::u64(low..=high)
}

/// How long a failed upload waits before its next attempt: the base delay
/// plus a random jitter of up to half of it, so retries spread out.
pub fn retry_delay_seconds(attempts: i32) -> (d: i64)
    ensures
        backoff_base(attempts) <= d <= backoff_base(attempts) + max_jitter(backoff_base(attempts)),
{
    let base = base_delay(attempts);
    let most: u64 = if base / 2 > 1 {
        base / 2
    } else {
        1
    };
    let jitter = random_in(0, most);
    backoff_delay_seconds(attempts, jitter)
}

/// What an archived object holds: a recording or a saved clip.
#[derive(Clone, Debug, PartialEq, Eq)]
pub enum SourceId {
    Recording(i64),
    Clip(String),
}

/// A ledger row names exactly one source; anything else is a fault.
pub fn source_of_row(audio_file_id: Option<i64>, clip_id: Option<String>) -> (r: Result<SourceId, AppError>)
    ensures
        match (audio_file_id, clip_id) {
            (Some(id), None) => r == Ok::<SourceId, AppError>(SourceId::Recording(id)),
            (None, Some(id)) => r == Ok::<SourceId, AppError>(SourceId::Clip(id)),
            _ => r == Err::<SourceId, AppError>(AppError::InternalError),
        },
{
    match (audio_file_id, clip_id) {
        (Some(id), None) => Ok(SourceId::Recording(id)),
        (None, Some(id)) => Ok(SourceId::Clip(id)),
        _ => Err(AppError::InternalError),
    }
}

/// A stored byte count; a negative one is a fault.
pub fn stored_bytes(bytes: Option<i64>) -> (r: Result<Option<u64>, AppError>)
    ensures
        match bytes {
            None => r == Ok::<Option<u64>, AppError>(None),
            Some(b) => if b >= 0 {
                r == Ok::<Option<u64>, AppError>(Some(b as u64))
            } else {
                r == Err::<Option<u64>, AppError>(AppError::InternalError)
            },
        },
{
    match bytes {
        None => Ok(None),
        Some(b) => if b >= 0 {
            Ok(Some(b as u64))
        } else {
            Err(AppError::InternalError)
        },
    }
}

/// A byte count that must be stored.
pub fn required_bytes(bytes: Option<i64>) -> (r: Result<u64, AppError>)
    ensures
        match bytes {
            Some(b) if b >= 0 => r == Ok::<u64, AppError>(b as u64),
            _ => r == Err::<u64, AppError>(AppError::InternalError),
        },
{
    match stored_bytes(bytes) {
        Ok(Some(b)) => Ok(b),
        _ => Err(AppError::InternalError),
    }
}

/// The order in which cache entries are evicted: oldest first, entries of
/// equal age in the order found.
pub fn eviction_order(order_ms: &[i64]) -> (r: Vec<usize>)
    ensures
        is_stable_order(order_ms@.map_values(|t: i64| (t, 0i64)), r@),
        r@.len() == order_ms@.len(),
{
    let mut keys: Vec<(i64, i64)> = Vec::new();
    let mut i: usize = 0;
    while i < order_ms.len()
        invariant
            i <= order_ms@.len(),
            keys@ == order_ms@.take(i as int).map_values(|t: i64| (t, 0i64)),
        decreases order_ms.len() - i,
    {
        keys.push((order_ms[i], 0));
        assert(keys@ =~= order_ms@.take(i + 1).map_values(|t: i64| (t, 0i64)));
        i = i + 1;
    }
    assert(order_ms@.take(order_ms@.len() as int) =~= order_ms@);
    stable_order(&keys)
}

/// The cache size and eviction count after trying to evict an entry of
/// `bytes` bytes (`evicted` says whether it was there to remove).
pub fn after_eviction(total: u64, removed: u64, bytes: u64, evicted: bool) -> (r: (u64, u64))
    ensures
        evicted ==> r == ((if total >= bytes {
            (total - bytes) as u64
        } else {
            0u64
        }), (if removed < u64::MAX {
            (removed + 1) as u64
        } else {
            u64::MAX
        })),
        !evicted ==> r == (total, removed),
{
    if evicted {
        (total.saturating_sub(bytes), removed.saturating_add(1))
    } else {
        (total, removed)
    }
}

/// Eviction goes on only while the cache is over its cap.
pub fn over_cap(total: u64, max_bytes: u64) -> (b: bool)
    ensures
        b == (total > max_bytes),
{
    total > max_bytes
}

/// One step of trimming the cache to `max_bytes`: the entry of `bytes`
/// bytes, oldest first, was removed (`evicted`) or was already gone; the
/// new total and eviction count, and whether the next entry is to be
/// tried. A cache at or under its cap is left alone.
pub fn cache_cap_step(total: u64, removed: u64, max_bytes: u64, bytes: u64, evicted: bool) -> (r: (u64, u64, bool))
    requires
        total > max_bytes,
    ensures
        (r.0, r.1) == (if evicted {
            ((if total >= bytes {
                (total - bytes) as u64
            } else {
                0u64
            }), (if removed < u64::MAX {
                (removed + 1) as u64
            } else {
                u64::MAX
            }))
        } else {
            (total, removed)
        }),
        r.2 == (r.0 > max_bytes),
        r.0 <= total,
{
    let (t, n) = after_eviction(total, removed, bytes, evicted);
    (t, n, over_cap(t, max_bytes))
}

} // verus!
