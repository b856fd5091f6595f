//! The background jobs of a logical session (its silence-free copy and its
//! waveforms): where their results live and what their status routes say.

use vstd::prelude::*;
use crate::errors::AppError;
use crate::session::SessionAccess;
use crate::clip_exports::{fresh_uuid_text, new_uuid_text};
use crate::mix_plan::current_year_month;
use crate::text::{
    chars_equal, chars_of, dec_int, dec_padded, join_path, path_join, push_all, push_dec_i64, push_dec_padded, push_str,
    string_of,
};

verus! {

/// The state of a session's silence removal.
#[derive(Debug)]
pub struct SilenceFreeSessionResponse {
    pub status: String,
    pub progress: i16,
}

/// A silence-removal status.
pub fn silence_removal_response(status: &str, progress: i16) -> (r: SilenceFreeSessionResponse)
    ensures
        r.status@ == status@,
        r.progress == progress,
{
    SilenceFreeSessionResponse { status: string_of(&chars_of(status)), progress }
}

pub open spec fn clamp99(v: i16) -> i16 {
    if v < 0 {
        0
    } else if v > 99 {
        99
    } else {
        v
    }
}

/// What the status route reports: a failed job (negative progress), a job
/// under way, a finished copy, or nothing yet.
pub open spec fn removal_status_spec(progress: Option<i16>, output_exists: bool) -> (Seq<char>, i16) {
    match progress {
        Some(v) => if v < 0 {
            ("failed"@, 0)
        } else {
            ("processing"@, clamp99(v))
        },
        None => if output_exists {
            ("ready"@, 100)
        } else {
            ("idle"@, 0)
        },
    }
}

fn clamp_progress(v: i16) -> (r: i16)
    ensures
        r == clamp99(v),
{
    if v < 0 {
        0
    } else if v > 99 {
        99
    } else {
        v
    }
}

/// The silence-removal status of a session, from its stored progress and
/// whether the silence-free copy exists.
pub fn silence_removal_status(progress: Option<i16>, output_exists: bool) -> (r: SilenceFreeSessionResponse)
    ensures
        (r.status@, r.progress) == removal_status_spec(progress, output_exists),
{
    match progress {
        Some(v) => if v < 0 {
            silence_removal_response("failed", 0)
        } else {
            silence_removal_response("processing", clamp_progress(v))
        },
        None => if output_exists {
            silence_removal_response("ready", 100)
        } else {
            silence_removal_response("idle", 0)
        },
    }
}

/// What a request to remove a session's silence leads to.
#[derive(Clone, Copy, Debug, PartialEq, Eq, Structural)]
pub enum RemovalStart {
    /// A job is under way: answer 202 with its progress.
    Processing(i16),
    /// The copy exists and no replacement is forced: answer 200, ready.
    Ready,
    /// Start a job.
    Start,
}

/// A job under way is never started twice; an existing copy is reused
/// unless `force`.
pub fn silence_removal_start(progress: Option<i16>, force: bool, output_exists: bool) -> (r: RemovalStart)
    ensures
        r == match progress {
            Some(v) if v >= 0 => RemovalStart::Processing(clamp99(v)),
            _ => if !force && output_exists {
                RemovalStart::Ready
            } else {
                RemovalStart::Start
            },
        },
{
    match progress {
        Some(v) if v >= 0 => RemovalStart::Processing(clamp_progress(v)),
        _ => if !force && output_exists {
            RemovalStart::Ready
        } else {
            RemovalStart::Start
        },
    }
}

/// The silence-free copy of a finalized session: named by the session and
/// its start and end, under `logical_sessions` in `no_silence_root`.
pub open spec fn silence_free_path_spec(no_silence_root: Seq<char>, access: SessionAccess) -> Result<Seq<char>, Seq<char>> {
    if access.state@ != "finalized"@ {
        Err("Silence removal is available after the recording is finalized"@)
    } else {
        match access.ended_at_ms {
            None => Err("Finalized recording has no end timestamp"@),
            Some(end) => Ok(
                path_join(
                    path_join(no_silence_root, "logical_sessions"@),
                    dec_int(access.session_id as int) + "-"@ + dec_int(access.started_at_ms as int) + "-"@
                        + dec_int(end as int) + ".ogg"@,
                ),
            ),
        }
    }
}

/// Where a session's silence-free copy is kept.
pub fn session_silence_free_path(no_silence_root: &str, access: &SessionAccess) -> (r: Result<String, AppError>)
    ensures
        match silence_free_path_spec(no_silence_root@, *access) {
            Ok(p) => r matches Ok(s) && s@ == p,
            Err(m) => r matches Err(AppError::BadRequest(e)) && e@ == m,
        },
{
    if !chars_equal(&chars_of(access.state.as_str()), &chars_of("finalized")) {
        return Err(AppError::BadRequest(
            string_of(&chars_of("Silence removal is available after the recording is finalized")),
        ));
    }
    let end = match access.ended_at_ms {
        Some(e) => e,
        None => {
            return Err(AppError::BadRequest(string_of(&chars_of("Finalized recording has no end timestamp"))));
        },
    };
    let dir = join_path(&chars_of(no_silence_root), &chars_of("logical_sessions"));
    let mut leaf: Vec<char> = Vec::new();
    push_dec_i64(&mut leaf, access.session_id);
    push_str(&mut leaf, "-");
    push_dec_i64(&mut leaf, access.started_at_ms);
    push_str(&mut leaf, "-");
    push_dec_i64(&mut leaf, end);
    push_str(&mut leaf, ".ogg");
    Ok(string_of(&join_path(&dir, &leaf)))
}

/// A waveform status: progress, whether it is being built, and the peaks
/// (base64) once built.
#[derive(Debug)]
pub struct SessionWaveformResponse {
    pub progress: i16,
    pub building: bool,
    pub data: Option<String>,
}

/// What the waveform status route does.
#[derive(Clone, Copy, Debug, PartialEq, Eq, Structural)]
pub enum WaveformStatus {
    /// The last build failed: forget it and answer an internal error.
    Failed,
    /// A build is under way at this progress.
    Building(i16),
    /// Serve the built file.
    Built,
    /// Nothing is built or building.
    Idle,
}

pub open spec fn min99(v: i16) -> i16 {
    if v > 99 {
        99
    } else {
        v
    }
}

/// The waveform status from the stored progress and whether the file exists.
pub fn waveform_status(progress: Option<i16>, output_exists: bool) -> (s: WaveformStatus)
    ensures
        s == match progress {
            Some(v) => if v < 0 {
                WaveformStatus::Failed
            } else {
                WaveformStatus::Building(min99(v))
            },
            None => if output_exists {
                WaveformStatus::Built
            } else {
                WaveformStatus::Idle
            },
        },
{
    match progress {
        Some(v) => if v < 0 {
            WaveformStatus::Failed
        } else {
            WaveformStatus::Building(if v > 99 {
                99
            } else {
                v
            })
        },
        None => if output_exists {
            WaveformStatus::Built
        } else {
            WaveformStatus::Idle
        },
    }
}

/// A rebuild is started unless one is under way (a failed one is
/// forgotten first): `Some(p)` answers with the running build's progress.
pub fn waveform_rebuild(progress: Option<i16>) -> (r: Option<i16>)
    ensures
        r == match progress {
            Some(v) if v >= 0 => Some(min99(v)),
            _ => None::<i16>,
        },
{
    match progress {
        Some(v) if v >= 0 => Some(if v > 99 {
            99
        } else {
            v
        }),
        _ => None,
    }
}

/// The base64 digit of a 6-bit value: `A`-`Z`, `a`-`z`, `0`-`9`, `+`, `/`.
pub open spec fn base64_digit(v: int) -> char {
    if v < 26 {
        (65 + v) as char
    } else if v < 52 {
        (97 + v - 26) as char
    } else if v < 62 {
        (48 + v - 52) as char
    } else if v == 62 {
        '+'
    } else {
        '/'
    }
}

/// The standard base64 text of some bytes: each group of three bytes as
/// four digits, a last group of one or two bytes padded with `=`.
pub open spec fn base64_standard(b: Seq<u8>) -> Seq<char>
    decreases b.len(),
{
    if b.len() == 0 {
        Seq::empty()
    } else {
        let x = b[0] as int;
        let y = if b.len() > 1 {
            b[1] as int
        } else {
            0
        };
        let z = if b.len() > 2 {
            b[2] as int
        } else {
            0
        };
        let first = base64_digit(x / 4);
        let second = base64_digit((x % 4) * 16 + y / 16);
        if b.len() == 1 {
            seq![first, second, '=', '=']
        } else if b.len() == 2 {
            seq![first, second, base64_digit((y % 16) * 4), '=']
        } else {
            seq![first, second, base64_digit((y % 16) * 4 + z / 64), base64_digit(z % 64)] + base64_standard(
                b.subrange(3, b.len() as int),
            )
        }
    }
}

/// `base64::engine::general_purpose::STANDARD.encode(bytes)`: the standard
/// alphabet with padding, which `base64_standard` spells out. The crate
/// panics only when the output size overflows, which the bound excludes.
#[verifier::external_body]
fn encode_base64(bytes: &[u8]) -> (s: String)
    requires
        bytes@.len() <= usize::MAX / 2,
    ensures
        s@ == base64_standard(bytes@),
        s@.len() == (bytes@.len() + 2) / 3 * 4,
{
    base64::Engine::encode(&base64::engine::general_purpose::STANDARD, bytes)
}

/// The status of a built waveform: complete, with its peaks in base64.
pub fn waveform_file_response(bytes: &[u8]) -> (r: SessionWaveformResponse)
    requires
        bytes@.len() <= usize::MAX / 2,
    ensures
        r.progress == 100,
        !r.building,
        r.data matches Some(d) && d@ == base64_standard(bytes@),
{
    SessionWaveformResponse { progress: 100, building: false, data: Some(encode_base64(bytes)) }
}

/// What a clip cut from a session is called and where it is stored: under
/// the year and month it was made, named by its id.
#[derive(Debug)]
pub struct SessionClipNames {
    pub clip_id: String,
    pub year_dir: String,
    pub month_dir: String,
    pub saved_file_name: String,
    pub original_file_name: String,
    pub name: String,
}

pub open spec fn session_clip_names_spec(
    r: SessionClipNames,
    session_id: i64,
    silence_free: bool,
    requested_name: Option<String>,
    year: i32,
    month: u32,
) -> bool {
    &&& r.year_dir@ == dec_int(year as int)
    &&& r.month_dir@ == dec_padded(month as int, 2)
    &&& r.saved_file_name@ == r.year_dir@ + "/"@ + r.month_dir@ + "/"@ + r.clip_id@ + ".ogg"@
    &&& r.original_file_name@ == (if silence_free {
        "session-silence-free:"@
    } else {
        "session:"@
    }) + dec_int(session_id as int)
    &&& r.name@ == match requested_name {
        Some(n) => n@,
        None => "session-"@ + dec_int(session_id as int),
    }
}

/// The names of a clip `clip_id` cut from a session in `year` and `month`:
/// the requested name, else `session-<id>`; the source says whether it came
/// from the silence-free copy.
pub fn session_clip_names(
    session_id: i64,
    silence_free: bool,
    requested_name: Option<String>,
    year: i32,
    month: u32,
    clip_id: String,
) -> (r: SessionClipNames)
    ensures
        r.clip_id == clip_id,
        session_clip_names_spec(r, session_id, silence_free, requested_name, year, month),
{
    let mut y: Vec<char> = Vec::new();
    push_dec_i64(&mut y, year as i64);
    let mut m: Vec<char> = Vec::new();
    push_dec_padded(&mut m, month as i64, 2);
    let mut saved: Vec<char> = Vec::new();
    push_all(&mut saved, &y);
    push_str(&mut saved, "/");
    push_all(&mut saved, &m);
    push_str(&mut saved, "/");
    push_str(&mut saved, clip_id.as_str());
    push_str(&mut saved, ".ogg");
    let mut original: Vec<char> = Vec::new();
    if silence_free {
        push_str(&mut original, "session-silence-free:");
    } else {
        push_str(&mut original, "session:");
    }
    push_dec_i64(&mut original, session_id);
    let name = match requested_name {
        Some(n) => n,
        None => {
            let mut v: Vec<char> = Vec::new();
            push_str(&mut v, "session-");
            push_dec_i64(&mut v, session_id);
            string_of(&v)
        },
    };
    SessionClipNames {
        clip_id,
        year_dir: string_of(&y),
        month_dir: string_of(&m),
        saved_file_name: string_of(&saved),
        original_file_name: string_of(&original),
        name,
    }
}

/// The names of a new session clip: a fresh UUID, made this month.
pub fn new_session_clip_names(session_id: i64, silence_free: bool, requested_name: Option<String>) -> (r:
    SessionClipNames)
    ensures
        fresh_uuid_text(r.clip_id@),
        exists|year: i32, month: u32|
            1 <= month <= 12 && session_clip_names_spec(r, session_id, silence_free, requested_name, year, month),
{
    let (year, month) = current_year_month();
    let id = new_uuid_text();
    session_clip_names(session_id, silence_free, requested_name, year, month, id)
}

} // verus!
