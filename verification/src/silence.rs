//! Silence removal of one recording: where the silence-free copy goes, the
//! FFmpeg command, how its outcome is judged, and what a client is told.

use vstd::prelude::*;
use crate::errors::AppError;
use crate::silence_jobs::{copy_result, result_view, ResultView, SilenceJobFailure, SilenceJobResult};
use crate::text::{chars_of, push_str, string_of, trim, trim_chars};

verus! {

/// The answer to a silence-removal request: where the silence-free file is
/// served from, and how the request went.
#[derive(Debug)]
pub struct RemoveSilenceResponse {
    pub url: String,
    pub message: &'static str,
}

/// The silence-free copy of recording `stem` in directory `dir`.
pub open spec fn silence_free_file_spec(dir: Seq<char>, stem: Seq<char>) -> Seq<char> {
    dir + "/"@ + "_no_silence_"@ + stem + ".ogg"@
}

/// The silence-free copy of a recording.
pub fn silence_free_file(no_silence_dir: &str, stem: &str) -> (s: String)
    ensures
        s@ == silence_free_file_spec(no_silence_dir@, stem@),
{
    let mut v = chars_of(no_silence_dir);
    push_str(&mut v, "/");
    push_str(&mut v, "_no_silence_");
    push_str(&mut v, stem);
    push_str(&mut v, ".ogg");
    string_of(&v)
}

/// The recording itself.
pub fn source_file(recording_dir: &str, stem: &str) -> (s: String)
    ensures
        s@ == recording_dir@ + "/"@ + stem@ + ".ogg"@,
{
    let mut v = chars_of(recording_dir);
    push_str(&mut v, "/");
    push_str(&mut v, stem);
    push_str(&mut v, ".ogg");
    string_of(&v)
}

pub open spec fn texts(v: Seq<String>) -> Seq<Seq<char>> {
    v.map_values(|s: String| s@)
}

/// The FFmpeg arguments that write a silence-free copy, overwriting a
/// stale one: every pause of a second or more below -40 dB removed.
pub fn silence_removal_args(source: &str, output: &str) -> (r: Vec<String>)
    ensures
        texts(r@) == seq![
            "-y"@,
            "-i"@,
            source@,
            "-af"@,
            "silenceremove=stop_periods=-1:stop_duration=1:stop_threshold=-40dB"@,
            output@,
        ],
{
    let mut v: Vec<String> = Vec::new();
    v.push(string_of(&chars_of("-y")));
    v.push(string_of(&chars_of("-i")));
    v.push(string_of(&chars_of(source)));
    v.push(string_of(&chars_of("-af")));
    v.push(string_of(&chars_of("silenceremove=stop_periods=-1:stop_duration=1:stop_threshold=-40dB")));
    v.push(string_of(&chars_of(output)));
    assert(texts(v@) =~= seq![
        "-y"@,
        "-i"@,
        source@,
        "-af"@,
        "silenceremove=stop_periods=-1:stop_duration=1:stop_threshold=-40dB"@,
        output@,
    ]);
    v
}

/// The text `String::from_utf8_lossy` makes of bytes: invalid sequences
/// become U+FFFD.
pub uninterp spec fn utf8_lossy(bytes: Seq<u8>) -> Seq<char>;

/// `String::from_utf8_lossy(bytes).into_owned()`. Its result is named by
/// `utf8_lossy`; as std documents, valid UTF-8 comes back as the text it
/// encodes.
#[verifier::external_body]
pub(crate) fn lossy_text(bytes: &[u8]) -> (s: String)
    ensures
        s@ == utf8_lossy(bytes@),
        vstd::utf8::valid_utf8(bytes@) ==> s@ == vstd::utf8::decode_utf8(bytes@),
{
    String::from_utf8_lossy(bytes).into_owned()
}

/// At most this many bytes of FFmpeg's error output are reported.
pub const MAX_FFMPEG_ERROR_BYTES: usize = 4096;

/// The failure message of an FFmpeg run that did not succeed: the start of
/// its error output, trimmed, or its exit status when that is empty.
pub open spec fn ffmpeg_failure_text(stderr: Seq<u8>, status_text: Seq<char>) -> Seq<char> {
    let shown = if stderr.len() <= 4096 {
        stderr
    } else {
        stderr.take(4096)
    };
    let message = trim(utf8_lossy(shown));
    if message.len() == 0 {
        "ffmpeg exited with "@ + status_text
    } else {
        message
    }
}

/// The outcome of the FFmpeg run; `status_text` is how its exit status
/// prints.
pub fn ffmpeg_result(success: bool, stderr: &[u8], status_text: &str) -> (r: SilenceJobResult)
    ensures
        success ==> result_view(r) is None,
        !success ==> (r matches Err(SilenceJobFailure::Ffmpeg(m)) && m@ == ffmpeg_failure_text(stderr@, status_text@)),
{
    if success {
        return Ok(());
    }
    let n = if stderr.len() <= MAX_FFMPEG_ERROR_BYTES {
        stderr.len()
    } else {
        MAX_FFMPEG_ERROR_BYTES
    };
    let mut shown: Vec<u8> = Vec::new();
    let mut i: usize = 0;
    while i < n
        invariant
            i <= n,
            n <= stderr@.len(),
            shown@ == stderr@.take(i as int),
        decreases n - i,
    {
        shown.push(stderr[i]);
        assert(shown@ =~= stderr@.take(i + 1));
        i = i + 1;
    }
    proof {
        if stderr@.len() <= 4096 {
            assert(shown@ =~= stderr@);
        }
    }
    let message = trim_chars(&chars_of(lossy_text(shown.as_slice()).as_str()));
    if message.len() == 0 {
        let mut v = chars_of("ffmpeg exited with ");
        push_str(&mut v, status_text);
        Err(SilenceJobFailure::Ffmpeg(string_of(&v)))
    } else {
        Err(SilenceJobFailure::Ffmpeg(string_of(&message)))
    }
}

/// The outcome of a render job: a successful render counts once the
/// recording is marked silence-free in the database (`marked`).
pub fn job_outcome(render: SilenceJobResult, marked: bool) -> (r: SilenceJobResult)
    ensures
        result_view(render) is Some ==> result_view(r) == result_view(render),
        result_view(render) is None && marked ==> result_view(r) is None,
        result_view(render) is None && !marked ==> (r matches Err(SilenceJobFailure::Database)),
{
    match render {
        Ok(()) => if marked {
            Ok(())
        } else {
            Err(SilenceJobFailure::Database)
        },
        Err(f) => Err(f),
    }
}

/// The answer to a request that already finished: its result again.
pub fn replay_job_result(result: SilenceJobResult, file_no_silence: String) -> (r: Result<
    RemoveSilenceResponse,
    AppError,
>)
    ensures
        match result {
            Ok(_) => r matches Ok(resp) && resp.url == file_no_silence && resp.message@
                == "Request already completed"@,
            Err(f) => r matches Err(e) && e == match f {
                SilenceJobFailure::Ffmpeg(m) => AppError::FfmpegError(m),
                SilenceJobFailure::Database => AppError::InternalError,
                SilenceJobFailure::Io(m) => AppError::IoError(m),
            },
        },
{
    match result {
        Ok(()) => Ok(RemoveSilenceResponse { url: file_no_silence, message: "Request already completed" }),
        Err(f) => Err(f.into_app_error()),
    }
}

/// The answer to a request that waited on another's render: its result,
/// or a retryable error when the result could not be received (`None`).
pub fn waited_job_result(received: Option<SilenceJobResult>, file_no_silence: String) -> (r: Result<
    RemoveSilenceResponse,
    AppError,
>)
    ensures
        match received {
            Some(Ok(_)) => r matches Ok(resp) && resp.url == file_no_silence && resp.message@ == "Success"@,
            Some(Err(f)) => r matches Err(e) && e == match f {
                SilenceJobFailure::Ffmpeg(m) => AppError::FfmpegError(m),
                SilenceJobFailure::Database => AppError::InternalError,
                SilenceJobFailure::Io(m) => AppError::IoError(m),
            },
            None => r matches Err(AppError::ServiceUnavailable(m)) && m@ == "processing result unavailable; retry"@,
        },
{
    match received {
        Some(Ok(())) => Ok(RemoveSilenceResponse { url: file_no_silence, message: "Success" }),
        Some(Err(f)) => Err(f.into_app_error()),
        None => Err(AppError::ServiceUnavailable(string_of(&chars_of("processing result unavailable; retry")))),
    }
}

/// The idempotency key a request carries: the header's value, trimmed;
/// refused when the header is missing (`None`), not visible ASCII
/// (`Some(None)`), blank, or longer than 255 bytes.
pub open spec fn idempotency_key_spec(header: Option<Option<Seq<char>>>) -> Result<Seq<char>, Seq<char>> {
    match header {
        None => Err("Idempotency key is missing"@),
        Some(None) => Err("No value in Idempotency header"@),
        Some(Some(v)) => {
            let t = trim(v);
            if t.len() == 0 {
                Err("Idempotency key is empty"@)
            } else if vstd::utf8::encode_utf8(t).len() > 255 {
                Err("Idempotency key exceeds 255 bytes"@)
            } else {
                Ok(t)
            }
        },
    }
}

/// Reads the idempotency key from the header's value.
pub fn handle_idempotency_key(header: Option<Option<&str>>) -> (r: Result<String, AppError>)
    ensures
        match idempotency_key_spec(
            match header {
                None => None,
                Some(None) => Some(None),
                Some(Some(v)) => Some(Some(v@)),
            },
        ) {
            Ok(k) => r matches Ok(s) && s@ == k,
            Err(m) => r matches Err(AppError::BadRequest(e)) && e@ == m,
        },
{
    match header {
        None => Err(AppError::BadRequest(string_of(&chars_of("Idempotency key is missing")))),
        Some(None) => Err(AppError::BadRequest(string_of(&chars_of("No value in Idempotency header")))),
        Some(Some(v)) => {
            let t = trim_chars(&chars_of(v));
            if t.len() == 0 {
                return Err(AppError::BadRequest(string_of(&chars_of("Idempotency key is empty"))));
            }
            let key = string_of(&t);
            let ks = key.as_str();
            let n = ks.as_bytes().len();
            proof {
                assert(ks@ == trim(v@));
            }
            if n > 255 {
                return Err(AppError::BadRequest(string_of(&chars_of("Idempotency key exceeds 255 bytes"))));
            }
            Ok(key)
        },
    }
}

} // verus!
