//! Validation of request-supplied file, stem, segment and clip names, and
//! the names and keys the service derives from them.

use vstd::prelude::*;
use crate::errors::AppError;
use crate::text::{
    any_control, chars_equal, chars_of, contains_char, contains_sub, dec, dec_int, dec_padded, ends_with,
    has_char, has_sub, has_suffix, is_control, join_path, path_join, push_all, push_dec, push_dec_i64,
    push_dec_padded, push_str, string_of,
};

verus! {

pub open spec fn has_control(s: Seq<char>) -> bool {
    exists|i: int| 0 <= i < s.len() && is_control(#[trigger] s[i])
}

/// A name that is safe to interpolate into a filesystem path or a process
/// argument: non-empty, no `..`, no path separator, no quote, no control
/// character.
pub open spec fn valid_file_segment(s: Seq<char>) -> bool {
    &&& s.len() > 0
    &&& !has_sub(s, ".."@)
    &&& !has_char(s, '/')
    &&& !has_char(s, '\\')
    &&& !has_char(s, '\'')
    &&& !has_char(s, '"')
    &&& !has_control(s)
}

/// A clip id that can name a file: non-empty, no `..`, no path separator,
/// no control character.
pub open spec fn valid_clip_id(s: Seq<char>) -> bool {
    &&& s.len() > 0
    &&& !has_sub(s, ".."@)
    &&& !has_char(s, '/')
    &&& !has_char(s, '\\')
    &&& !has_control(s)
}

/// A recording stem accepted by the live HLS routes.
pub open spec fn valid_stem(s: Seq<char>) -> bool {
    &&& s.len() > 0
    &&& !has_char(s, '/')
    &&& !has_sub(s, ".."@)
    &&& !has_char(s, '\\')
    &&& !has_char(s, '\'')
}

/// An HLS segment name accepted by the per-recording live routes.
pub open spec fn valid_seg(s: Seq<char>) -> bool {
    &&& s.len() > 0
    &&& !has_char(s, '/')
    &&& !has_sub(s, ".."@)
    &&& !has_char(s, '\\')
}

/// An HLS segment name accepted by the logical-session routes: a valid
/// segment that is not one of the reserved route names.
pub open spec fn valid_segment_name(s: Seq<char>) -> bool {
    &&& valid_seg(s)
    &&& s != "playlist.m3u8"@
    &&& s != "state"@
}

pub open spec fn is_bad_request(r: Result<(), AppError>, message: Seq<char>) -> bool {
    match r {
        Err(AppError::BadRequest(m)) => m@ == message,
        _ => false,
    }
}

/// The audio file name a request refers to: `.ogg` is added when missing,
/// and the silence-free variant carries the `_no_silence_` prefix.
pub open spec fn audio_leaf_spec(name: Seq<char>, silence_free: bool) -> Seq<char> {
    let base = if ends_with(name, ".ogg"@) {
        name
    } else {
        name + ".ogg"@
    };
    if silence_free {
        "_no_silence_"@ + base
    } else {
        base
    }
}

/// `guild/channel/YYYY/MM/stem`, the key that names one recording.
pub open spec fn recording_key_text(
    guild_id: int,
    channel_id: int,
    year: int,
    month: int,
    stem: Seq<char>,
) -> Seq<char> {
    dec_int(guild_id) + "/"@ + dec_int(channel_id) + "/"@ + dec_padded(year, 4) + "/"@ + dec_padded(
        month,
        2,
    ) + "/"@ + stem
}

fn lit(s: &str) -> (v: Vec<char>)
    ensures
        v@ == s@,
{
    chars_of(s)
}

fn bad_request(message: &str) -> (e: AppError)
    ensures
        e matches AppError::BadRequest(m) && m@ == message@,
{
    let v = chars_of(message);
    AppError::BadRequest(string_of(&v))
}

/// Whether a request-supplied file, stem, or segment name is safe to put in
/// a path or a process argument.
pub fn is_valid_file_segment(s: &str) -> (b: bool)
    ensures
        b == valid_file_segment(s@),
{
    let v = chars_of(s);
    let dots = lit("..");
    v.len() > 0 && !contains_sub(&v, &dots) && !contains_char(&v, '/') && !contains_char(&v, '\\')
        && !contains_char(&v, '\'') && !contains_char(&v, '"') && !any_control(&v)
}

/// Whether a clip id is safe to use as a file name.
pub fn is_valid_clip_id(clip_id: &str) -> (b: bool)
    ensures
        b == valid_clip_id(clip_id@),
{
    let v = chars_of(clip_id);
    let dots = lit("..");
    v.len() > 0 && !contains_sub(&v, &dots) && !contains_char(&v, '/') && !contains_char(&v, '\\')
        && !any_control(&v)
}

/// Rejects a recording stem that could escape its directory.
pub fn validate_stem(s: &str) -> (r: Result<(), AppError>)
    ensures
        r is Ok <==> valid_stem(s@),
        r is Err ==> is_bad_request(r, "Invalid stem"@),
{
    let v = chars_of(s);
    let dots = lit("..");
    if v.len() == 0 || contains_char(&v, '/') || contains_sub(&v, &dots) || contains_char(&v, '\\')
        || contains_char(&v, '\'') {
        return Err(bad_request("Invalid stem"));
    }
    Ok(())
}

/// Rejects an HLS segment name that could escape its directory.
pub fn validate_seg(s: &str) -> (r: Result<(), AppError>)
    ensures
        r is Ok <==> valid_seg(s@),
        r is Err ==> is_bad_request(r, "Invalid segment name"@),
{
    let v = chars_of(s);
    let dots = lit("..");
    if v.len() == 0 || contains_char(&v, '/') || contains_sub(&v, &dots) || contains_char(
        &v,
        '\\',
    ) {
        return Err(bad_request("Invalid segment name"));
    }
    Ok(())
}

/// Rejects a logical-session HLS segment name that could escape its
/// directory or that names a reserved route.
pub fn validate_segment_name(segment: &str) -> (r: Result<(), AppError>)
    ensures
        r is Ok <==> valid_segment_name(segment@),
        r is Err ==> is_bad_request(r, "Invalid HLS segment name"@),
{
    let v = chars_of(segment);
    let dots = lit("..");
    let playlist = lit("playlist.m3u8");
    let state = lit("state");
    if v.len() == 0 || chars_equal(&v, &playlist) || chars_equal(&v, &state) || contains_char(
        &v,
        '/',
    ) || contains_sub(&v, &dots) || contains_char(&v, '\\') {
        return Err(bad_request("Invalid HLS segment name"));
    }
    Ok(())
}

/// The file name served for a recording request.
pub fn audio_leaf(file_name: &str, silence_free: bool) -> (s: String)
    ensures
        s@ == audio_leaf_spec(file_name@, silence_free),
{
    let name = chars_of(file_name);
    let ogg = lit(".ogg");
    let mut out: Vec<char> = Vec::new();
    if silence_free {
        push_str(&mut out, "_no_silence_");
    }
    push_all(&mut out, &name);
    if !has_suffix(&name, &ogg) {
        push_all(&mut out, &ogg);
    }
    proof {
        if silence_free {
            assert(out@ =~= audio_leaf_spec(file_name@, silence_free));
        } else {
            assert(out@ =~= audio_leaf_spec(file_name@, silence_free));
        }
    }
    string_of(&out)
}

/// `path` with a trailing `/` added when it has none.
pub fn with_trailing_slash(path: String) -> (s: String)
    ensures
        s@ == (if ends_with(path@, "/"@) {
            path@
        } else {
            path@.push('/')
        }),
{
    let v = chars_of(path.as_str());
    let slash = lit("/");
    if has_suffix(&v, &slash) {
        path
    } else {
        let mut out = v;
        out.push('/');
        string_of(&out)
    }
}

/// `guild/channel/YYYY/MM/stem` for one recording.
pub fn recording_key(guild_id: i64, channel_id: i64, year: i32, month: i64, stem: &str) -> (s: String)
    ensures
        s@ == recording_key_text(guild_id as int, channel_id as int, year as int, month as int, stem@),
{
    let mut out: Vec<char> = Vec::new();
    push_dec_i64(&mut out, guild_id);
    out.push('/');
    push_dec_i64(&mut out, channel_id);
    out.push('/');
    push_dec_padded(&mut out, year as i64, 4);
    out.push('/');
    push_dec_padded(&mut out, month, 2);
    out.push('/');
    push_str(&mut out, stem);
    proof {
        reveal_strlit("/");
    }
    assert(out@ =~= recording_key_text(
        guild_id as int,
        channel_id as int,
        year as int,
        month as int,
        stem@,
    ));
    string_of(&out)
}

/// The fingerprint that identifies the silence-removal job of a recording.
pub fn recording_fingerprint(path: &(i64, i64, i32, i32, String)) -> (s: String)
    ensures
        s@ == recording_key_text(path.0 as int, path.1 as int, path.2 as int, path.3 as int, path.4@),
{
    recording_key(path.0, path.1, path.2, path.3 as i64, path.4.as_str())
}

/// The job id of the live HLS pipeline of a recording.
pub fn key_id(guild_id: i64, channel_id: i64, year: i32, month: u32, stem: &str) -> (s: String)
    ensures
        s@ == recording_key_text(guild_id as int, channel_id as int, year as int, month as int, stem@),
{
    recording_key(guild_id, channel_id, year, month as i64, stem)
}

/// The progress key of a clip composition.
pub fn compose_progress_key(clip_id: &str) -> (s: String)
    ensures
        s@ == "clip-compose-"@ + clip_id@,
{
    let mut out = lit("clip-compose-");
    push_str(&mut out, clip_id);
    string_of(&out)
}

/// The stem of a path's last component (its name without the last
/// extension), as `std::path::Path::file_stem` computes it.
pub uninterp spec fn file_stem_of(path: Seq<char>) -> Option<Seq<char>>;

/// `std::path::Path::new(path).file_stem()`, as text. Its result is named
/// by `file_stem_of`; a stem that is not UTF-8 cannot come from a `&str`.
#[verifier::external_body]
fn file_stem(path: &str) -> (r: Option<String>)
    ensures
        match r {
            Some(s) => file_stem_of(path@) == Some(s@),
            None => file_stem_of(path@) is None,
        },
{
    std::path::Path::new(path).file_stem().and_then(|stem| stem.to_str()).map(|stem| stem.to_string())
}

/// A path with its last component replaced, as
/// `std::path::Path::with_file_name` computes it.
pub uninterp spec fn with_file_name_of(path: Seq<char>, name: Seq<char>) -> Seq<char>;

/// `std::path::Path::new(path).with_file_name(name)`, as text (lossless:
/// both parts are UTF-8). Its result is named by `with_file_name_of`.
#[verifier::external_body]
fn with_file_name(path: &str, name: &str) -> (r: String)
    ensures
        r@ == with_file_name_of(path@, name@),
{
    std::path::Path::new(path).with_file_name(name).to_string_lossy().into_owned()
}

pub open spec fn segment_file_name_spec(stem: Option<Seq<char>>, index: usize) -> Seq<char> {
    "."@ + match stem {
        Some(s) => s,
        None => "compose"@,
    } + ".dsp-segment-"@ + dec(index as nat) + ".f32"@
}

/// The hidden scratch file of segment `index` of a composition whose
/// output has stem `stem` (`compose` when it has none).
pub fn segment_file_name(stem: Option<&str>, index: usize) -> (s: String)
    ensures
        s@ == segment_file_name_spec(
            match stem {
                Some(t) => Some(t@),
                None => None,
            },
            index,
        ),
{
    let mut out = lit(".");
    match stem {
        Some(t) => push_str(&mut out, t),
        None => push_str(&mut out, "compose"),
    }
    push_str(&mut out, ".dsp-segment-");
    push_dec(&mut out, index as u64);
    push_str(&mut out, ".f32");
    string_of(&out)
}

/// Where segment `index` of a composition written to `output` is rendered
/// first: beside the output.
pub fn temporary_segment_path(output: &str, index: usize) -> (s: String)
    ensures
        s@ == with_file_name_of(output@, segment_file_name_spec(file_stem_of(output@), index)),
{
    let stem = file_stem(output);
    let name = match &stem {
        Some(t) => segment_file_name(Some(t.as_str()), index),
        None => segment_file_name(None, index),
    };
    with_file_name(output, name.as_str())
}

/// The directory that holds a month of one channel's recordings:
/// `base/guild/channel/year/month`, the month unpadded.
pub open spec fn recording_dir_spec(base: Seq<char>, guild_id: i64, channel_id: i64, year: i32, month: u32) -> Seq<char> {
    path_join(
        path_join(path_join(path_join(base, dec_int(guild_id as int)), dec_int(channel_id as int)), dec_int(year as int)),
        dec(month as nat),
    )
}

/// The recording directory of `(guild, channel, year, month, stem)` under
/// `base_path`.
pub fn get_file_path_root(base_path: &str, path: &(i64, i64, i32, i32, String)) -> (s: String)
    ensures
        s@ == recording_dir_spec(base_path@, path.0, path.1, path.2, path.3 as u32),
{
    let mut g: Vec<char> = Vec::new();
    push_dec_i64(&mut g, path.0);
    let mut c: Vec<char> = Vec::new();
    push_dec_i64(&mut c, path.1);
    let mut y: Vec<char> = Vec::new();
    push_dec_i64(&mut y, path.2 as i64);
    let mut m: Vec<char> = Vec::new();
    push_dec(&mut m, (path.3 as u32) as u64);
    let d = join_path(&chars_of(base_path), &g);
    let d = join_path(&d, &c);
    let d = join_path(&d, &y);
    let d = join_path(&d, &m);
    string_of(&d)
}

/// The progress key of a logical session's silence removal.
pub fn silence_removal_progress_key(session_id: i64) -> (s: String)
    ensures
        s@ == "logical-session-"@ + dec_int(session_id as int) + "-silence-removal"@,
{
    let mut out = lit("logical-session-");
    push_dec_i64(&mut out, session_id);
    push_str(&mut out, "-silence-removal");
    string_of(&out)
}

/// The waveform cache key of a logical session, and the file it is kept in
/// under `waveform_root`.
pub fn session_waveform_cache(waveform_root: &str, session_id: i64, silence_free: bool) -> (r: (
    String,
    String,
))
    ensures
        r.0@ == "logical-session-"@ + dec_int(session_id as int) + (if silence_free {
            "-silence-free"@
        } else {
            ""@
        }),
        r.1@ == path_join(waveform_root@, r.0@ + ".dat"@),
{
    let mut key = lit("logical-session-");
    push_dec_i64(&mut key, session_id);
    if silence_free {
        push_str(&mut key, "-silence-free");
    } else {
        proof {
            reveal_strlit("");
        }
        assert(key@ + ""@ =~= key@);
    }
    let mut leaf = key.clone();
    push_str(&mut leaf, ".dat");
    let root = chars_of(waveform_root);
    let output = join_path(&root, &leaf);
    (string_of(&key), string_of(&output))
}

/// `clips_root/.composition-jobs/id/token`, the scratch directory of one
/// composition attempt.
pub fn attempt_dir(clips_root: &str, id: &str, token: &str) -> (s: String)
    ensures
        s@ == path_join(path_join(path_join(clips_root@, ".composition-jobs"@), id@), token@),
{
    let root = chars_of(clips_root);
    let jobs = lit(".composition-jobs");
    let a = join_path(&root, &jobs);
    let idv = chars_of(id);
    let b = join_path(&a, &idv);
    let tv = chars_of(token);
    let c = join_path(&b, &tv);
    string_of(&c)
}

/// The query of the audio routes: any `silence` value asks for the
/// silence-free copy.
#[derive(Debug, Clone, Copy)]
pub struct AudioQuery {
    pub silence: Option<bool>,
}

impl AudioQuery {
    /// Whether the silence-free copy is asked for.
    pub fn silence_free(&self) -> (b: bool)
        ensures
            b == self.silence is Some,
    {
        self.silence.is_some()
    }
}

/// A recording file name from a URL may not climb directories or hold a
/// separator.
pub fn validate_audio_file_name(file_name: &str) -> (r: Result<(), AppError>)
    ensures
        r is Err <==> (has_sub(file_name@, ".."@) || has_char(file_name@, '/') || has_char(file_name@, '\\')),
        r matches Err(e) ==> (e matches AppError::BadRequest(m) && m@ == "Invalid file name"@),
{
    let v = chars_of(file_name);
    if contains_sub(&v, &chars_of("..")) || contains_char(&v, '/') || contains_char(&v, '\\') {
        return Err(AppError::BadRequest(string_of(&chars_of("Invalid file name"))));
    }
    Ok(())
}

/// Where a recording is served from when asked for.
#[derive(Clone, Copy, Debug, PartialEq, Eq, Structural)]
pub enum AudioSource {
    /// The local file opened.
    Local,
    /// The archived copy (only an original recording has one).
    Archive,
    /// Neither exists.
    Missing,
}

/// The local file wins; an original recording falls back to the archive;
/// a missing silence-free copy is not found.
pub fn audio_source(local_opened: bool, silence_free: bool) -> (s: AudioSource)
    ensures
        s == if local_opened {
            AudioSource::Local
        } else if silence_free {
            AudioSource::Missing
        } else {
            AudioSource::Archive
        },
{
    if local_opened {
        AudioSource::Local
    } else if silence_free {
        AudioSource::Missing
    } else {
        AudioSource::Archive
    }
}

} // verus!
