//! The FFmpeg command that renders a session's timeline into one Ogg/Opus
//! file, and the bookkeeping of its progress and error output.

use vstd::prelude::*;
use crate::text::{chars_of, dec, dec_int, dec_padded, push_dec, push_dec_padded, push_str, string_of};
use crate::timeline::{PartKind, TimelinePart};

verus! {

/// A non-negative number of milliseconds as seconds with three decimals,
/// as `{:.3}` prints `ms as f64 / 1000.0` (exactly, for every duration a
/// timeline can hold); negative durations print as zero.
pub open spec fn seconds_text(ms: i64) -> Seq<char> {
    let m: nat = if ms < 0 {
        0
    } else {
        ms as nat
    };
    dec(m / 1000) + "."@ + dec_padded((m % 1000) as int, 3)
}

/// Milliseconds as seconds with three decimals.
pub fn milliseconds_as_seconds(milliseconds: i64) -> (s: String)
    ensures
        s@ == seconds_text(milliseconds),
{
    let m: u64 = if milliseconds < 0 {
        0
    } else {
        milliseconds as u64
    };
    let mut v: Vec<char> = Vec::new();
    push_dec(&mut v, m / 1000);
    v.push('.');
    push_dec_padded(&mut v, (m % 1000) as i64, 3);
    proof {
        reveal_strlit(".");
        assert(v@ =~= seconds_text(milliseconds));
    }
    string_of(&v)
}

pub open spec fn sat_diff(a: i64, b: i64) -> i64 {
    crate::text::clamp_i64(a - b)
}

/// The inputs FFmpeg reads for one part: a stretch of a recorded file, or
/// generated mono silence.
pub open spec fn part_inputs(part: TimelinePart, paths: Seq<String>) -> Seq<Seq<char>> {
    let duration = seconds_text(sat_diff(part.end_ms, part.start_ms));
    match part.kind {
        PartKind::Audio { fragment, source_start_ms } => seq![
            "-ss"@,
            seconds_text(sat_diff(part.start_ms, source_start_ms)),
            "-t"@,
            duration,
            "-i"@,
            paths[fragment as int]@,
        ],
        PartKind::Silence => seq![
            "-f"@,
            "lavfi"@,
            "-t"@,
            duration,
            "-i"@,
            "anullsrc=channel_layout=mono:sample_rate=48000"@,
        ],
    }
}

/// The inputs of the first `n` parts, in order.
pub open spec fn inputs_of(parts: Seq<TimelinePart>, paths: Seq<String>, n: int) -> Seq<Seq<char>>
    decreases n,
{
    if n <= 0 {
        Seq::empty()
    } else {
        inputs_of(parts, paths, n - 1) + part_inputs(parts[n - 1], paths)
    }
}

/// The resampling step of input `i`.
pub open spec fn resample_step(i: nat) -> Seq<char> {
    "["@ + dec(i) + ":a]aresample=48000,aformat=sample_fmts=fltp:channel_layouts=mono[a"@ + dec(i) + "];"@
}

pub open spec fn resample_steps(n: nat) -> Seq<char>
    decreases n,
{
    if n == 0 {
        Seq::empty()
    } else {
        resample_steps((n - 1) as nat) + resample_step((n - 1) as nat)
    }
}

pub open spec fn concat_labels(n: nat) -> Seq<char>
    decreases n,
{
    if n == 0 {
        Seq::empty()
    } else {
        concat_labels((n - 1) as nat) + "[a"@ + dec((n - 1) as nat) + "]"@
    }
}

pub open spec fn silence_filter(keep_original_timeline: bool) -> Seq<char> {
    if keep_original_timeline {
        ";[joined]asplit=2[progress_audio][silence_input];[silence_input]silenceremove=stop_periods=-1:stop_duration=1:stop_threshold=-40dB[out]"@
    } else {
        ";[joined]silenceremove=stop_periods=-1:stop_duration=1:stop_threshold=-40dB[out]"@
    }
}

/// The filter graph: every input resampled to 48 kHz mono, concatenated in
/// order, then with silence removed when asked (keeping an untouched copy
/// for progress when the original timeline is tracked).
pub open spec fn session_filter_spec(n: nat, remove_silence: bool, keep_original_timeline: bool) -> Seq<char> {
    resample_steps(n) + concat_labels(n) + "concat=n="@ + dec(n) + ":v=0:a=1[joined]"@ + if remove_silence {
        silence_filter(keep_original_timeline)
    } else {
        Seq::empty()
    }
}

/// The filter graph that joins `n` inputs.
pub fn session_filter(n: usize, remove_silence: bool, keep_original_timeline: bool) -> (s: String)
    ensures
        s@ == session_filter_spec(n as nat, remove_silence, keep_original_timeline),
{
    let mut v: Vec<char> = Vec::new();
    let mut i: usize = 0;
    while i < n
        invariant
            i <= n,
            v@ == resample_steps(i as nat),
        decreases n - i,
    {
        let ghost before = v@;
        push_str(&mut v, "[");
        push_dec(&mut v, i as u64);
        push_str(&mut v, ":a]aresample=48000,aformat=sample_fmts=fltp:channel_layouts=mono[a");
        push_dec(&mut v, i as u64);
        push_str(&mut v, "];");
        assert(v@ =~= before + resample_step(i as nat));
        i = i + 1;
    }
    let ghost steps = v@;
    let mut j: usize = 0;
    while j < n
        invariant
            j <= n,
            v@ == steps + concat_labels(j as nat),
        decreases n - j,
    {
        let ghost before = v@;
        push_str(&mut v, "[a");
        push_dec(&mut v, j as u64);
        push_str(&mut v, "]");
        assert(v@ =~= steps + concat_labels((j + 1) as nat));
        j = j + 1;
    }
    push_str(&mut v, "concat=n=");
    push_dec(&mut v, n as u64);
    push_str(&mut v, ":v=0:a=1[joined]");
    if remove_silence {
        if keep_original_timeline {
            push_str(
                &mut v,
                ";[joined]asplit=2[progress_audio][silence_input];[silence_input]silenceremove=stop_periods=-1:stop_duration=1:stop_threshold=-40dB[out]",
            );
        } else {
            push_str(&mut v, ";[joined]silenceremove=stop_periods=-1:stop_duration=1:stop_threshold=-40dB[out]");
        }
    }
    assert(v@ =~= session_filter_spec(n as nat, remove_silence, keep_original_timeline));
    string_of(&v)
}

/// Every audio part names a path that exists.
pub open spec fn paths_cover(parts: Seq<TimelinePart>, paths: Seq<String>) -> bool {
    forall|k: int|
        0 <= k < parts.len() ==> match (#[trigger] parts[k]).kind {
            PartKind::Audio { fragment, .. } => fragment < paths.len(),
            PartKind::Silence => true,
        }
}

pub open spec fn texts(v: Seq<String>) -> Seq<Seq<char>> {
    v.map_values(|s: String| s@)
}

/// The whole FFmpeg command line (after the program name) that renders the
/// parts into `output`: quiet and overwriting, one input per part, the
/// filter graph, Opus at 96 kb/s, and, when progress is reported, the
/// progress stream on stderr (with the untouched audio sent to a null
/// output when silence removal would distort the timeline).
pub open spec fn session_args_spec(
    parts: Seq<TimelinePart>,
    paths: Seq<String>,
    remove_silence: bool,
    report_progress: bool,
    output: Seq<char>,
) -> Seq<Seq<char>> {
    let keep = remove_silence && report_progress;
    seq!["-y"@, "-hide_banner"@, "-loglevel"@, "error"@] + inputs_of(parts, paths, parts.len() as int) + seq![
        "-filter_complex"@,
        session_filter_spec(parts.len(), remove_silence, keep),
        "-map"@,
        if remove_silence {
            "[out]"@
        } else {
            "[joined]"@
        },
        "-c:a"@,
        "libopus"@,
        "-b:a"@,
        "96k"@,
        output,
    ] + if keep {
        seq!["-map"@, "[progress_audio]"@, "-f"@, "null"@, "-"@]
    } else {
        Seq::empty()
    } + if report_progress {
        seq!["-progress"@, "pipe:2"@, "-nostats"@]
    } else {
        Seq::empty()
    }
}

fn arg(v: &mut Vec<String>, a: &str)
    ensures
        texts(final(v)@) == texts(old(v)@).push(a@),
{
    let ghost before = v@;
    v.push(string_of(&chars_of(a)));
    assert(texts(v@) =~= texts(before).push(a@));
}

fn arg_owned(v: &mut Vec<String>, a: String)
    ensures
        texts(final(v)@) == texts(old(v)@).push(a@),
{
    let ghost before = v@;
    v.push(a);
    assert(texts(v@) =~= texts(before).push(a@));
}

/// The FFmpeg arguments that render a session timeline; `fragment_paths`
/// gives the local file of each fragment an audio part names.
#[verifier::rlimit(40)]
pub fn session_ffmpeg_args(
    parts: &[TimelinePart],
    fragment_paths: &[String],
    remove_silence: bool,
    report_progress: bool,
    output: &str,
) -> (r: Vec<String>)
    requires
        paths_cover(parts@, fragment_paths@),
    ensures
        texts(r@) == session_args_spec(parts@, fragment_paths@, remove_silence, report_progress, output@),
{
    let mut v: Vec<String> = Vec::new();
    arg(&mut v, "-y");
    arg(&mut v, "-hide_banner");
    arg(&mut v, "-loglevel");
    arg(&mut v, "error");
    let ghost head = texts(v@);
    assert(head =~= seq!["-y"@, "-hide_banner"@, "-loglevel"@, "error"@]);
    let mut i: usize = 0;
    while i < parts.len()
        invariant
            i <= parts@.len(),
            paths_cover(parts@, fragment_paths@),
            head == seq!["-y"@, "-hide_banner"@, "-loglevel"@, "error"@],
            texts(v@) == head + inputs_of(parts@, fragment_paths@, i as int),
        decreases parts.len() - i,
    {
        let part = parts[i];
        let ghost before = texts(v@);
        let duration = milliseconds_as_seconds(crate::text::sat_sub(part.end_ms, part.start_ms));
        match part.kind {
            PartKind::Audio { fragment, source_start_ms } => {
                assert(fragment < fragment_paths@.len()) by {
                    assert(match parts@[i as int].kind {
                        PartKind::Audio { fragment, .. } => fragment < fragment_paths@.len(),
                        PartKind::Silence => true,
                    });
                }
                arg(&mut v, "-ss");
                arg_owned(&mut v, milliseconds_as_seconds(crate::text::sat_sub(part.start_ms, source_start_ms)));
                arg(&mut v, "-t");
                arg_owned(&mut v, duration);
                arg(&mut v, "-i");
                arg(&mut v, fragment_paths[fragment].as_str());
            },
            PartKind::Silence => {
                arg(&mut v, "-f");
                arg(&mut v, "lavfi");
                arg(&mut v, "-t");
                arg_owned(&mut v, duration);
                arg(&mut v, "-i");
                arg(&mut v, "anullsrc=channel_layout=mono:sample_rate=48000");
            },
        }
        assert(texts(v@) =~= before + part_inputs(parts@[i as int], fragment_paths@));
        i = i + 1;
    }
    let keep = remove_silence && report_progress;
    arg(&mut v, "-filter_complex");
    arg_owned(&mut v, session_filter(parts.len(), remove_silence, keep));
    arg(&mut v, "-map");
    if remove_silence {
        arg(&mut v, "[out]");
    } else {
        arg(&mut v, "[joined]");
    }
    arg(&mut v, "-c:a");
    arg(&mut v, "libopus");
    arg(&mut v, "-b:a");
    arg(&mut v, "96k");
    arg(&mut v, output);
    let ghost mid = texts(v@);
    if keep {
        arg(&mut v, "-map");
        arg(&mut v, "[progress_audio]");
        arg(&mut v, "-f");
        arg(&mut v, "null");
        arg(&mut v, "-");
    }
    let ghost after_keep = texts(v@);
    if report_progress {
        arg(&mut v, "-progress");
        arg(&mut v, "pipe:2");
        arg(&mut v, "-nostats");
    }
    assert(texts(v@) =~= session_args_spec(parts@, fragment_paths@, remove_silence, report_progress, output@));
    v
}

/// The stored progress after a progress line reports `value`: it only ever
/// rises, and a negative (failed) mark is left alone.
pub open spec fn raised_progress(current: i16, value: i16) -> i16 {
    if current >= 0 && value > current {
        value
    } else {
        current
    }
}

/// The progress to store after FFmpeg reports `value`.
pub fn raise_progress(current: i16, value: i16) -> (r: i16)
    ensures
        r == raised_progress(current, value),
{
    if current >= 0 && value > current {
        value
    } else {
        current
    }
}

/// Stored progress never falls.
pub proof fn law_progress_never_falls(current: i16, value: i16)
    requires
        current >= 0,
    ensures
        raised_progress(current, value) >= current,
{
}

/// The most error output kept from FFmpeg, in bytes.
pub const ERROR_OUTPUT_LIMIT: usize = 4096;

/// The error output after a stderr line: while under the limit, as much of
/// the line as fits, then a newline.
pub open spec fn captured(buf: Seq<u8>, line: Seq<u8>) -> Seq<u8> {
    if buf.len() < 4096 {
        let room = 4096 - buf.len();
        let take = if line.len() <= room {
            line.len() as int
        } else {
            room
        };
        buf + line.take(take) + seq![10u8]
    } else {
        buf
    }
}

/// Keeps a line of FFmpeg's error output within the limit.
pub fn capture_error_line(buf: &mut Vec<u8>, line: &[u8])
    ensures
        final(buf)@ == captured(old(buf)@, line@),
{
    if buf.len() < ERROR_OUTPUT_LIMIT {
        let room = ERROR_OUTPUT_LIMIT - buf.len();
        let take = if line.len() <= room {
            line.len()
        } else {
            room
        };
        let ghost start = buf@;
        let mut i: usize = 0;
        while i < take
            invariant
                i <= take,
                take <= line@.len(),
                buf@ == start + line@.take(i as int),
            decreases take - i,
        {
            buf.push(line[i]);
            assert(buf@ =~= start + line@.take(i + 1));
            i = i + 1;
        }
        buf.push(10u8);
    }
}

/// The error output never grows past the limit and a newline.
pub proof fn law_error_output_is_bounded(buf: Seq<u8>, line: Seq<u8>)
    requires
        buf.len() <= 4097,
    ensures
        captured(buf, line).len() <= 4097,
{
}

/// What one stderr line of a progress-reporting render does: raises the
/// stored progress, is kept as error output, or is dropped.
#[derive(Clone, Copy, Debug, PartialEq, Eq, Structural)]
pub enum StderrLine {
    Progress(i16),
    ErrorText,
    Ignored,
}

/// How a stderr line is handled: with progress reported, a line that maps
/// onto the timeline raises the progress; otherwise a line that is not
/// part of FFmpeg's progress stream is kept while there is room.
pub fn classify_stderr_line(
    line: &str,
    report_progress: bool,
    duration_ms: i64,
    completed: i16,
    captured_len: usize,
) -> (r: StderrLine)
    ensures
        r == if report_progress && crate::progress::composition_progress_spec(
            line@,
            duration_ms,
            completed,
        ) is Some {
            StderrLine::Progress(crate::progress::composition_progress_spec(line@, duration_ms, completed)->0)
        } else if !crate::progress::is_progress_line_spec(line@) && captured_len < 4096 {
            StderrLine::ErrorText
        } else {
            StderrLine::Ignored
        },
{
    if report_progress {
        match crate::progress::composition_progress_percent(line, duration_ms, completed) {
            Some(v) => {
                return StderrLine::Progress(v);
            },
            None => {},
        }
    }
    if !crate::progress::is_ffmpeg_progress_line(line) && captured_len < ERROR_OUTPUT_LIMIT {
        StderrLine::ErrorText
    } else {
        StderrLine::Ignored
    }
}

} // verus!
