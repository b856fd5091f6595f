//! On-demand HLS for single recordings: the FFmpeg output arguments, the
//! cache decision for an existing playlist, the playlist's end marker, and
//! the small `/proc` parsers that let a live pipeline drain cleanly.

use vstd::prelude::*;
use crate::errors::AppError;
use crate::text::{
    chars_of, contains_sub, has_prefix, has_sub, is_whitespace, is_whitespace_char, join_path,
    parse_i64, parse_i64_spec, parse_u64, parse_u64_spec, path_join, push_str, slice_chars,
    starts_with, string_of, trim, trim_chars,
};

verus! {

/// The FFmpeg arguments after the input that cut a recording into fMP4 HLS
/// segments in `out_dir`; a live recording's playlist is an open event
/// playlist, a finished one a VOD playlist.
pub open spec fn output_args_spec(out_dir: Seq<char>, live: bool) -> Seq<Seq<char>> {
    seq![
        "-c:a"@,
        "copy"@,
        "-map"@,
        "0:a:0"@,
        "-f"@,
        "hls"@,
        "-hls_time"@,
        "2"@,
        "-hls_list_size"@,
        "0"@,
        "-hls_flags"@,
        if live {
            "independent_segments+omit_endlist"@
        } else {
            "independent_segments"@
        },
        "-hls_playlist_type"@,
        if live {
            "event"@
        } else {
            "vod"@
        },
        "-hls_segment_type"@,
        "fmp4"@,
        "-hls_fmp4_init_filename"@,
        "init.mp4"@,
        "-hls_segment_filename"@,
        path_join(out_dir, "seg_%05d.m4s"@),
        path_join(out_dir, "playlist.m3u8"@),
    ]
}

pub open spec fn views(v: Seq<String>) -> Seq<Seq<char>> {
    v.map_values(|s: String| s@)
}

fn text(s: &str) -> (r: String)
    ensures
        r@ == s@,
{
    let v = chars_of(s);
    string_of(&v)
}

fn push_text(out: &mut Vec<String>, s: String)
    ensures
        final(out)@ == old(out)@.push(s),
{
    out.push(s);
}

/// Builds the FFmpeg command tail (everything past the input arguments).
pub fn ffmpeg_output_args(out_dir: &str, live: bool) -> (r: Vec<String>)
    ensures
        views(r@) == output_args_spec(out_dir@, live),
{
    let dir = chars_of(out_dir);
    let seg_pattern = join_path(&dir, &chars_of("seg_%05d.m4s"));
    let playlist = join_path(&dir, &chars_of("playlist.m3u8"));
    let mut r: Vec<String> = Vec::new();
    push_text(&mut r, text("-c:a"));
    push_text(&mut r, text("copy"));
    push_text(&mut r, text("-map"));
    push_text(&mut r, text("0:a:0"));
    push_text(&mut r, text("-f"));
    push_text(&mut r, text("hls"));
    push_text(&mut r, text("-hls_time"));
    push_text(&mut r, text("2"));
    push_text(&mut r, text("-hls_list_size"));
    push_text(&mut r, text("0"));
    push_text(&mut r, text("-hls_flags"));
    if live {
        push_text(&mut r, text("independent_segments+omit_endlist"));
    } else {
        push_text(&mut r, text("independent_segments"));
    }
    push_text(&mut r, text("-hls_playlist_type"));
    if live {
        push_text(&mut r, text("event"));
    } else {
        push_text(&mut r, text("vod"));
    }
    push_text(&mut r, text("-hls_segment_type"));
    push_text(&mut r, text("fmp4"));
    push_text(&mut r, text("-hls_fmp4_init_filename"));
    push_text(&mut r, text("init.mp4"));
    push_text(&mut r, text("-hls_segment_filename"));
    push_text(&mut r, string_of(&seg_pattern));
    push_text(&mut r, string_of(&playlist));
    assert(views(r@) =~= output_args_spec(out_dir@, live));
    r
}

/// What to do with an existing HLS cache directory.
#[derive(Debug, Clone, Copy, PartialEq, Eq, Structural)]
pub enum HlsCacheAction {
    ReuseFinalized,
    PurgeStaleLive,
    BuildFresh,
}

/// A missing playlist is built; a finished one is reused; an unfinished one
/// of a recording that is still live is purged and rebuilt (another
/// process's pipeline is gone), and otherwise built afresh.
pub open spec fn cache_action_spec(exists: bool, finalized: bool, is_live: bool) -> HlsCacheAction {
    if !exists {
        HlsCacheAction::BuildFresh
    } else if finalized {
        HlsCacheAction::ReuseFinalized
    } else if is_live {
        HlsCacheAction::PurgeStaleLive
    } else {
        HlsCacheAction::BuildFresh
    }
}

/// Decides what to do with the playlist found (or not) on disk.
pub fn hls_cache_action(playlist_exists: bool, playlist_finalized: bool, is_live: bool) -> (r:
    HlsCacheAction)
    ensures
        r == cache_action_spec(playlist_exists, playlist_finalized, is_live),
{
    if !playlist_exists {
        return HlsCacheAction::BuildFresh;
    }
    if playlist_finalized {
        return HlsCacheAction::ReuseFinalized;
    }
    if is_live {
        return HlsCacheAction::PurgeStaleLive;
    }
    HlsCacheAction::BuildFresh
}

/// A playlist is finished once it carries the end marker.
pub fn playlist_finalized(content: &str) -> (b: bool)
    ensures
        b == has_sub(content@, "#EXT-X-ENDLIST"@),
{
    let v = chars_of(content);
    contains_sub(&v, &chars_of("#EXT-X-ENDLIST"))
}

/// The playlist with the end marker appended on a line of its own, or
/// `None` when it already has one.
pub open spec fn with_endlist_spec(content: Seq<char>) -> Option<Seq<char>> {
    if has_sub(content, "#EXT-X-ENDLIST"@) {
        None
    } else if content.len() > 0 && content.last() == '\n' {
        Some(content + "#EXT-X-ENDLIST\n"@)
    } else {
        Some(content.push('\n') + "#EXT-X-ENDLIST\n"@)
    }
}

/// Closes a playlist: the end marker after a final newline.
pub fn with_endlist(content: &str) -> (r: Option<String>)
    ensures
        match r {
            Some(s) => with_endlist_spec(content@) == Some(s@),
            None => with_endlist_spec(content@) is None,
        },
{
    let mut v = chars_of(content);
    if contains_sub(&v, &chars_of("#EXT-X-ENDLIST")) {
        return None;
    }
    if !(v.len() > 0 && v[v.len() - 1] == '\n') {
        v.push('\n');
    }
    push_str(&mut v, "#EXT-X-ENDLIST\n");
    Some(string_of(&v))
}

/// A finished playlist may be cached; a growing one may not.
pub fn playlist_cache_control(finalized: bool) -> (s: &'static str)
    ensures
        s@ == (if finalized {
            "public, max-age=300"@
        } else {
            "no-cache"@
        }),
{
    if finalized {
        "public, max-age=300"
    } else {
        "no-cache"
    }
}

/// Media segments never change; the init segment may be rewritten.
pub fn segment_cache_control(segment: &str) -> (s: &'static str)
    ensures
        s@ == (if starts_with(segment@, "seg_"@) {
            "public, max-age=31536000, immutable"@
        } else {
            "public, max-age=3600"@
        }),
{
    let v = chars_of(segment);
    if has_prefix(&v, &chars_of("seg_")) {
        "public, max-age=31536000, immutable"
    } else {
        "public, max-age=3600"
    }
}

/// Rejects the route names that share the segment path.
pub fn reject_reserved_segment(segment: &str) -> (r: Result<(), AppError>)
    ensures
        r is Err <==> (segment@ == "playlist.m3u8"@ || segment@ == "state"@),
        r matches Err(e) ==> (e matches AppError::BadRequest(m) && m@ == "reserved name"@),
{
    let v = chars_of(segment);
    if crate::text::chars_equal(&v, &chars_of("playlist.m3u8")) || crate::text::chars_equal(
        &v,
        &chars_of("state"),
    ) {
        return Err(AppError::BadRequest(text("reserved name")));
    }
    Ok(())
}

/// What the database says of a recording.
pub struct DbRecordingState {
    pub start_ts: Option<i64>,
    pub end_ts: Option<i64>,
    pub live: bool,
}

/// Whether a recording is live, when it started, and when it ended.
#[derive(Debug, Clone, Copy, PartialEq, Eq, Structural)]
pub struct StateResponse {
    pub live: bool,
    pub started_at: Option<i64>,
    pub ended_at: Option<i64>,
}

/// A recording that is not live and has no end time ended, as far as
/// anyone can tell, when it started.
pub fn state_response(db: &DbRecordingState) -> (r: StateResponse)
    ensures
        r.live == db.live,
        r.started_at == db.start_ts,
        r.ended_at == (match db.end_ts {
            Some(e) => Some(e),
            None => if db.live {
                None
            } else {
                db.start_ts
            },
        }),
{
    let ended_at = match db.end_ts {
        Some(e) => Some(e),
        None => if db.live {
            None
        } else {
            db.start_ts
        },
    };
    StateResponse { live: db.live, started_at: db.start_ts, ended_at }
}

// ----- /proc/<pid>/stat -----

pub open spec fn is_field_start(s: Seq<char>, i: int) -> bool {
    0 <= i < s.len() && !is_whitespace(s[i]) && (i == 0 || is_whitespace(s[i - 1]))
}

/// How many whitespace-separated fields begin before position `a`.
pub open spec fn starts_before(s: Seq<char>, a: int) -> nat
    decreases a,
{
    if a <= 0 {
        0
    } else {
        starts_before(s, a - 1) + if is_field_start(s, a - 1) {
            1nat
        } else {
            0nat
        }
    }
}

/// Where the field starting at `a` ends: the next whitespace or the end.
pub open spec fn field_end(s: Seq<char>, a: int) -> int
    decreases s.len() - a,
{
    if a >= s.len() || a < 0 || is_whitespace(s[a]) {
        a
    } else {
        field_end(s, a + 1)
    }
}

/// The `n`-th whitespace-separated field of `s`, as `split_whitespace().nth(n)`
/// yields it.
pub open spec fn nth_field(s: Seq<char>, n: nat) -> Option<Seq<char>> {
    if exists|a: int| is_field_start(s, a) && starts_before(s, a) == n {
        let a = choose|a: int| is_field_start(s, a) && starts_before(s, a) == n;
        Some(s.subrange(a, field_end(s, a)))
    } else {
        None
    }
}

proof fn lemma_starts_before_mono(s: Seq<char>, a: int, b: int)
    requires
        a <= b,
    ensures
        starts_before(s, a) <= starts_before(s, b),
    decreases b - a,
{
    if a < b {
        lemma_starts_before_mono(s, a, b - 1);
    }
}

proof fn lemma_field_start_unique(s: Seq<char>, a: int, b: int)
    requires
        is_field_start(s, a),
        is_field_start(s, b),
        starts_before(s, a) == starts_before(s, b),
    ensures
        a == b,
{
    if a < b {
        lemma_starts_before_mono(s, a + 1, b);
    } else if b < a {
        lemma_starts_before_mono(s, b + 1, a);
    }
}

proof fn lemma_field_end_bounds(s: Seq<char>, a: int)
    requires
        0 <= a <= s.len(),
    ensures
        a <= field_end(s, a) <= s.len(),
    decreases s.len() - a,
{
    if a < s.len() && !is_whitespace(s[a]) {
        lemma_field_end_bounds(s, a + 1);
    }
}

/// The `n`-th whitespace-separated field of `s`.
pub fn nth_field_of(s: &[char], n: usize) -> (r: Option<Vec<char>>)
    ensures
        match r {
            Some(v) => nth_field(s@, n as nat) == Some(v@),
            None => nth_field(s@, n as nat) is None,
        },
{
    let mut count: usize = 0;
    let mut i: usize = 0;
    while i < s.len()
        invariant
            i <= s@.len(),
            count as nat == starts_before(s@, i as int),
            count <= i,
            forall|a: int| 0 <= a < i && is_field_start(s@, a) ==> starts_before(s@, a) != n,
        decreases s.len() - i,
    {
        let start = !is_whitespace_char(s[i]) && (i == 0 || is_whitespace_char(s[i - 1]));
        if start {
            if count == n {
                let mut j = i;
                while j < s.len() && !is_whitespace_char(s[j])
                    invariant
                        i <= j <= s@.len(),
                        field_end(s@, i as int) == field_end(s@, j as int),
                    decreases s.len() - j,
                {
                    j = j + 1;
                }
                proof {
                    assert(is_field_start(s@, i as int));
                    let a = choose|a: int| is_field_start(s@, a) && starts_before(s@, a) == n;
                    lemma_field_start_unique(s@, a, i as int);
                }
                return Some(slice_chars(s, i, j));
            }
            count = count + 1;
        }
        i = i + 1;
    }
    proof {
        assert forall|a: int| !(is_field_start(s@, a) && starts_before(s@, a) == n) by {
        }
    }
    None
}

pub open spec fn first_index_of(s: Seq<char>, c: char) -> Option<int> {
    if exists|i: int| 0 <= i < s.len() && s[i] == c {
        Some(choose|i: int| 0 <= i < s.len() && s[i] == c && forall|j: int| 0 <= j < i ==> s[j] != c)
    } else {
        None
    }
}

pub open spec fn last_index_of(s: Seq<char>, c: char) -> Option<int> {
    if exists|i: int| 0 <= i < s.len() && s[i] == c {
        Some(choose|i: int| 0 <= i < s.len() && s[i] == c && forall|j: int| i < j < s.len() ==> s[j] != c)
    } else {
        None
    }
}

/// What `/proc/<pid>/stat` says of a process: its command name, which runs
/// from after the first `(` to the last `)` (it may itself hold spaces and
/// parentheses), and its process group, the third field after that.
pub open spec fn stat_spec(s: Seq<char>) -> Option<(Seq<char>, i64)> {
    match (first_index_of(s, '('), last_index_of(s, ')')) {
        (Some(open), Some(close)) => if open + 1 > close {
            None
        } else {
            match nth_field(s.subrange(close + 1, s.len() as int), 2) {
                Some(f) => match parse_i64_spec(f) {
                    Some(pgrp) => Some((s.subrange(open + 1, close), pgrp)),
                    None => None,
                },
                None => None,
            }
        },
        _ => None,
    }
}

fn find_first(s: &[char], c: char) -> (r: Option<usize>)
    ensures
        match r {
            Some(i) => first_index_of(s@, c) == Some(i as int) && i < s@.len(),
            None => first_index_of(s@, c) is None,
        },
{
    let mut i: usize = 0;
    while i < s.len()
        invariant
            i <= s.len(),
            forall|j: int| 0 <= j < i ==> s@[j] != c,
        decreases s.len() - i,
    {
        if s[i] == c {
            proof {
                let k = choose|k: int|
                    0 <= k < s@.len() && s@[k] == c && forall|j: int| 0 <= j < k ==> s@[j] != c;
                assert(k == i) by {
                    if k < i {
                    } else if k > i {
                        assert(s@[i as int] == c);
                    }
                }
            }
            return Some(i);
        }
        i = i + 1;
    }
    None
}

fn find_last(s: &[char], c: char) -> (r: Option<usize>)
    ensures
        match r {
            Some(i) => last_index_of(s@, c) == Some(i as int) && i < s@.len(),
            None => last_index_of(s@, c) is None,
        },
{
    let mut i: usize = s.len();
    while i > 0
        invariant
            i <= s.len(),
            forall|j: int| i <= j < s.len() ==> s@[j] != c,
        decreases i,
    {
        if s[i - 1] == c {
            proof {
                let k = choose|k: int|
                    0 <= k < s@.len() && s@[k] == c && forall|j: int| k < j < s@.len() ==> s@[j] != c;
                assert(k == i - 1) by {
                    if k > i - 1 {
                    } else if k < i - 1 {
                        assert(s@[i - 1] == c);
                    }
                }
            }
            return Some(i - 1);
        }
        i = i - 1;
    }
    None
}

/// Parses `/proc/<pid>/stat` into (command name, process group).
pub fn parse_stat_comm_pgrp(stat: &str) -> (r: Option<(&str, i64)>)
    ensures
        match r {
            Some((comm, pgrp)) => stat_spec(stat@) == Some((comm@, pgrp)),
            None => stat_spec(stat@) is None,
        },
{
    let s = chars_of(stat);
    let open = match find_first(&s, '(') {
        Some(i) => i,
        None => return None,
    };
    let close = match find_last(&s, ')') {
        Some(i) => i,
        None => return None,
    };
    if open >= close {
        return None;
    }
    let n = s.len();
    assert(close < n);
    let rest = slice_chars(&s, close + 1, n);
    let field = match nth_field_of(&rest, 2) {
        Some(f) => f,
        None => return None,
    };
    let pgrp = match parse_i64(&field) {
        Some(p) => p,
        None => return None,
    };
    let comm = stat.substring_char(open + 1, close);
    Some((comm, pgrp))
}

// ----- /proc/<pid>/fdinfo/<fd> -----

/// Position `a` begins a line of `s`.
pub open spec fn is_line_start(s: Seq<char>, a: int) -> bool {
    0 <= a < s.len() && (a == 0 || s[a - 1] == '\n')
}

/// Where the line starting at `a` stops: the next newline or the end.
pub open spec fn line_stop(s: Seq<char>, a: int) -> int
    decreases s.len() - a,
{
    if a >= s.len() || a < 0 || s[a] == '\n' {
        a
    } else {
        line_stop(s, a + 1)
    }
}

/// The line starting at `a`, as `str::lines` yields it: without its
/// newline, and without a carriage return just before that newline.
pub open spec fn line_at(s: Seq<char>, a: int) -> Seq<char> {
    let e = line_stop(s, a);
    if e < s.len() && e > a && s[e - 1] == '\r' {
        s.subrange(a, e - 1)
    } else {
        s.subrange(a, e)
    }
}

/// A `pos:` line's value, when the rest of the line (trimmed) is a number.
pub open spec fn pos_value(line: Seq<char>) -> Option<u64> {
    if starts_with(line, "pos:"@) {
        parse_u64_spec(trim(line.subrange(4, line.len() as int)))
    } else {
        None
    }
}

/// The value of the first line at or after position `a` that is a readable
/// `pos:` line.
pub open spec fn first_pos_from(s: Seq<char>, a: int) -> Option<u64>
    decreases s.len() - a,
{
    if a >= s.len() || a < 0 {
        None
    } else if is_line_start(s, a) && pos_value(line_at(s, a)) is Some {
        pos_value(line_at(s, a))
    } else {
        first_pos_from(s, a + 1)
    }
}

proof fn lemma_line_stop_bounds(s: Seq<char>, a: int)
    requires
        0 <= a <= s.len(),
    ensures
        a <= line_stop(s, a) <= s.len(),
        line_stop(s, a) < s.len() ==> s[line_stop(s, a)] == '\n',
    decreases s.len() - a,
{
    if a < s.len() && s[a] != '\n' {
        lemma_line_stop_bounds(s, a + 1);
    }
}

fn line_value(s: &[char], a: usize) -> (r: Option<u64>)
    requires
        is_line_start(s@, a as int),
    ensures
        r == pos_value(line_at(s@, a as int)),
{
    let mut e = a;
    while e < s.len() && s[e] != '\n'
        invariant
            a <= e <= s@.len(),
            line_stop(s@, a as int) == line_stop(s@, e as int),
        decreases s.len() - e,
    {
        e = e + 1;
    }
    let stop = if e < s.len() && e > a && s[e - 1] == '\r' {
        e - 1
    } else {
        e
    };
    let line = slice_chars(s, a, stop);
    if !has_prefix(&line, &chars_of("pos:")) {
        return None;
    }
    proof {
        reveal_strlit("pos:");
    }
    let rest = slice_chars(&line, 4, line.len());
    let trimmed = trim_chars(&rest);
    parse_u64(&trimmed)
}

/// The read offset recorded on the `pos:` line of a `/proc` fdinfo file.
pub fn parse_fdinfo_pos(fdinfo: &str) -> (r: Option<u64>)
    ensures
        r == first_pos_from(fdinfo@, 0),
{
    let s = chars_of(fdinfo);
    let mut a: usize = 0;
    while a < s.len()
        invariant
            a <= s@.len(),
            s@ == fdinfo@,
            first_pos_from(s@, 0) == first_pos_from(s@, a as int),
        decreases s.len() - a,
    {
        if a == 0 || s[a - 1] == '\n' {
            let v = line_value(&s, a);
            if v.is_some() {
                assert(is_line_start(s@, a as int));
                assert(first_pos_from(s@, a as int) == v);
                return v;
            }
        }
        a = a + 1;
    }
    None
}

/// `s` with every `'` written as `'\''`, the way a single-quoted shell
/// word spells a quote.
pub open spec fn quote_escaped(s: Seq<char>) -> Seq<char>
    decreases s.len(),
{
    if s.len() == 0 {
        Seq::empty()
    } else {
        quote_escaped(s.drop_last()) + if s.last() == '\'' {
            "'\\''"@
        } else {
            seq![s.last()]
        }
    }
}

/// `s` as one single-quoted shell word.
pub open spec fn shell_word(s: Seq<char>) -> Seq<char> {
    "'"@ + quote_escaped(s) + "'"@
}

fn push_quote_escaped(out: &mut Vec<char>, s: &[char])
    ensures
        final(out)@ == old(out)@ + quote_escaped(s@),
{
    let ghost start = out@;
    let mut i: usize = 0;
    while i < s.len()
        invariant
            i <= s@.len(),
            out@ == start + quote_escaped(s@.take(i as int)),
        decreases s.len() - i,
    {
        let ghost before = out@;
        if s[i] == '\'' {
            push_str(out, "'\\''");
        } else {
            out.push(s[i]);
        }
        proof {
            assert(s@.take(i + 1).drop_last() =~= s@.take(i as int));
            assert(s@.take(i + 1).last() == s@[i as int]);
            if s@[i as int] != '\'' {
                assert(out@ =~= start + quote_escaped(s@.take(i + 1)));
            } else {
                assert(out@ =~= start + quote_escaped(s@.take(i + 1)));
            }
        }
        i = i + 1;
    }
    assert(s@.take(s@.len() as int) =~= s@);
}

/// `s` as a single-quoted shell word.
pub fn shell_quote(s: &str) -> (r: String)
    ensures
        r@ == shell_word(s@),
{
    let mut v: Vec<char> = Vec::new();
    v.push('\'');
    push_quote_escaped(&mut v, &chars_of(s));
    v.push('\'');
    proof {
        reveal_strlit("'");
        assert(v@ =~= shell_word(s@));
    }
    string_of(&v)
}

/// The FFmpeg arguments of a live pipeline: quiet, reading Ogg from the
/// pipe, then the HLS output arguments for a live recording.
pub open spec fn live_ffmpeg_args(out_dir: Seq<char>) -> Seq<Seq<char>> {
    seq!["-hide_banner"@, "-loglevel"@, "warning"@, "-f"@, "ogg"@, "-i"@, "pipe:0"@] + output_args_spec(
        out_dir,
        true,
    )
}

/// Each argument as a shell word, separated by spaces.
pub open spec fn shell_words(args: Seq<Seq<char>>) -> Seq<char>
    decreases args.len(),
{
    if args.len() == 0 {
        Seq::empty()
    } else if args.len() == 1 {
        shell_word(args[0])
    } else {
        shell_words(args.drop_last()) + " "@ + shell_word(args.last())
    }
}

/// The shell command of a live pipeline: `tail` follows the growing
/// source from its first byte and feeds FFmpeg, every word quoted.
pub open spec fn live_pipeline_spec(src: Seq<char>, out_dir: Seq<char>) -> Seq<char> {
    "tail -F -c +0 -- "@ + shell_word(src) + " | ffmpeg "@ + shell_words(live_ffmpeg_args(out_dir))
}

/// The shell command that streams a recording still being written into
/// HLS segments.
pub fn live_pipeline_command(src: &str, out_dir: &str) -> (r: String)
    ensures
        r@ == live_pipeline_spec(src@, out_dir@),
{
    let mut args: Vec<String> = Vec::new();
    args.push(text("-hide_banner"));
    args.push(text("-loglevel"));
    args.push(text("warning"));
    args.push(text("-f"));
    args.push(text("ogg"));
    args.push(text("-i"));
    args.push(text("pipe:0"));
    let mut tail = ffmpeg_output_args(out_dir, true);
    let ghost head = args@;
    args.append(&mut tail);
    let ghost want = live_ffmpeg_args(out_dir@);
    assert(views(args@) =~= want);
    let mut v = chars_of("tail -F -c +0 -- ");
    let q = shell_quote(src);
    push_str(&mut v, q.as_str());
    push_str(&mut v, " | ffmpeg ");
    let ghost start = v@;
    let mut i: usize = 0;
    while i < args.len()
        invariant
            i <= args@.len(),
            views(args@) == want,
            v@ == start + shell_words(want.take(i as int)),
        decreases args.len() - i,
    {
        let ghost before = v@;
        if i > 0 {
            push_str(&mut v, " ");
        }
        let w = shell_quote(args[i].as_str());
        push_str(&mut v, w.as_str());
        proof {
            assert(want.take(i + 1).drop_last() =~= want.take(i as int));
            assert(want.take(i + 1).last() == want[i as int]);
            if i == 0 {
                assert(want.take(1).len() == 1);
                assert(v@ =~= start + shell_words(want.take(i + 1)));
            } else {
                assert(v@ =~= start + shell_words(want.take(i + 1)));
            }
        }
        i = i + 1;
    }
    assert(want.take(args@.len() as int) =~= want);
    string_of(&v)
}

/// The FFmpeg arguments that cut a finished recording into HLS segments.
pub fn vod_ffmpeg_args(src: &str, out_dir: &str) -> (r: Vec<String>)
    ensures
        views(r@) == seq!["-hide_banner"@, "-loglevel"@, "warning"@, "-i"@, src@] + output_args_spec(out_dir@, false),
{
    let mut args: Vec<String> = Vec::new();
    args.push(text("-hide_banner"));
    args.push(text("-loglevel"));
    args.push(text("warning"));
    args.push(text("-i"));
    args.push(text(src));
    let mut tail = ffmpeg_output_args(out_dir, false);
    args.append(&mut tail);
    assert(views(args@) =~= seq!["-hide_banner"@, "-loglevel"@, "warning"@, "-i"@, src@] + output_args_spec(
        out_dir@,
        false,
    ));
    args
}

/// What the wait for `tail` to read a finished source to its end does
/// after one observation.
#[derive(Clone, Copy, Debug, PartialEq, Eq, Structural)]
pub enum TailWait {
    /// Done waiting: tail caught up twice in a row, has exited, or the
    /// deadline passed.
    Stop,
    /// Look again after the poll interval; with whether tail was caught up
    /// this time.
    Poll { caught_up: bool },
}

/// One step of the catch-up wait: `pos` is tail's read offset in the
/// source (`None` when its descriptor is gone), `len` the source's length,
/// `tail_alive` whether tail's process still exists, and `past_deadline`
/// whether the wait has timed out.
pub open spec fn tail_wait_spec(
    caught_up_once: bool,
    pos: Option<u64>,
    len: Option<u64>,
    tail_alive: bool,
    past_deadline: bool,
) -> TailWait {
    match (pos, len) {
        (Some(p), Some(l)) if p >= l => if caught_up_once {
            TailWait::Stop
        } else if past_deadline {
            TailWait::Stop
        } else {
            TailWait::Poll { caught_up: true }
        },
        (None, _) if !tail_alive => TailWait::Stop,
        _ => if past_deadline {
            TailWait::Stop
        } else {
            TailWait::Poll { caught_up: false }
        },
    }
}

/// Decides one step of waiting for tail to catch up with the source.
pub fn tail_wait_step(
    caught_up_once: bool,
    pos: Option<u64>,
    len: Option<u64>,
    tail_alive: bool,
    past_deadline: bool,
) -> (r: TailWait)
    ensures
        r == tail_wait_spec(caught_up_once, pos, len, tail_alive, past_deadline),
{
    match (pos, len) {
        (Some(p), Some(l)) if p >= l => {
            if caught_up_once || past_deadline {
                TailWait::Stop
            } else {
                TailWait::Poll { caught_up: true }
            }
        },
        (None, _) if !tail_alive => TailWait::Stop,
        _ => {
            if past_deadline {
                TailWait::Stop
            } else {
                TailWait::Poll { caught_up: false }
            }
        },
    }
}

/// The wait ends once tail is seen caught up twice in a row.
pub proof fn law_two_catch_ups_end_the_wait(p1: u64, l1: u64, p2: u64, l2: u64, alive: bool, late: bool)
    requires
        p1 >= l1,
        p2 >= l2,
        !late,
    ensures
        tail_wait_spec(false, Some(p1), Some(l1), alive, late) == (TailWait::Poll { caught_up: true }),
        tail_wait_spec(true, Some(p2), Some(l2), alive, late) == TailWait::Stop,
{
}

/// The lower-case ASCII form of a character.
pub open spec fn ascii_lower(c: char) -> char {
    if 'A' <= c && c <= 'Z' {
        ((c as u8) + 32) as char
    } else {
        c
    }
}

/// The codec name ffprobe printed: its output as text, trimmed, in ASCII
/// lower case.
pub open spec fn codec_name_spec(stdout: Seq<u8>) -> Seq<char> {
    trim(crate::silence::utf8_lossy(stdout)).map_values(|c: char| ascii_lower(c))
}

/// The codec name in ffprobe's output.
pub fn codec_name(stdout: &[u8]) -> (s: String)
    ensures
        s@ == codec_name_spec(stdout@),
{
    let t = trim_chars(&chars_of(crate::silence::lossy_text(stdout).as_str()));
    let mut v: Vec<char> = Vec::new();
    let mut i: usize = 0;
    while i < t.len()
        invariant
            i <= t@.len(),
            v@ == t@.take(i as int).map_values(|c: char| ascii_lower(c)),
        decreases t.len() - i,
    {
        let c = t[i];
        let l = if 'A' <= c && c <= 'Z' {
            ((c as u8) + 32) as char
        } else {
            c
        };
        v.push(l);
        assert(v@ =~= t@.take(i + 1).map_values(|c: char| ascii_lower(c)));
        i = i + 1;
    }
    assert(t@.take(t@.len() as int) =~= t@);
    string_of(&v)
}

/// Only Opus recordings are streamed as HLS: another codec is refused by
/// name; a failed probe is an FFmpeg error.
pub fn codec_gate(probed: Option<&str>) -> (r: Result<(), AppError>)
    ensures
        match probed {
            Some(c) => if c@ == "opus"@ {
                r is Ok
            } else {
                r matches Err(AppError::BadRequest(m)) && m@ == "unsupported codec: "@ + c@
            },
            None => r matches Err(AppError::FfmpegError(m)) && m@ == "codec probe failed"@,
        },
{
    match probed {
        Some(c) => {
            if crate::text::chars_equal(&chars_of(c), &chars_of("opus")) {
                Ok(())
            } else {
                let mut v = chars_of("unsupported codec: ");
                push_str(&mut v, c);
                Err(AppError::BadRequest(string_of(&v)))
            }
        },
        None => Err(AppError::FfmpegError(text("codec probe failed"))),
    }
}

/// A recording month from a URL must fit an `i32`.
pub fn recording_month(month: u32) -> (r: Result<i32, AppError>)
    ensures
        month <= i32::MAX ==> r == Ok::<i32, AppError>(month as i32),
        month > i32::MAX ==> (r matches Err(AppError::InvalidParam(m)) && m@ == "invalid recording month"@),
{
    if month <= 2147483647 {
        Ok(month as i32)
    } else {
        Err(AppError::InvalidParam(text("invalid recording month")))
    }
}

} // verus!
