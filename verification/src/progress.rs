//! Reading FFmpeg's `-progress` output: which lines are progress reports,
//! and how far a render has come.

use vstd::prelude::*;
use crate::text::{chars_equal, chars_of, has_prefix, parse_u64, parse_u64_spec, slice_chars, starts_with};

verus! {

/// The digits after `out_time_us=`, read as microseconds, when the line is
/// such a report.
pub open spec fn out_time_us(line: Seq<char>) -> Option<u64> {
    if starts_with(line, "out_time_us="@) {
        parse_u64_spec(line.subrange("out_time_us="@.len() as int, line.len() as int))
    } else {
        None
    }
}

pub open spec fn clamp_int(x: int, lo: int, hi: int) -> int {
    if x < lo {
        lo
    } else if x > hi {
        hi
    } else {
        x
    }
}

/// The percentage a session composition has reached: elapsed output time
/// over the duration (at least 1 ms), scaled to `completed` (held within
/// 2..=99), and kept within `1..completed`.
pub open spec fn composition_progress_spec(line: Seq<char>, duration_ms: i64, completed: i16) -> Option<
    i16,
> {
    match out_time_us(line) {
        None => None,
        Some(us) => if duration_ms < 0 || completed < 0 {
            None
        } else {
            let d = if duration_ms < 1 {
                1
            } else {
                duration_ms as int
            };
            let c = clamp_int(completed as int, 2, 99);
            let scaled = if (us as int / 1000) * c > u64::MAX {
                u64::MAX as int
            } else {
                (us as int / 1000) * c
            };
            Some(clamp_int(scaled / d, 1, c - 1) as i16)
        },
    }
}

/// The percentage a clip composition has reached: elapsed output time over
/// the total (at least 1 ms), scaled to 99 and kept within `1..=99`.
pub open spec fn compose_progress_spec(line: Seq<char>, total_ms: i64) -> Option<i16> {
    match out_time_us(line) {
        None => None,
        Some(us) => if total_ms < 0 {
            None
        } else {
            let t = if total_ms < 1 {
                1
            } else {
                total_ms as int
            };
            let scaled = if (us as int / 1000) * 99 > u64::MAX {
                u64::MAX as int
            } else {
                (us as int / 1000) * 99
            };
            Some(clamp_int(scaled / t, 1, 99) as i16)
        },
    }
}

pub fn out_time(line: &str) -> (r: Option<u64>)
    ensures
        r == out_time_us(line@),
{
    let v = chars_of(line);
    let prefix = chars_of("out_time_us=");
    if !has_prefix(&v, &prefix) {
        return None;
    }
    let rest = slice_chars(&v, prefix.len(), v.len());
    parse_u64(&rest)
}

fn sat_mul(a: u64, b: u64) -> (r: u64)
    ensures
        r == (if a * b > u64::MAX {
            u64::MAX as int
        } else {
            a * b
        }),
{
    match a.checked_mul(b) {
        Some(p) => p,
        None => u64::MAX,
    }
}

/// Maps an FFmpeg `out_time_us=` line into the progress of a session
/// composition that reports `completed` when done.
pub fn composition_progress_percent(line: &str, duration_ms: i64, completed: i16) -> (r: Option<i16>)
    ensures
        r == composition_progress_spec(line@, duration_ms, completed),
{
    let elapsed_us = match out_time(line) {
        Some(us) => us,
        None => return None,
    };
    if duration_ms < 0 || completed < 0 {
        return None;
    }
    let duration: u64 = if duration_ms < 1 { 1 } else { duration_ms as u64 };
    let c0 = completed as u64;
    let c: u64 = if c0 < 2 { 2 } else if c0 > 99 { 99 } else { c0 };
    let elapsed_ms = elapsed_us / 1000;
    let scaled = sat_mul(elapsed_ms, c);
    let q = scaled / duration;
    let p: u64 = if q < 1 { 1 } else if q > c - 1 { c - 1 } else { q };
    Some(p as i16)
}

/// Maps an FFmpeg `out_time_us=` line into the progress of a clip
/// composition `total_ms` long.
pub fn compose_progress_percent(line: &str, total_ms: i64) -> (r: Option<i16>)
    ensures
        r == compose_progress_spec(line@, total_ms),
{
    let elapsed_us = match out_time(line) {
        Some(us) => us,
        None => return None,
    };
    if total_ms < 0 {
        return None;
    }
    let total: u64 = if total_ms < 1 { 1 } else { total_ms as u64 };
    let scaled = sat_mul(elapsed_us / 1000, 99);
    let q = scaled / total;
    let p: u64 = if q < 1 { 1 } else if q > 99 { 99 } else { q };
    Some(p as i16)
}

/// A session composition's reported progress stays strictly between
/// nothing and its completion value.
pub proof fn law_composition_progress_is_bounded(line: Seq<char>, duration_ms: i64, completed: i16)
    requires
        composition_progress_spec(line, duration_ms, completed) is Some,
    ensures
        1 <= composition_progress_spec(line, duration_ms, completed)->0 < clamp_int(
            completed as int,
            2,
            99,
        ),
{
}

/// More elapsed output time never lowers a clip composition's progress.
pub proof fn law_compose_progress_is_monotone(us1: u64, us2: u64, total_ms: i64)
    requires
        us1 <= us2,
        total_ms >= 0,
    ensures
        ({
            let t = if total_ms < 1 {
                1
            } else {
                total_ms as int
            };
            let s1 = if (us1 as int / 1000) * 99 > u64::MAX {
                u64::MAX as int
            } else {
                (us1 as int / 1000) * 99
            };
            let s2 = if (us2 as int / 1000) * 99 > u64::MAX {
                u64::MAX as int
            } else {
                (us2 as int / 1000) * 99
            };
            clamp_int(s1 / t, 1, 99) <= clamp_int(s2 / t, 1, 99)
        }),
{
    let t = if total_ms < 1 {
        1
    } else {
        total_ms as int
    };
    assert(us1 as int / 1000 <= us2 as int / 1000) by (nonlinear_arith)
        requires
            us1 <= us2,
    ;
    let a = us1 as int / 1000;
    let b = us2 as int / 1000;
    assert(a * 99 <= b * 99) by (nonlinear_arith)
        requires
            a <= b,
    ;
    let s1 = if a * 99 > u64::MAX {
        u64::MAX as int
    } else {
        a * 99
    };
    let s2 = if b * 99 > u64::MAX {
        u64::MAX as int
    } else {
        b * 99
    };
    assert(s1 <= s2);
    assert(s1 / t <= s2 / t) by (nonlinear_arith)
        requires
            s1 <= s2,
            t >= 1,
    ;
}

/// The keys FFmpeg writes in its `-progress` reports.
pub open spec fn progress_key(k: Seq<char>) -> bool {
    k == "bitrate"@ || k == "drop_frames"@ || k == "dup_frames"@ || k == "fps"@ || k == "frame"@
        || k == "out_time"@ || k == "out_time_ms"@ || k == "out_time_us"@ || k == "progress"@ || k
        == "speed"@ || k == "stream_0_0_q"@ || k == "total_size"@
}

/// The line holds an `=` and the text before its first `=` is a progress
/// key.
pub open spec fn is_progress_line_spec(line: Seq<char>) -> bool {
    exists|i: int|
        0 <= i < line.len() && line[i] == '=' && (forall|j: int| 0 <= j < i ==> line[j] != '=')
            && progress_key(line.subrange(0, i))
}

fn is_key(k: &[char]) -> (b: bool)
    ensures
        b == progress_key(k@),
{
    chars_equal(k, &chars_of("bitrate")) || chars_equal(k, &chars_of("drop_frames")) || chars_equal(
        k,
        &chars_of("dup_frames"),
    ) || chars_equal(k, &chars_of("fps")) || chars_equal(k, &chars_of("frame")) || chars_equal(
        k,
        &chars_of("out_time"),
    ) || chars_equal(k, &chars_of("out_time_ms")) || chars_equal(k, &chars_of("out_time_us"))
        || chars_equal(k, &chars_of("progress")) || chars_equal(k, &chars_of("speed"))
        || chars_equal(k, &chars_of("stream_0_0_q")) || chars_equal(k, &chars_of("total_size"))
}

/// Whether an FFmpeg stderr line is a `-progress` report rather than an
/// error message.
pub fn is_ffmpeg_progress_line(line: &str) -> (b: bool)
    ensures
        b == is_progress_line_spec(line@),
{
    let v = chars_of(line);
    let mut i: usize = 0;
    while i < v.len() && v[i] != '='
        invariant
            i <= v.len(),
            forall|j: int| 0 <= j < i ==> v@[j] != '=',
        decreases v.len() - i,
    {
        i = i + 1;
    }
    if i == v.len() {
        return false;
    }
    let key = slice_chars(&v, 0, i);
    let r = is_key(&key);
    proof {
        if !r {
            assert forall|k: int|
                !(0 <= k < v@.len() && v@[k] == '=' && (forall|j: int| 0 <= j < k ==> v@[j] != '=')
                    && progress_key(v@.subrange(0, k))) by {
                if 0 <= k < v@.len() && v@[k] == '=' && (forall|j: int| 0 <= j < k ==> v@[j] != '=') {
                    if k < i {
                    } else if k > i {
                        assert(v@[i as int] == '=');
                    }
                }
            }
        }
    }
    r
}

} // verus!
