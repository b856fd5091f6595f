//! Rendering a channel mix: whether a render starts, which recordings it
//! needs locally, the FFmpeg filter graph and command, and its progress.

use vstd::prelude::*;
use crate::compose::{seconds_text, texts};
use crate::errors::AppError;
use crate::mix::MixSource;
use crate::mix_plan::{first_setting_for, ChannelMixParticipantSettings};
use crate::text::{chars_of, clamp_i64, dec, dec_int, push_dec, push_dec_i64, push_str, string_of};

verus! {

/// A render starts unless one is already under way (not failed) or the
/// cache already holds this render.
pub fn should_start_render(existing_job_failed: Option<bool>, cache_valid: bool) -> (b: bool)
    ensures
        b == (!(existing_job_failed == Some(false)) && !cache_valid),
{
    match existing_job_failed {
        Some(false) => false,
        _ => !cache_valid,
    }
}

/// What a failed render reports to the client.
pub fn render_failure_message() -> (s: String)
    ensures
        s@ == "Channel mix generation failed. Try again."@,
{
    string_of(&chars_of("Channel mix generation failed. Try again."))
}

/// A render needs a positive duration and at least one source.
pub fn require_renderable(duration_ms: i64, source_count: usize) -> (r: Result<(), AppError>)
    ensures
        r is Ok <==> (duration_ms > 0 && source_count > 0),
        r matches Err(e) ==> (e matches AppError::BadRequest(m) && m@ == "Channel mix has no renderable audio"@),
{
    if duration_ms <= 0 || source_count == 0 {
        Err(AppError::BadRequest(string_of(&chars_of("Channel mix has no renderable audio"))))
    } else {
        Ok(())
    }
}

/// The distinct recorded files among `ids`, in first-seen order.
pub open spec fn distinct_in_order(ids: Seq<i64>, n: int) -> Seq<i64>
    decreases n,
{
    if n <= 0 {
        Seq::empty()
    } else {
        let prev = distinct_in_order(ids, n - 1);
        if prev.contains(ids[n - 1]) {
            prev
        } else {
            prev.push(ids[n - 1])
        }
    }
}

/// The files a render must have locally: each source's file once.
pub fn files_to_materialize(sources: &[&MixSource]) -> (r: Vec<i64>)
    ensures
        r@ == distinct_in_order(
            sources@.map_values(|s: &MixSource| s.audio_file_id),
            sources@.len() as int,
        ),
{
    let ghost ids = sources@.map_values(|s: &MixSource| s.audio_file_id);
    let mut out: Vec<i64> = Vec::new();
    let mut i: usize = 0;
    while i < sources.len()
        invariant
            i <= sources@.len(),
            ids == sources@.map_values(|s: &MixSource| s.audio_file_id),
            out@ == distinct_in_order(ids, i as int),
        decreases sources.len() - i,
    {
        let id = sources[i].audio_file_id;
        let mut seen = false;
        let mut k: usize = 0;
        while k < out.len()
            invariant
                k <= out@.len(),
                seen <==> exists|j: int| 0 <= j < k && out@[j] == id,
            decreases out.len() - k,
        {
            if out[k] == id {
                seen = true;
            }
            k = k + 1;
        }
        assert(ids[i as int] == id);
        if !seen {
            out.push(id);
        }
        i = i + 1;
    }
    out
}

/// The settings entry whose gain applies to `user`'s sources: the first
/// whose id is the user's number, if any.
pub fn gain_entry<G>(participants: &Vec<ChannelMixParticipantSettings<G>>, user: i64) -> (r: Option<usize>)
    ensures
        r == match first_setting_for(participants@, user) {
            Some(k) => Some(k as usize),
            None => None::<usize>,
        },
{
    let mut id_text: Vec<char> = Vec::new();
    push_dec_i64(&mut id_text, user);
    let mut k: usize = 0;
    while k < participants.len()
        invariant
            k <= participants@.len(),
            id_text@ == dec_int(user as int),
            forall|j: int| 0 <= j < k ==> #[trigger] participants@[j].user_id@ != id_text@,
        decreases participants.len() - k,
    {
        if crate::text::chars_equal(&chars_of(participants[k].user_id.as_str()), &id_text) {
            proof {
                assert(participants@[k as int].user_id@ == dec_int(user as int));
                let c = first_setting_for(participants@, user)->0;
                assert(c == k) by {
                    if c < k {
                        assert(participants@[c].user_id@ != id_text@);
                    }
                    if c > k {
                        assert(participants@[k as int].user_id@ != dec_int(user as int));
                    }
                }
            }
            return Some(k);
        }
        k = k + 1;
    }
    None
}

pub open spec fn mul48(x: i64) -> i64 {
    clamp_i64(x * 48)
}

fn sat_mul48(x: i64) -> (r: i64)
    ensures
        r == mul48(x),
{
    if x > i64::MAX / 48 {
        i64::MAX
    } else if x < i64::MIN / 48 {
        i64::MIN
    } else {
        x * 48
    }
}

/// The chain of one input: resampled to 48 kHz mono, trimmed to the
/// source's overlap, at its gain (`gain` is the gain's text in dB), delayed
/// to its place on the timeline, padded and cut to the mix's length.
pub open spec fn input_chain(i: nat, s: MixSource, gain: Seq<char>, duration_ms: i64) -> Seq<char> {
    let delay = dec_int(mul48(s.delay_ms) as int);
    "["@ + dec(i) + ":a]aresample=48000, aformat=sample_fmts=fltp:channel_layouts=mono, atrim=start="@
        + seconds_text(clamp_i64(s.overlap_start_ms - s.source_start_ms)) + ":end="@ + seconds_text(
        clamp_i64(s.overlap_end_ms - s.source_start_ms),
    ) + ", asetpts=PTS-STARTPTS, volume="@ + gain + "dB, adelay="@ + delay + "S|"@ + delay + "S, apad=whole_len="@
        + dec_int(mul48(duration_ms) as int) + ", atrim=duration="@ + seconds_text(duration_ms) + "[mix"@ + dec(i)
        + "];"@
}

pub open spec fn input_chains(
    sources: Seq<MixSource>,
    gains: Seq<Seq<char>>,
    duration_ms: i64,
    n: nat,
) -> Seq<char>
    decreases n,
{
    if n == 0 {
        Seq::empty()
    } else {
        input_chains(sources, gains, duration_ms, (n - 1) as nat) + input_chain(
            (n - 1) as nat,
            sources[n - 1],
            gains[n - 1],
            duration_ms,
        )
    }
}

pub open spec fn mix_labels(n: nat) -> Seq<char>
    decreases n,
{
    if n == 0 {
        Seq::empty()
    } else {
        mix_labels((n - 1) as nat) + "[mix"@ + dec((n - 1) as nat) + "]"@
    }
}

/// The filter graph of a mix: every input's chain, then all of them mixed
/// without normalization and limited.
pub open spec fn mix_filter_spec(sources: Seq<MixSource>, gains: Seq<Seq<char>>, duration_ms: i64) -> Seq<char> {
    input_chains(sources, gains, duration_ms, sources.len()) + mix_labels(sources.len())
        + "amix=inputs="@ + dec(sources.len()) + ":duration=longest:normalize=0:dropout_transition=0, alimiter=limit=0.95:attack=5:release=50:level=false, atrim=duration="@
        + seconds_text(duration_ms) + ", asetpts=N/SR/TB[out]"@
}

fn push_chain(v: &mut Vec<char>, i: usize, s: &MixSource, gain: &str, duration_ms: i64)
    ensures
        final(v)@ == old(v)@ + input_chain(i as nat, *s, gain@, duration_ms),
{
    let ghost start = v@;
    let delay = sat_mul48(s.delay_ms);
    push_str(v, "[");
    push_dec(v, i as u64);
    push_str(v, ":a]aresample=48000, aformat=sample_fmts=fltp:channel_layouts=mono, atrim=start=");
    let a = crate::compose::milliseconds_as_seconds(crate::text::sat_sub(s.overlap_start_ms, s.source_start_ms));
    push_str(v, a.as_str());
    push_str(v, ":end=");
    let b = crate::compose::milliseconds_as_seconds(crate::text::sat_sub(s.overlap_end_ms, s.source_start_ms));
    push_str(v, b.as_str());
    let ghost mid = v@;
    push_str(v, ", asetpts=PTS-STARTPTS, volume=");
    push_str(v, gain);
    push_str(v, "dB, adelay=");
    push_dec_i64(v, delay);
    push_str(v, "S|");
    push_dec_i64(v, delay);
    let ghost mid2 = v@;
    push_str(v, "S, apad=whole_len=");
    push_dec_i64(v, sat_mul48(duration_ms));
    push_str(v, ", atrim=duration=");
    let d = crate::compose::milliseconds_as_seconds(duration_ms);
    push_str(v, d.as_str());
    push_str(v, "[mix");
    push_dec(v, i as u64);
    push_str(v, "];");
    assert(v@ =~= start + input_chain(i as nat, *s, gain@, duration_ms));
}

/// The filter graph that mixes `sources` (one gain text per source) into
/// `duration_ms` of audio.
pub fn build_mix_filter(sources: &[&MixSource], gains: &[String], duration_ms: i64) -> (r: String)
    requires
        gains@.len() == sources@.len(),
    ensures
        r@ == mix_filter_spec(sources@.map_values(|s: &MixSource| *s), texts(gains@), duration_ms),
{
    let ghost srcs = sources@.map_values(|s: &MixSource| *s);
    let ghost gs = texts(gains@);
    let mut v: Vec<char> = Vec::new();
    let mut i: usize = 0;
    while i < sources.len()
        invariant
            i <= sources@.len(),
            gains@.len() == sources@.len(),
            srcs == sources@.map_values(|s: &MixSource| *s),
            gs == texts(gains@),
            v@ == input_chains(srcs, gs, duration_ms, i as nat),
        decreases sources.len() - i,
    {
        push_chain(&mut v, i, sources[i], gains[i].as_str(), duration_ms);
        assert(srcs[i as int] == *sources@[i as int]);
        assert(gs[i as int] == gains@[i as int]@);
        i = i + 1;
    }
    let ghost chains = v@;
    let mut j: usize = 0;
    while j < sources.len()
        invariant
            j <= sources@.len(),
            v@ == chains + mix_labels(j as nat),
        decreases sources.len() - j,
    {
        push_str(&mut v, "[mix");
        push_dec(&mut v, j as u64);
        push_str(&mut v, "]");
        assert(v@ =~= chains + mix_labels((j + 1) as nat));
        j = j + 1;
    }
    push_str(&mut v, "amix=inputs=");
    push_dec(&mut v, sources.len() as u64);
    push_str(
        &mut v,
        ":duration=longest:normalize=0:dropout_transition=0, alimiter=limit=0.95:attack=5:release=50:level=false, atrim=duration=",
    );
    let d = crate::compose::milliseconds_as_seconds(duration_ms);
    push_str(&mut v, d.as_str());
    push_str(&mut v, ", asetpts=N/SR/TB[out]");
    assert(v@ =~= mix_filter_spec(srcs, gs, duration_ms));
    string_of(&v)
}

pub open spec fn path_inputs(paths: Seq<Seq<char>>, n: int) -> Seq<Seq<char>>
    decreases n,
{
    if n <= 0 {
        Seq::empty()
    } else {
        path_inputs(paths, n - 1) + seq!["-i"@, paths[n - 1]]
    }
}

/// The FFmpeg command line of a mix render: quiet, one input per source
/// file, the filter graph, mono 48 kHz Opus at 96 kb/s cut to the mix's
/// length, progress on stderr.
pub open spec fn mix_args_spec(paths: Seq<Seq<char>>, filter: Seq<char>, duration_ms: i64, output: Seq<char>) -> Seq<
    Seq<char>,
> {
    seq!["-y"@, "-hide_banner"@, "-loglevel"@, "error"@, "-nostdin"@] + path_inputs(paths, paths.len() as int) + seq![
        "-filter_complex"@,
        filter,
        "-map"@,
        "[out]"@,
        "-ar"@,
        "48000"@,
        "-ac"@,
        "1"@,
        "-c:a"@,
        "libopus"@,
        "-b:a"@,
        "96k"@,
        "-t"@,
        seconds_text(duration_ms),
        "-progress"@,
        "pipe:2"@,
        "-nostats"@,
        output,
    ]
}

fn arg(v: &mut Vec<String>, a: &str)
    ensures
        texts(final(v)@) == texts(old(v)@).push(a@),
{
    let ghost before = v@;
    v.push(string_of(&chars_of(a)));
    assert(texts(v@) =~= texts(before).push(a@));
}

/// The FFmpeg arguments of a mix render.
pub fn mix_ffmpeg_args(paths: &[String], filter: &str, duration_ms: i64, output: &str) -> (r: Vec<String>)
    ensures
        texts(r@) == mix_args_spec(texts(paths@), filter@, duration_ms, output@),
{
    let ghost ps = texts(paths@);
    let mut v: Vec<String> = Vec::new();
    arg(&mut v, "-y");
    arg(&mut v, "-hide_banner");
    arg(&mut v, "-loglevel");
    arg(&mut v, "error");
    arg(&mut v, "-nostdin");
    let ghost head = texts(v@);
    let mut i: usize = 0;
    while i < paths.len()
        invariant
            i <= paths@.len(),
            ps == texts(paths@),
            texts(v@) == head + path_inputs(ps, i as int),
        decreases paths.len() - i,
    {
        arg(&mut v, "-i");
        arg(&mut v, paths[i].as_str());
        assert(ps[i as int] == paths@[i as int]@);
        assert(texts(v@) =~= head + path_inputs(ps, i + 1));
        i = i + 1;
    }
    arg(&mut v, "-filter_complex");
    arg(&mut v, filter);
    arg(&mut v, "-map");
    arg(&mut v, "[out]");
    arg(&mut v, "-ar");
    arg(&mut v, "48000");
    arg(&mut v, "-ac");
    arg(&mut v, "1");
    arg(&mut v, "-c:a");
    arg(&mut v, "libopus");
    arg(&mut v, "-b:a");
    arg(&mut v, "96k");
    arg(&mut v, "-t");
    let d = crate::compose::milliseconds_as_seconds(duration_ms);
    arg(&mut v, d.as_str());
    arg(&mut v, "-progress");
    arg(&mut v, "pipe:2");
    arg(&mut v, "-nostats");
    arg(&mut v, output);
    assert(texts(v@) =~= mix_args_spec(ps, filter@, duration_ms, output@));
    v
}

/// The progress a mix render reports for a progress line: the share of
/// the mix's length FFmpeg has written, scaled to 1..=99.
pub open spec fn mix_progress_spec(line: Seq<char>, duration_ms: i64) -> Option<i16> {
    match crate::progress::out_time_us(line) {
        Some(us) => {
            let d: int = if duration_ms >= 1 {
                duration_ms as int
            } else {
                1
            };
            let total: int = if d * 1000 > u64::MAX {
                u64::MAX as int
            } else {
                d * 1000
            };
            let scaled: int = if us * 99 > u64::MAX {
                u64::MAX as int
            } else {
                us * 99
            };
            let q: int = scaled / total;
            Some(
                (if q < 1 {
                    1
                } else if q > 99 {
                    99
                } else {
                    q
                }) as i16,
            )
        },
        None => None,
    }
}

/// The progress of a mix render from one stderr line, if it reports time.
pub fn mix_progress_percent(line: &str, duration_ms: i64) -> (r: Option<i16>)
    ensures
        r == mix_progress_spec(line@, duration_ms),
{
    match crate::progress::out_time(line) {
        Some(us) => {
            let d: u64 = if duration_ms >= 1 {
                duration_ms as u64
            } else {
                1
            };
            let total: u64 = if d > u64::MAX / 1000 {
                u64::MAX
            } else {
                d * 1000
            };
            assert(d * 1000 > u64::MAX <==> d > u64::MAX / 1000);
            let scaled: u64 = if us > u64::MAX / 99 {
                u64::MAX
            } else {
                us * 99
            };
            assert(us * 99 > u64::MAX <==> us > u64::MAX / 99);
            let q = scaled / total;
            let p: u64 = if q < 1 {
                1
            } else if q > 99 {
                99
            } else {
                q
            };
            Some(p as i16)
        },
        None => None,
    }
}

} // verus!
