//! The manifest of a recording session: its timeline of audio and silence,
//! the channels it went through, and its events, as the player reads them.

use vstd::prelude::*;
use crate::mix::opt_view;
use crate::order::{is_stable_order, stable_order};
use crate::session::{AudioFragment, Gap, SessionAccess};
use crate::text::{chars_equal, chars_of, clamp_i64, dec_int, push_dec_i64, push_str, sat_sub, string_of};

verus! {

/// One stretch of a session's timeline, in milliseconds from its start.
#[derive(Debug)]
pub struct SessionSegmentDto {
    pub kind: String,
    pub start_ms: i64,
    pub end_ms: i64,
    pub channel_id: Option<String>,
    pub from_channel_id: Option<String>,
    pub to_channel_id: Option<String>,
    pub audio_file_id: Option<String>,
    pub file_name: Option<String>,
    pub segment_index: Option<i32>,
    pub reason: Option<String>,
    pub media_url: Option<String>,
    pub hls_playlist_url: Option<String>,
}

/// The latest end among the first `n` fragments that have ended.
pub open spec fn latest_end(fs: Seq<AudioFragment>, n: int) -> Option<i64>
    decreases n,
{
    if n <= 0 {
        None
    } else {
        match (latest_end(fs, n - 1), fs[n - 1].end_ms) {
            (Some(a), Some(b)) => Some(crate::mix::max_i64(a, b)),
            (None, Some(b)) => Some(b),
            (a, None) => a,
        }
    }
}

/// Where a manifest's timeline ends: the session's timeline end, or later
/// when a fragment ended later.
pub open spec fn manifest_end_spec(access: SessionAccess, fs: Seq<AudioFragment>, timeline_end_ms: i64) -> i64 {
    crate::mix::max_i64(
        timeline_end_ms,
        match latest_end(fs, fs.len() as int) {
            Some(e) => e,
            None => access.started_at_ms,
        },
    )
}

proof fn lemma_latest_end(fs: Seq<AudioFragment>, n: int)
    requires
        0 <= n <= fs.len(),
    ensures
        latest_end(fs, n) is None <==> forall|i: int| #![trigger fs[i]] 0 <= i < n ==> fs[i].end_ms is None,
        latest_end(fs, n) matches Some(m) ==> {
            &&& forall|i: int| #![trigger fs[i]] 0 <= i < n && fs[i].end_ms is Some ==> fs[i].end_ms->0 <= m
            &&& exists|i: int| #![trigger fs[i]] 0 <= i < n && fs[i].end_ms == Some(m)
        },
    decreases n,
{
    if n > 0 {
        lemma_latest_end(fs, n - 1);
        let last = fs[n - 1];
        match latest_end(fs, n - 1) {
            Some(a) => {
                let w = choose|i: int| #![trigger fs[i]] 0 <= i < n - 1 && fs[i].end_ms == Some(a);
                assert(fs[w].end_ms == Some(a));
                match last.end_ms {
                    Some(b) => {
                        if a >= b {
                            assert(latest_end(fs, n) == Some(a));
                        } else {
                            assert(latest_end(fs, n) == Some(b));
                            assert(fs[n - 1].end_ms == Some(b));
                        }
                    },
                    None => {
                        assert(latest_end(fs, n) == Some(a));
                    },
                }
            },
            None => {
                match last.end_ms {
                    Some(b) => {
                        assert(latest_end(fs, n) == Some(b));
                        assert(fs[n - 1].end_ms == Some(b));
                    },
                    None => {
                        assert(latest_end(fs, n) is None);
                    },
                }
            },
        }
    }
}

/// A manifest's timeline reaches at least the session's timeline end and
/// every end a fragment has reached, however late: no ended fragment is cut
/// off. It ends at the latest of these, and at the later of the timeline end
/// and the session start when no fragment has ended yet.
pub proof fn law_manifest_end_covers_every_fragment(access: SessionAccess, fs: Seq<AudioFragment>, timeline_end_ms: i64)
    ensures
        manifest_end_spec(access, fs, timeline_end_ms) >= timeline_end_ms,
        forall|i: int|
            #![trigger fs[i]]
            0 <= i < fs.len() && fs[i].end_ms is Some ==> fs[i].end_ms->0 <= manifest_end_spec(
                access,
                fs,
                timeline_end_ms,
            ),
        (exists|i: int| #![trigger fs[i]] 0 <= i < fs.len() && fs[i].end_ms is Some) ==> (manifest_end_spec(
            access,
            fs,
            timeline_end_ms,
        ) == timeline_end_ms || exists|i: int|
            #![trigger fs[i]]
            0 <= i < fs.len() && fs[i].end_ms == Some(manifest_end_spec(access, fs, timeline_end_ms))),
        (forall|i: int| #![trigger fs[i]] 0 <= i < fs.len() ==> fs[i].end_ms is None) ==> manifest_end_spec(
            access,
            fs,
            timeline_end_ms,
        ) == (if timeline_end_ms >= access.started_at_ms {
            timeline_end_ms
        } else {
            access.started_at_ms
        }),
{
    lemma_latest_end(fs, fs.len() as int);
    let m = manifest_end_spec(access, fs, timeline_end_ms);
    match latest_end(fs, fs.len() as int) {
        Some(e) => {
            let w = choose|i: int| #![trigger fs[i]] 0 <= i < fs.len() && fs[i].end_ms == Some(e);
            assert(fs[w].end_ms == Some(e));
            if m != timeline_end_ms {
                assert(fs[w].end_ms == Some(m));
            }
        },
        None => {},
    }
}

/// The end of a manifest's timeline.
pub fn manifest_end_ms(access: &SessionAccess, fragments: &[AudioFragment], timeline_end_ms: i64) -> (e: i64)
    ensures
        e == manifest_end_spec(*access, fragments@, timeline_end_ms),
        e >= timeline_end_ms,
        forall|i: int|
            #![trigger fragments@[i]]
            0 <= i < fragments@.len() && fragments@[i].end_ms is Some ==> fragments@[i].end_ms->0 <= e,
{
    proof {
        law_manifest_end_covers_every_fragment(*access, fragments@, timeline_end_ms);
    }
    let mut latest: Option<i64> = None;
    let mut i: usize = 0;
    while i < fragments.len()
        invariant
            i <= fragments@.len(),
            latest == latest_end(fragments@, i as int),
        decreases fragments.len() - i,
    {
        latest = match (latest, fragments[i].end_ms) {
            (Some(a), Some(b)) => Some(crate::mix::max_of(a, b)),
            (None, Some(b)) => Some(b),
            (a, None) => a,
        };
        i = i + 1;
    }
    crate::mix::max_of(
        timeline_end_ms,
        match latest {
            Some(e) => e,
            None => access.started_at_ms,
        },
    )
}

pub open spec fn segment_url(session_id: i64, file_id: i64) -> Seq<char> {
    "/api/audio/sessions/"@ + dec_int(session_id as int) + "/segments/"@ + dec_int(file_id as int)
}

pub open spec fn live_playlist_url(session_id: i64, file_id: i64) -> Seq<char> {
    "/api/audio/sessions/"@ + dec_int(session_id as int) + "/live/"@ + dec_int(file_id as int) + "/playlist.m3u8"@
}

pub open spec fn id_text(o: Option<i64>) -> Option<Seq<char>> {
    match o {
        Some(v) => Some(dec_int(v as int)),
        None => None,
    }
}

/// Where fragment `f` ends on a manifest ending at `end_ms`: its own end,
/// or (still recording) the manifest's end, never before it starts.
pub open spec fn fragment_end(f: AudioFragment, end_ms: i64) -> i64 {
    match f.end_ms {
        Some(e) => e,
        None => crate::mix::max_i64(end_ms, f.start_ms),
    }
}

/// `s` is the manifest segment of fragment `f`.
pub open spec fn fragment_segment_ok(s: SessionSegmentDto, f: AudioFragment, access: SessionAccess, end_ms: i64) -> bool {
    &&& s.kind@ == if f.live {
        "active_hls"@
    } else {
        "audio"@
    }
    &&& s.start_ms == clamp_i64(f.start_ms - access.started_at_ms)
    &&& s.end_ms == clamp_i64(fragment_end(f, end_ms) - access.started_at_ms)
    &&& opt_view(s.channel_id) == Some(dec_int(f.channel_id as int))
    &&& s.from_channel_id is None
    &&& s.to_channel_id is None
    &&& opt_view(s.audio_file_id) == Some(dec_int(f.id as int))
    &&& opt_view(s.file_name) == Some(f.file_name@)
    &&& s.segment_index == f.segment_index
    &&& s.reason is None
    &&& opt_view(s.media_url) == Some(segment_url(access.session_id, f.id))
    &&& opt_view(s.hls_playlist_url) == if f.live {
        Some(live_playlist_url(access.session_id, f.id))
    } else {
        None
    }
}

/// `s` is the manifest segment of gap `g`.
pub open spec fn gap_segment_ok(s: SessionSegmentDto, g: Gap, access: SessionAccess) -> bool {
    &&& s.kind@ == "silence"@
    &&& s.start_ms == clamp_i64(g.start_ms - access.started_at_ms)
    &&& s.end_ms == clamp_i64(g.end_ms - access.started_at_ms)
    &&& s.channel_id is None
    &&& opt_view(s.from_channel_id) == id_text(g.from_channel_id)
    &&& opt_view(s.to_channel_id) == id_text(g.to_channel_id)
    &&& s.audio_file_id is None
    &&& s.file_name is None
    &&& s.segment_index is None
    &&& opt_view(s.reason) == Some(g.reason@)
    &&& s.media_url is None
    &&& s.hls_playlist_url is None
}

fn dec_string(n: i64) -> (s: String)
    ensures
        s@ == dec_int(n as int),
{
    let mut v: Vec<char> = Vec::new();
    push_dec_i64(&mut v, n);
    string_of(&v)
}

fn opt_dec_string(o: Option<i64>) -> (s: Option<String>)
    ensures
        opt_view(s) == id_text(o),
{
    match o {
        Some(v) => Some(dec_string(v)),
        None => None,
    }
}

fn url_with(prefix: &str, a: i64, middle: &str, b: i64, suffix: &str) -> (s: String)
    ensures
        s@ == prefix@ + dec_int(a as int) + middle@ + dec_int(b as int) + suffix@,
{
    let mut v = chars_of(prefix);
    push_dec_i64(&mut v, a);
    push_str(&mut v, middle);
    push_dec_i64(&mut v, b);
    push_str(&mut v, suffix);
    string_of(&v)
}

/// The manifest segment of a fragment.
pub fn fragment_segment(f: &AudioFragment, access: &SessionAccess, end_ms: i64) -> (s: SessionSegmentDto)
    ensures
        fragment_segment_ok(s, *f, *access, end_ms),
{
    let fend = match f.end_ms {
        Some(e) => e,
        None => crate::mix::max_of(end_ms, f.start_ms),
    };
    proof {
        reveal_strlit("");
    }
    let media = url_with("/api/audio/sessions/", access.session_id, "/segments/", f.id, "");
    assert(media@ =~= segment_url(access.session_id, f.id));
    SessionSegmentDto {
        kind: if f.live {
            string_of(&chars_of("active_hls"))
        } else {
            string_of(&chars_of("audio"))
        },
        start_ms: sat_sub(f.start_ms, access.started_at_ms),
        end_ms: sat_sub(fend, access.started_at_ms),
        channel_id: Some(dec_string(f.channel_id)),
        from_channel_id: None,
        to_channel_id: None,
        audio_file_id: Some(dec_string(f.id)),
        file_name: Some(string_of(&chars_of(f.file_name.as_str()))),
        segment_index: f.segment_index,
        reason: None,
        media_url: Some(media),
        hls_playlist_url: if f.live {
            Some(url_with("/api/audio/sessions/", access.session_id, "/live/", f.id, "/playlist.m3u8"))
        } else {
            None
        },
    }
}

/// The manifest segment of a gap.
pub fn gap_segment(g: &Gap, access: &SessionAccess) -> (s: SessionSegmentDto)
    ensures
        gap_segment_ok(s, *g, *access),
{
    SessionSegmentDto {
        kind: string_of(&chars_of("silence")),
        start_ms: sat_sub(g.start_ms, access.started_at_ms),
        end_ms: sat_sub(g.end_ms, access.started_at_ms),
        channel_id: None,
        from_channel_id: opt_dec_string(g.from_channel_id),
        to_channel_id: opt_dec_string(g.to_channel_id),
        audio_file_id: None,
        file_name: None,
        segment_index: None,
        reason: Some(string_of(&chars_of(g.reason.as_str()))),
        media_url: None,
        hls_playlist_url: None,
    }
}

/// The (start, end) of each segment: fragments, then gaps.
pub open spec fn segment_keys(fs: Seq<AudioFragment>, gs: Seq<Gap>, access: SessionAccess, end_ms: i64) -> Seq<
    (i64, i64),
> {
    fs.map_values(
        |f: AudioFragment|
            (
                clamp_i64(f.start_ms - access.started_at_ms),
                clamp_i64(fragment_end(f, end_ms) - access.started_at_ms),
            ),
    ) + gs.map_values(
        |g: Gap| (clamp_i64(g.start_ms - access.started_at_ms), clamp_i64(g.end_ms - access.started_at_ms)),
    )
}

/// `s` is the segment of item `i`: a fragment for the first positions,
/// then a gap.
pub open spec fn item_segment_ok(
    s: SessionSegmentDto,
    i: int,
    fs: Seq<AudioFragment>,
    gs: Seq<Gap>,
    access: SessionAccess,
    end_ms: i64,
) -> bool {
    if i < fs.len() {
        fragment_segment_ok(s, fs[i], access, end_ms)
    } else {
        gap_segment_ok(s, gs[i - fs.len()], access)
    }
}

/// The segments of a manifest: one per fragment and per gap, stably sorted
/// by start and end.
pub fn manifest_segments(
    access: &SessionAccess,
    fragments: &[AudioFragment],
    gaps: &[Gap],
    end_ms: i64,
) -> (r: Vec<SessionSegmentDto>)
    requires
        fragments@.len() + gaps@.len() <= usize::MAX,
    ensures
        exists|order: Seq<usize>|
            is_stable_order(segment_keys(fragments@, gaps@, *access, end_ms), order) && order.len() == r@.len()
                && forall|k: int|
                0 <= k < r@.len() ==> item_segment_ok(
                    #[trigger] r@[k],
                    order[k] as int,
                    fragments@,
                    gaps@,
                    *access,
                    end_ms,
                ),
{
    let ghost want = segment_keys(fragments@, gaps@, *access, end_ms);
    let mut keys: Vec<(i64, i64)> = Vec::new();
    let mut i: usize = 0;
    while i < fragments.len()
        invariant
            i <= fragments@.len(),
            want == segment_keys(fragments@, gaps@, *access, end_ms),
            keys@ == want.take(i as int),
        decreases fragments.len() - i,
    {
        let f = &fragments[i];
        let fend = match f.end_ms {
            Some(e) => e,
            None => crate::mix::max_of(end_ms, f.start_ms),
        };
        keys.push((sat_sub(f.start_ms, access.started_at_ms), sat_sub(fend, access.started_at_ms)));
        assert(keys@ =~= want.take(i + 1));
        i = i + 1;
    }
    let nf = fragments.len();
    let mut j: usize = 0;
    while j < gaps.len()
        invariant
            j <= gaps@.len(),
            nf == fragments@.len(),
            nf + gaps@.len() <= usize::MAX,
            want == segment_keys(fragments@, gaps@, *access, end_ms),
            keys@ == want.take(nf + j),
        decreases gaps.len() - j,
    {
        let g = &gaps[j];
        keys.push((sat_sub(g.start_ms, access.started_at_ms), sat_sub(g.end_ms, access.started_at_ms)));
        assert(keys@ =~= want.take(nf + j + 1));
        j = j + 1;
    }
    assert(keys@ =~= want);
    let order = stable_order(&keys);
    let mut out: Vec<SessionSegmentDto> = Vec::new();
    let mut k: usize = 0;
    while k < order.len()
        invariant
            k <= order@.len(),
            order@.len() == keys@.len(),
            keys@ == want,
            nf == fragments@.len(),
            want.len() == fragments@.len() + gaps@.len(),
            forall|q: int| 0 <= q < order@.len() ==> #[trigger] order@[q] < keys@.len(),
            out@.len() == k,
            forall|q: int|
                0 <= q < k ==> item_segment_ok(#[trigger] out@[q], order@[q] as int, fragments@, gaps@, *access, end_ms),
        decreases order.len() - k,
    {
        let idx = order[k];
        assert(idx < keys@.len());
        let seg = if idx < nf {
            fragment_segment(&fragments[idx], access, end_ms)
        } else {
            gap_segment(&gaps[idx - nf], access)
        };
        out.push(seg);
        k = k + 1;
    }
    out
}

/// The channels a session went through: its starting channel, then each
/// fragment's channel when it differs from the one before, then the
/// channel the recorder is in now when that differs too.
pub open spec fn journey_spec(access: SessionAccess, fs: Seq<AudioFragment>, current: Option<i64>) -> Seq<Seq<char>> {
    let through = journey_through(access, fs, fs.len() as int);
    match current {
        Some(c) => if through.last() != dec_int(c as int) {
            through.push(dec_int(c as int))
        } else {
            through
        },
        None => through,
    }
}

pub open spec fn journey_through(access: SessionAccess, fs: Seq<AudioFragment>, n: int) -> Seq<Seq<char>>
    decreases n,
{
    if n <= 0 {
        seq![dec_int(access.starting_channel_id as int)]
    } else {
        let prev = journey_through(access, fs, n - 1);
        let c = dec_int(fs[n - 1].channel_id as int);
        if prev.last() != c {
            prev.push(c)
        } else {
            prev
        }
    }
}

proof fn lemma_journey_nonempty(access: SessionAccess, fs: Seq<AudioFragment>, n: int)
    ensures
        journey_through(access, fs, n).len() >= 1,
    decreases n,
{
    if n > 0 {
        lemma_journey_nonempty(access, fs, n - 1);
    }
}

pub open spec fn texts(v: Seq<String>) -> Seq<Seq<char>> {
    v.map_values(|s: String| s@)
}

fn push_if_new(journey: &mut Vec<String>, id: i64)
    requires
        old(journey)@.len() >= 1,
    ensures
        texts(final(journey)@) == if texts(old(journey)@).last() != dec_int(id as int) {
            texts(old(journey)@).push(dec_int(id as int))
        } else {
            texts(old(journey)@)
        },
{
    let c = dec_string(id);
    let n = journey.len();
    let same = chars_equal(&chars_of(journey[n - 1].as_str()), &chars_of(c.as_str()));
    assert(texts(journey@).last() == journey@[n - 1]@);
    if !same {
        let ghost before = journey@;
        journey.push(c);
        assert(texts(journey@) =~= texts(before).push(dec_int(id as int)));
    }
}

/// The channels a session went through, as ids in text.
pub fn channel_journey(access: &SessionAccess, fragments: &[AudioFragment], current_channel_id: Option<i64>) -> (r: Vec<
    String,
>)
    ensures
        texts(r@) == journey_spec(*access, fragments@, current_channel_id),
{
    let mut journey: Vec<String> = Vec::new();
    journey.push(dec_string(access.starting_channel_id));
    assert(texts(journey@) =~= journey_through(*access, fragments@, 0));
    let mut i: usize = 0;
    while i < fragments.len()
        invariant
            i <= fragments@.len(),
            texts(journey@) == journey_through(*access, fragments@, i as int),
            journey@.len() >= 1,
        decreases fragments.len() - i,
    {
        push_if_new(&mut journey, fragments[i].channel_id);
        proof {
            lemma_journey_nonempty(*access, fragments@, i + 1);
        }
        i = i + 1;
    }
    match current_channel_id {
        Some(c) => push_if_new(&mut journey, c),
        None => {},
    }
    journey
}

/// One event on a session's timeline: where it comes from, what happened,
/// when (milliseconds from the session's start), the channels involved,
/// and its details (a JSON document the server builds).
#[derive(Debug)]
pub struct SessionTimelineEventDto<D> {
    pub source: String,
    pub event_type: String,
    pub offset_ms: i64,
    pub channel_id: Option<String>,
    pub previous_channel_id: Option<String>,
    pub details: D,
}

/// How many leading events of `s` happen at or before `t`.
pub open spec fn events_at_or_before<D>(s: Seq<SessionTimelineEventDto<D>>, t: i64) -> int
    decreases s.len(),
{
    if s.len() == 0 {
        0
    } else if s[0].offset_ms <= t {
        1 + events_at_or_before(s.drop_first(), t)
    } else {
        0
    }
}

/// The stable sort of events by offset.
pub open spec fn sorted_events<D>(s: Seq<SessionTimelineEventDto<D>>) -> Seq<SessionTimelineEventDto<D>>
    decreases s.len(),
{
    if s.len() == 0 {
        Seq::empty()
    } else {
        let rest = sorted_events(s.drop_last());
        let p = events_at_or_before(rest, s.last().offset_ms);
        rest.take(p) + seq![s.last()] + rest.skip(p)
    }
}

proof fn lemma_events_at_or_before<D>(s: Seq<SessionTimelineEventDto<D>>, t: i64, p: int)
    requires
        0 <= p <= s.len(),
        forall|q: int| 0 <= q < p ==> (#[trigger] s[q]).offset_ms <= t,
        p < s.len() ==> s[p].offset_ms > t,
    ensures
        events_at_or_before(s, t) == p,
    decreases p,
{
    if p > 0 {
        assert forall|q: int| 0 <= q < p - 1 implies (#[trigger] s.drop_first()[q]).offset_ms <= t by {
            assert(s.drop_first()[q] == s[q + 1]);
        }
        if p - 1 < s.drop_first().len() {
            assert(s.drop_first()[p - 1] == s[p]);
        }
        lemma_events_at_or_before(s.drop_first(), t, p - 1);
    }
}

/// The events of a session in time order; events at the same offset keep
/// the order they were given in.
pub fn sort_events<D>(events: Vec<SessionTimelineEventDto<D>>) -> (r: Vec<SessionTimelineEventDto<D>>)
    ensures
        r@ == sorted_events(events@),
{
    let ghost all = events@;
    let n = events.len();
    let mut rest = events;
    let mut out: Vec<SessionTimelineEventDto<D>> = Vec::new();
    let mut i: usize = 0;
    while rest.len() > 0
        invariant
            i <= all.len(),
            all.len() == n,
            rest@ == all.skip(i as int),
            out@ == sorted_events(all.take(i as int)),
        decreases rest@.len(),
    {
        let ghost before = rest@;
        let e = rest.remove(0);
        assert(e == all[i as int]);
        assert(rest@ =~= all.skip(i + 1));
        let t = e.offset_ms;
        let mut p: usize = 0;
        while p < out.len() && out[p].offset_ms <= t
            invariant
                p <= out@.len(),
                forall|q: int| 0 <= q < p ==> (#[trigger] out@[q]).offset_ms <= t,
            decreases out.len() - p,
        {
            p = p + 1;
        }
        proof {
            lemma_events_at_or_before(out@, t, p as int);
            let taken = all.take(i + 1);
            assert(taken.drop_last() =~= all.take(i as int));
            assert(taken.last() == e);
        }
        let ghost prev = out@;
        out.insert(p, e);
        assert(out@ =~= prev.take(p as int) + seq![e] + prev.skip(p as int));
        i = i + 1;
    }
    assert(all.take(i as int) =~= all);
    out
}

/// The events of a session: its own, the recorder's voice-state changes
/// and the bot's connection operations, in time order (same-offset events
/// in that order).
pub fn merge_session_events<D>(
    recording: Vec<SessionTimelineEventDto<D>>,
    voice_state: Vec<SessionTimelineEventDto<D>>,
    voice_connection: Vec<SessionTimelineEventDto<D>>,
) -> (r: Vec<SessionTimelineEventDto<D>>)
    ensures
        r@ == sorted_events(recording@ + voice_state@ + voice_connection@),
{
    let mut all = recording;
    let mut v = voice_state;
    let mut c = voice_connection;
    all.append(&mut v);
    all.append(&mut c);
    sort_events(all)
}

/// The type of a bot connection event: what triggered it and how it ended.
pub fn connection_event_type(trigger: &str, outcome: &str) -> (s: String)
    ensures
        s@ == trigger@ + ":"@ + outcome@,
{
    let mut v = chars_of(trigger);
    push_str(&mut v, ":");
    push_str(&mut v, outcome);
    string_of(&v)
}

/// A session's manifest.
#[derive(Debug)]
pub struct SessionManifestDto<D> {
    pub recording_session_id: String,
    pub guild_id: String,
    pub user_id: String,
    pub state: String,
    pub started_at_ms: i64,
    pub ended_at_ms: Option<i64>,
    pub duration_ms: i64,
    pub starting_channel_id: String,
    pub current_channel_id: Option<String>,
    pub channel_journey: Vec<String>,
    pub events: Vec<SessionTimelineEventDto<D>>,
    pub segments: Vec<SessionSegmentDto>,
}

/// Assembles a session's manifest from its fragments and gaps, where its
/// timeline ends, the channel its recorder is in now, and its events
/// (already in time order).
pub fn build_manifest<D>(
    access: &SessionAccess,
    fragments: &[AudioFragment],
    gaps: &[Gap],
    timeline_end_ms: i64,
    current_channel_id: Option<i64>,
    events: Vec<SessionTimelineEventDto<D>>,
) -> (m: SessionManifestDto<D>)
    requires
        fragments@.len() + gaps@.len() <= usize::MAX,
    ensures
        m.recording_session_id@ == dec_int(access.session_id as int),
        m.guild_id@ == dec_int(access.guild_id as int),
        m.user_id@ == dec_int(access.user_id as int),
        m.state@ == access.state@,
        m.started_at_ms == access.started_at_ms,
        m.ended_at_ms == access.ended_at_ms,
        m.duration_ms == clamp_i64(manifest_end_spec(*access, fragments@, timeline_end_ms) - access.started_at_ms),
        m.starting_channel_id@ == dec_int(access.starting_channel_id as int),
        opt_view(m.current_channel_id) == id_text(current_channel_id),
        texts(m.channel_journey@) == journey_spec(*access, fragments@, current_channel_id),
        m.events == events,
        exists|order: Seq<usize>|
            is_stable_order(
                segment_keys(fragments@, gaps@, *access, manifest_end_spec(*access, fragments@, timeline_end_ms)),
                order,
            ) && order.len() == m.segments@.len() && forall|k: int|
                0 <= k < m.segments@.len() ==> item_segment_ok(
                    #[trigger] m.segments@[k],
                    order[k] as int,
                    fragments@,
                    gaps@,
                    *access,
                    manifest_end_spec(*access, fragments@, timeline_end_ms),
                ),
{
    let end_ms = manifest_end_ms(access, fragments, timeline_end_ms);
    let segments = manifest_segments(access, fragments, gaps, end_ms);
    SessionManifestDto {
        recording_session_id: dec_string(access.session_id),
        guild_id: dec_string(access.guild_id),
        user_id: dec_string(access.user_id),
        state: string_of(&chars_of(access.state.as_str())),
        started_at_ms: access.started_at_ms,
        ended_at_ms: access.ended_at_ms,
        duration_ms: sat_sub(end_ms, access.started_at_ms),
        starting_channel_id: dec_string(access.starting_channel_id),
        current_channel_id: opt_dec_string(current_channel_id),
        channel_journey: channel_journey(access, fragments, current_channel_id),
        events,
        segments,
    }
}

} // verus!
