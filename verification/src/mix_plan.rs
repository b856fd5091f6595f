//! The plan of a channel mix: what the caller asked for, who contributes,
//! which stretches of which files are mixed, and the status reported for it.

use vstd::prelude::*;
use crate::errors::AppError;
use crate::mix::{ChannelMixParticipant, ChannelMixTrack, MixInterval, MixSource, MixWindow};
use crate::session::{AudioFragment, SessionAccess};
use crate::text::{chars_equal, chars_of, string_of};

verus! {

/// Where a mix stands.
#[derive(Clone, Copy, Debug, PartialEq, Eq, Structural)]
pub enum ChannelMixStatus {
    Unavailable,
    Waiting,
    Idle,
    Processing,
    Ready,
    Failed,
}

/// Which recordings a mix covers: everything recorded while the bot was
/// connected, or the selected session and what overlaps it.
#[derive(Clone, Copy, Debug, PartialEq, Eq, Structural)]
pub enum ChannelMixScope {
    AllRecordings,
    SelectedSession,
}

pub open spec fn scope_text(scope: ChannelMixScope) -> Seq<char> {
    match scope {
        ChannelMixScope::AllRecordings => "all_recordings"@,
        ChannelMixScope::SelectedSession => "selected_session"@,
    }
}

impl ChannelMixScope {
    /// The scope's name in URLs and fingerprints.
    pub fn as_str(self) -> (s: &'static str)
        ensures
            s@ == scope_text(self),
    {
        match self {
            ChannelMixScope::AllRecordings => "all_recordings",
            ChannelMixScope::SelectedSession => "selected_session",
        }
    }
}

impl Default for ChannelMixScope {
    fn default() -> (s: ChannelMixScope)
        ensures
            s == ChannelMixScope::AllRecordings,
    {
        ChannelMixScope::AllRecordings
    }
}

/// Why a mix cannot be had: a code for programs and a sentence for people.
#[derive(Clone, Debug)]
pub struct ChannelMixReason {
    pub code: String,
    pub message: String,
}

/// The query of the mix status and generation routes.
#[derive(Clone, Copy, Debug)]
pub struct ChannelMixQuery {
    pub scope: Option<ChannelMixScope>,
}

impl ChannelMixQuery {
    /// The requested scope; all recordings when none is given.
    pub fn scope(&self) -> (s: ChannelMixScope)
        ensures
            s == match self.scope {
                Some(s) => s,
                None => ChannelMixScope::AllRecordings,
            },
    {
        match self.scope {
            Some(s) => s,
            None => ChannelMixScope::AllRecordings,
        }
    }
}

/// The query of the mix media route.
#[derive(Clone, Copy, Debug)]
pub struct ChannelMixMediaQuery {
    pub download: Option<bool>,
    pub scope: Option<ChannelMixScope>,
}

fn reason(code: &str, message: &str) -> (r: ChannelMixReason)
    ensures
        r.code@ == code@,
        r.message@ == message@,
{
    ChannelMixReason { code: string_of(&chars_of(code)), message: string_of(&chars_of(message)) }
}

/// Why the anchor session holds a selected-session mix back: nothing once
/// it is finalized, otherwise the state it is in.
pub open spec fn anchor_wait_spec(state: Seq<char>) -> Option<(Seq<char>, Seq<char>)> {
    if state == "finalized"@ {
        None
    } else if state == "active"@ {
        Some(("active_anchor"@, "The anchor recording is still active."@))
    } else if state == "pending"@ {
        Some(("pending_anchor"@, "The anchor recording is paused and awaiting finalization."@))
    } else {
        Some(("unfinalized_anchor"@, "The anchor recording is not finalized yet."@))
    }
}

pub open spec fn reason_view(r: Option<ChannelMixReason>) -> Option<(Seq<char>, Seq<char>)> {
    match r {
        Some(r) => Some((r.code@, r.message@)),
        None => None,
    }
}

/// The reason a selected-session mix waits on its anchor, if any.
pub fn anchor_wait_reason(access: &SessionAccess) -> (r: Option<ChannelMixReason>)
    ensures
        reason_view(r) == anchor_wait_spec(access.state@),
{
    let s = chars_of(access.state.as_str());
    if chars_equal(&s, &chars_of("finalized")) {
        None
    } else if chars_equal(&s, &chars_of("active")) {
        Some(reason("active_anchor", "The anchor recording is still active."))
    } else if chars_equal(&s, &chars_of("pending")) {
        Some(reason("pending_anchor", "The anchor recording is paused and awaiting finalization."))
    } else {
        Some(reason("unfinalized_anchor", "The anchor recording is not finalized yet."))
    }
}

/// `f` is a fragment of the selected session that lies, in part, on its
/// timeline `[started_at_ms, timeline_end_ms)` in a real channel; an open
/// fragment runs to the end of the timeline.
pub open spec fn on_selected_timeline(f: AudioFragment, started_at_ms: i64, timeline_end_ms: i64) -> bool {
    &&& f.channel_id != 0
    &&& f.start_ms < timeline_end_ms
    &&& crate::mix::end_or(f.end_ms, timeline_end_ms) > started_at_ms
}

/// The elements of `s` that `keep` accepts, in order.
pub open spec fn kept<T>(s: Seq<T>, keep: spec_fn(T) -> bool) -> Seq<T>
    decreases s.len(),
{
    if s.len() == 0 {
        Seq::empty()
    } else {
        let rest = kept(s.drop_first(), keep);
        if keep(s[0]) {
            seq![s[0]] + rest
        } else {
            rest
        }
    }
}

/// The session's own fragments that take part in its mix timeline.
pub fn selected_mix_fragments(
    access: &SessionAccess,
    fragments: Vec<AudioFragment>,
    timeline_end_ms: i64,
) -> (r: Vec<AudioFragment>)
    ensures
        r@ == kept(
            fragments@,
            |f: AudioFragment| on_selected_timeline(f, access.started_at_ms, timeline_end_ms),
        ),
{
    let ghost keep = |f: AudioFragment| on_selected_timeline(f, access.started_at_ms, timeline_end_ms);
    let ghost all = fragments@;
    let mut rest = fragments;
    let mut out: Vec<AudioFragment> = Vec::new();
    while rest.len() > 0
        invariant
            out@ + kept(rest@, keep) == kept(all, keep),
            keep == (|f: AudioFragment| on_selected_timeline(f, access.started_at_ms, timeline_end_ms)),
        decreases rest@.len(),
    {
        let ghost before = rest@;
        let f = rest.remove(0);
        assert(before.drop_first() =~= rest@);
        let end = match f.end_ms {
            Some(e) => e,
            None => timeline_end_ms,
        };
        if f.channel_id != 0 && f.start_ms < timeline_end_ms && end > access.started_at_ms {
            assert(keep(f));
            out.push(f);
            assert(out@ + kept(rest@, keep) =~= kept(all, keep));
        } else {
            assert(!keep(f));
        }
    }
    out
}

/// A recording of the guild found on the mix timeline, with the state of
/// the session it belongs to.
#[derive(Debug)]
pub struct CandidateRow {
    pub fragment: AudioFragment,
    pub state: String,
}

/// `f` overlaps at least one window of its channel; an open fragment runs
/// to `timeline_end_ms`.
pub open spec fn overlaps_some_window(f: AudioFragment, windows: Seq<MixWindow>, timeline_end_ms: i64) -> bool {
    exists|k: int|
        0 <= k < windows.len() && #[trigger] crate::mix::window_overlap(f, windows[k], timeline_end_ms) is Some
}

fn overlaps_any_window(f: &AudioFragment, windows: &[MixWindow], timeline_end_ms: i64) -> (b: bool)
    ensures
        b == overlaps_some_window(*f, windows@, timeline_end_ms),
{
    let mut k: usize = 0;
    while k < windows.len()
        invariant
            k <= windows@.len(),
            forall|j: int|
                0 <= j < k ==> #[trigger] crate::mix::window_overlap(*f, windows@[j], timeline_end_ms) is None,
        decreases windows.len() - k,
    {
        let w = &windows[k];
        if w.channel_id == f.channel_id {
            let end = match f.end_ms {
                Some(e) => e,
                None => timeline_end_ms,
            };
            match crate::mix::MixInterval::new(f.start_ms, end) {
                Some(fi) => {
                    if crate::mix::intersect_mix_intervals(w.interval(), fi).is_some() {
                        assert(crate::mix::window_overlap(*f, windows@[k as int], timeline_end_ms) is Some);
                        return true;
                    }
                },
                None => {},
            }
        }
        k = k + 1;
    }
    false
}

/// The candidate rows kept for a mix: none when there is no window or the
/// timeline is empty, otherwise those that overlap a window of their
/// channel, in order.
pub open spec fn mix_candidates_spec(
    rows: Seq<CandidateRow>,
    windows: Seq<MixWindow>,
    timeline_start_ms: i64,
    timeline_end_ms: i64,
) -> Seq<CandidateRow> {
    if windows.len() == 0 || timeline_end_ms <= timeline_start_ms {
        Seq::empty()
    } else {
        kept(rows, |c: CandidateRow| overlaps_some_window(c.fragment, windows, timeline_end_ms))
    }
}

/// Keeps the candidate rows that overlap a window of their channel.
pub fn mix_candidates(
    rows: Vec<CandidateRow>,
    windows: &[MixWindow],
    timeline_start_ms: i64,
    timeline_end_ms: i64,
) -> (r: Vec<CandidateRow>)
    ensures
        r@ == mix_candidates_spec(rows@, windows@, timeline_start_ms, timeline_end_ms),
{
    if windows.len() == 0 || timeline_end_ms <= timeline_start_ms {
        return Vec::new();
    }
    let ghost keep = |c: CandidateRow| overlaps_some_window(c.fragment, windows@, timeline_end_ms);
    let ghost all = rows@;
    let mut rest = rows;
    let mut out: Vec<CandidateRow> = Vec::new();
    while rest.len() > 0
        invariant
            out@ + kept(rest@, keep) == kept(all, keep),
            keep == (|c: CandidateRow| overlaps_some_window(c.fragment, windows@, timeline_end_ms)),
        decreases rest@.len(),
    {
        let ghost before = rest@;
        let c = rest.remove(0);
        assert(before.drop_first() =~= rest@);
        if overlaps_any_window(&c.fragment, windows, timeline_end_ms) {
            out.push(c);
            assert(out@ + kept(rest@, keep) =~= kept(all, keep));
        }
    }
    out
}

/// What must be checked before a mix plan is shown: access to a logical
/// session, or, for a recording with no session, access to its channel.
#[derive(Clone, Copy, Debug, PartialEq, Eq, Structural)]
pub enum AuthTarget {
    Session(i64),
    Channel { guild_id: i64, channel_id: i64 },
}

/// Session `sid` belongs to one of the first `n` candidates.
pub open spec fn session_seen(cands: Seq<CandidateRow>, n: int, sid: i64) -> bool {
    exists|j: int| 0 <= j < n && #[trigger] cands[j].fragment.recording_session_id == Some(sid)
}

/// The checks for the first `n` candidates, in order: each other session
/// once, at its first candidate; each recording with no session by its
/// channel.
pub open spec fn auth_targets_spec(cands: Seq<CandidateRow>, anchor_session: i64, n: int) -> Seq<AuthTarget>
    decreases n,
{
    if n <= 0 {
        Seq::empty()
    } else {
        let prev = auth_targets_spec(cands, anchor_session, n - 1);
        let f = cands[n - 1].fragment;
        match f.recording_session_id {
            Some(sid) => if sid == anchor_session || session_seen(cands, n - 1, sid) {
                prev
            } else {
                prev.push(AuthTarget::Session(sid))
            },
            None => prev.push(AuthTarget::Channel { guild_id: f.guild_id, channel_id: f.channel_id }),
        }
    }
}

/// The access checks that authorize every contributor of a plan.
pub fn authorization_targets(candidates: &[CandidateRow], access: &SessionAccess) -> (r: Vec<AuthTarget>)
    ensures
        r@ == auth_targets_spec(candidates@, access.session_id, candidates@.len() as int),
{
    let mut out: Vec<AuthTarget> = Vec::new();
    let mut seen: Vec<i64> = Vec::new();
    let mut i: usize = 0;
    while i < candidates.len()
        invariant
            i <= candidates@.len(),
            out@ == auth_targets_spec(candidates@, access.session_id, i as int),
            forall|sid: i64|
                sid != access.session_id ==> (seen@.contains(sid) <==> session_seen(
                    candidates@,
                    i as int,
                    sid,
                )),
        decreases candidates.len() - i,
    {
        let f = &candidates[i].fragment;
        let ghost old_seen = seen@;
        match f.recording_session_id {
            Some(sid) => {
                if sid != access.session_id {
                    let mut already = false;
                    let mut k: usize = 0;
                    while k < seen.len()
                        invariant
                            k <= seen@.len(),
                            already <==> exists|j: int| 0 <= j < k && seen@[j] == sid,
                        decreases seen.len() - k,
                    {
                        if seen[k] == sid {
                            already = true;
                        }
                        k = k + 1;
                    }
                    assert(already <==> seen@.contains(sid));
                    if !already {
                        seen.push(sid);
                        out.push(AuthTarget::Session(sid));
                        proof {
                            assert forall|t: i64| #[trigger] seen@.contains(t) <==> (old_seen.contains(t) || t == sid) by {
                                if old_seen.contains(t) {
                                    let j = choose|j: int| 0 <= j < old_seen.len() && old_seen[j] == t;
                                    assert(seen@[j] == t);
                                }
                                if t == sid {
                                    assert(seen@[old_seen.len() as int] == t);
                                }
                                if seen@.contains(t) {
                                    let j = choose|j: int| 0 <= j < seen@.len() && seen@[j] == t;
                                    if j < old_seen.len() {
                                        assert(old_seen[j] == t);
                                    }
                                }
                            }
                        }
                    }
                }
            },
            None => {
                out.push(AuthTarget::Channel { guild_id: f.guild_id, channel_id: f.channel_id });
            },
        }
        proof {
            assert forall|t: i64| t != access.session_id implies (seen@.contains(t) <==> session_seen(
                candidates@,
                i + 1,
                t,
            )) by {
                if candidates@[i as int].fragment.recording_session_id == Some(t) {
                    assert(session_seen(candidates@, i + 1, t));
                }
                if session_seen(candidates@, i as int, t) {
                    let j = choose|j: int|
                        0 <= j < i && #[trigger] candidates@[j].fragment.recording_session_id == Some(t);
                    assert(0 <= j < i + 1 && candidates@[j].fragment.recording_session_id == Some(t));
                }
                if session_seen(candidates@, i + 1, t) && candidates@[i as int].fragment.recording_session_id
                    != Some(t) {
                    let j = choose|j: int|
                        0 <= j < i + 1 && #[trigger] candidates@[j].fragment.recording_session_id == Some(t);
                    assert(j < i);
                    assert(session_seen(candidates@, i as int, t));
                }
            }
        }
        i = i + 1;
    }
    out
}

/// Appending one element extends what `kept` keeps by that element, when
/// kept.
pub proof fn lemma_kept_push<T>(s: Seq<T>, x: T, keep: spec_fn(T) -> bool)
    ensures
        kept(s.push(x), keep) == kept(s, keep) + (if keep(x) {
            seq![x]
        } else {
            Seq::<T>::empty()
        }),
    decreases s.len(),
{
    if s.len() == 0 {
        assert(s.push(x).drop_first() =~= Seq::<T>::empty());
        assert(kept(Seq::<T>::empty(), keep) =~= Seq::<T>::empty());
        assert(kept(s, keep) =~= Seq::<T>::empty());
        if keep(x) {
            assert(kept(s.push(x), keep) =~= seq![x]);
        } else {
            assert(kept(s.push(x), keep) =~= Seq::<T>::empty());
        }
    } else {
        assert(s.push(x).drop_first() =~= s.drop_first().push(x));
        lemma_kept_push(s.drop_first(), x, keep);
        assert(s.push(x)[0] == s[0]);
        if keep(s[0]) {
            assert(kept(s.push(x), keep) =~= kept(s, keep) + (if keep(x) {
                seq![x]
            } else {
                Seq::<T>::empty()
            }));
        } else {
            assert(kept(s.push(x), keep) =~= kept(s, keep) + (if keep(x) {
                seq![x]
            } else {
                Seq::<T>::empty()
            }));
        }
    }
}

/// Two fragments that agree in every field (the file name by its text).
pub open spec fn same_fragment(a: AudioFragment, b: AudioFragment) -> bool {
    &&& a.id == b.id
    &&& a.guild_id == b.guild_id
    &&& a.channel_id == b.channel_id
    &&& a.user_id == b.user_id
    &&& a.recording_session_id == b.recording_session_id
    &&& a.file_name@ == b.file_name@
    &&& a.year == b.year
    &&& a.month == b.month
    &&& a.start_ms == b.start_ms
    &&& a.end_ms == b.end_ms
    &&& a.segment_index == b.segment_index
    &&& a.live == b.live
}

/// A field-by-field copy of a fragment.
pub fn copy_fragment(f: &AudioFragment) -> (r: AudioFragment)
    ensures
        same_fragment(r, *f),
{
    AudioFragment {
        id: f.id,
        guild_id: f.guild_id,
        channel_id: f.channel_id,
        user_id: f.user_id,
        recording_session_id: f.recording_session_id,
        file_name: string_of(&chars_of(f.file_name.as_str())),
        year: f.year,
        month: f.month,
        start_ms: f.start_ms,
        end_ms: f.end_ms,
        segment_index: f.segment_index,
        live: f.live,
    }
}

/// Another recording that contributes to a mix: its session (if any), its
/// speaker, the state of its session, and the recorded file.
#[derive(Debug)]
pub struct MixContributor {
    pub session_id: Option<i64>,
    pub user_id: i64,
    pub state: String,
    pub fragment: AudioFragment,
}

/// A candidate contributes to a mix of `scope`: every candidate of an
/// all-recordings mix, and those of other sessions in a selected-session
/// mix.
pub open spec fn contributes(c: CandidateRow, scope: ChannelMixScope, anchor_session: i64) -> bool {
    scope == ChannelMixScope::AllRecordings || c.fragment.recording_session_id != Some(anchor_session)
}

/// `m` is the contributor made of candidate `c`.
pub open spec fn contributor_of(m: MixContributor, c: CandidateRow) -> bool {
    &&& m.session_id == c.fragment.recording_session_id
    &&& m.user_id == c.fragment.user_id
    &&& m.state@ == c.state@
    &&& same_fragment(m.fragment, c.fragment)
}

/// `r` holds, in order, one contributor for each of `cs`.
pub open spec fn contributors_of(r: Seq<MixContributor>, cs: Seq<CandidateRow>) -> bool {
    &&& r.len() == cs.len()
    &&& forall|k: int| 0 <= k < r.len() ==> contributor_of(#[trigger] r[k], cs[k])
}

/// The contributors of a mix, in candidate order.
pub fn mix_contributors(candidates: &[CandidateRow], scope: ChannelMixScope, access: &SessionAccess) -> (r: Vec<
    MixContributor,
>)
    ensures
        contributors_of(
            r@,
            kept(candidates@, |c: CandidateRow| contributes(c, scope, access.session_id)),
        ),
{
    let ghost keep = |c: CandidateRow| contributes(c, scope, access.session_id);
    let mut out: Vec<MixContributor> = Vec::new();
    let mut i: usize = 0;
    while i < candidates.len()
        invariant
            i <= candidates@.len(),
            keep == (|c: CandidateRow| contributes(c, scope, access.session_id)),
            contributors_of(out@, kept(candidates@.take(i as int), keep)),
        decreases candidates.len() - i,
    {
        let c = &candidates[i];
        proof {
            assert(candidates@.take(i + 1) =~= candidates@.take(i as int).push(candidates@[i as int]));
            lemma_kept_push(candidates@.take(i as int), candidates@[i as int], keep);
        }
        let takes_part = match scope {
            ChannelMixScope::AllRecordings => true,
            ChannelMixScope::SelectedSession => match c.fragment.recording_session_id {
                Some(sid) => sid != access.session_id,
                None => true,
            },
        };
        if takes_part {
            let m = MixContributor {
                session_id: c.fragment.recording_session_id,
                user_id: c.fragment.user_id,
                state: string_of(&chars_of(c.state.as_str())),
                fragment: copy_fragment(&c.fragment),
            };
            let ghost prev = out@;
            out.push(m);
            proof {
                let ks = kept(candidates@.take(i + 1), keep);
                assert forall|k: int| 0 <= k < out@.len() implies contributor_of(#[trigger] out@[k], ks[k]) by {
                    if k < prev.len() {
                        assert(out@[k] == prev[k]);
                    }
                }
            }
        }
        i = i + 1;
    }
    proof {
        assert(candidates@.take(candidates@.len() as int) =~= candidates@);
    }
    out
}

/// The overlaps that the first `n` pieces (a recording and whom it is
/// credited to) have with the windows: pieces in order, and for each the
/// windows in order.
pub open spec fn placed_sources(
    pieces: Seq<(AudioFragment, i64)>,
    windows: Seq<MixWindow>,
    timeline_end_ms: i64,
    n: int,
) -> Seq<(AudioFragment, i64, MixInterval)>
    decreases n,
{
    if n <= 0 {
        Seq::empty()
    } else {
        let p = pieces[n - 1];
        placed_sources(pieces, windows, timeline_end_ms, n - 1) + crate::mix::fragment_window_overlaps(
            p.0,
            windows,
            timeline_end_ms,
            windows.len() as int,
        ).map_values(|o: MixInterval| (p.0, p.1, o))
    }
}

/// `added` holds one source for each placed overlap, in order.
pub open spec fn sources_match(
    added: Seq<MixSource>,
    placed: Seq<(AudioFragment, i64, MixInterval)>,
    timeline_start_ms: i64,
    timeline_end_ms: i64,
) -> bool {
    &&& added.len() == placed.len()
    &&& forall|k: int|
        0 <= k < added.len() ==> crate::mix::source_matches(
            #[trigger] added[k],
            placed[k].0,
            placed[k].1,
            placed[k].2,
            timeline_start_ms,
            timeline_end_ms,
        )
}

/// The recordings of a mix and whom each is credited to: for a selected
/// session its own fragments (credited to its owner) and then each
/// contributor; for all recordings every candidate, credited to its
/// speaker.
pub open spec fn mix_pieces(
    scope: ChannelMixScope,
    anchor_fragments: Seq<AudioFragment>,
    anchor_user_id: i64,
    contributors: Seq<MixContributor>,
    candidates: Seq<CandidateRow>,
) -> Seq<(AudioFragment, i64)> {
    match scope {
        ChannelMixScope::SelectedSession => anchor_fragments.map_values(
            |f: AudioFragment| (f, anchor_user_id),
        ) + contributors.map_values(|c: MixContributor| (c.fragment, c.user_id)),
        ChannelMixScope::AllRecordings => candidates.map_values(
            |c: CandidateRow| (c.fragment, c.fragment.user_id),
        ),
    }
}

fn push_piece(
    out: &mut Vec<MixSource>,
    windows: &[MixWindow],
    f: &AudioFragment,
    participant: i64,
    timeline_start_ms: i64,
    timeline_end_ms: i64,
    Ghost(pieces): Ghost<Seq<(AudioFragment, i64)>>,
    Ghost(idx): Ghost<int>,
)
    requires
        0 <= idx < pieces.len(),
        pieces[idx] == (*f, participant),
        sources_match(
            old(out)@,
            placed_sources(pieces, windows@, timeline_end_ms, idx),
            timeline_start_ms,
            timeline_end_ms,
        ),
    ensures
        sources_match(
            final(out)@,
            placed_sources(pieces, windows@, timeline_end_ms, idx + 1),
            timeline_start_ms,
            timeline_end_ms,
        ),
{
    let ghost before = out@;
    crate::mix::push_fragment_sources(out, windows, f, participant, timeline_start_ms, timeline_end_ms);
    proof {
        let prev = placed_sources(pieces, windows@, timeline_end_ms, idx);
        let row = crate::mix::fragment_window_overlaps(*f, windows@, timeline_end_ms, windows@.len() as int);
        let next = placed_sources(pieces, windows@, timeline_end_ms, idx + 1);
        assert(next == prev + row.map_values(|o: MixInterval| (*f, participant, o)));
        assert forall|k: int| 0 <= k < out@.len() implies crate::mix::source_matches(
            #[trigger] out@[k],
            next[k].0,
            next[k].1,
            next[k].2,
            timeline_start_ms,
            timeline_end_ms,
        ) by {
            if k < before.len() {
                assert(out@[k] == out@.take(before.len() as int)[k]);
                assert(out@[k] == before[k]);
                assert(next[k] == prev[k]);
                assert(crate::mix::source_matches(
                    before[k],
                    prev[k].0,
                    prev[k].1,
                    prev[k].2,
                    timeline_start_ms,
                    timeline_end_ms,
                ));
            } else {
                let m = k - before.len();
                assert(0 <= m < row.len());
                assert(next[k] == (*f, participant, row[m]));
                assert(out@[before.len() + m] == out@[k]);
                assert(crate::mix::source_matches(
                    out@[before.len() + m],
                    *f,
                    participant,
                    row[m],
                    timeline_start_ms,
                    timeline_end_ms,
                ));
            }
        }
    }
}

/// The sources of a mix: one per overlap of each piece with a window of
/// its channel.
pub fn plan_sources(
    scope: ChannelMixScope,
    windows: &[MixWindow],
    anchor_fragments: &[AudioFragment],
    anchor_user_id: i64,
    contributors: &[MixContributor],
    candidates: &[CandidateRow],
    timeline_start_ms: i64,
    timeline_end_ms: i64,
) -> (r: Vec<MixSource>)
    ensures
        ({
            let pieces = mix_pieces(scope, anchor_fragments@, anchor_user_id, contributors@, candidates@);
            sources_match(
                r@,
                placed_sources(pieces, windows@, timeline_end_ms, pieces.len() as int),
                timeline_start_ms,
                timeline_end_ms,
            )
        }),
{
    let ghost pieces = mix_pieces(scope, anchor_fragments@, anchor_user_id, contributors@, candidates@);
    let mut out: Vec<MixSource> = Vec::new();
    match scope {
        ChannelMixScope::SelectedSession => {
            let mut i: usize = 0;
            while i < anchor_fragments.len()
                invariant
                    i <= anchor_fragments@.len(),
                    pieces == mix_pieces(scope, anchor_fragments@, anchor_user_id, contributors@, candidates@),
                    scope == ChannelMixScope::SelectedSession,
                    sources_match(
                        out@,
                        placed_sources(pieces, windows@, timeline_end_ms, i as int),
                        timeline_start_ms,
                        timeline_end_ms,
                    ),
                decreases anchor_fragments.len() - i,
            {
                push_piece(
                    &mut out,
                    windows,
                    &anchor_fragments[i],
                    anchor_user_id,
                    timeline_start_ms,
                    timeline_end_ms,
                    Ghost(pieces),
                    Ghost(i as int),
                );
                i = i + 1;
            }
            let mut j: usize = 0;
            while j < contributors.len()
                invariant
                    j <= contributors@.len(),
                    pieces == mix_pieces(scope, anchor_fragments@, anchor_user_id, contributors@, candidates@),
                    scope == ChannelMixScope::SelectedSession,
                    sources_match(
                        out@,
                        placed_sources(pieces, windows@, timeline_end_ms, anchor_fragments@.len() + j),
                        timeline_start_ms,
                        timeline_end_ms,
                    ),
                decreases contributors.len() - j,
            {
                let c = &contributors[j];
                push_piece(
                    &mut out,
                    windows,
                    &c.fragment,
                    c.user_id,
                    timeline_start_ms,
                    timeline_end_ms,
                    Ghost(pieces),
                    Ghost(anchor_fragments@.len() + j),
                );
                j = j + 1;
            }
        },
        ChannelMixScope::AllRecordings => {
            let mut i: usize = 0;
            while i < candidates.len()
                invariant
                    i <= candidates@.len(),
                    pieces == mix_pieces(scope, anchor_fragments@, anchor_user_id, contributors@, candidates@),
                    scope == ChannelMixScope::AllRecordings,
                    sources_match(
                        out@,
                        placed_sources(pieces, windows@, timeline_end_ms, i as int),
                        timeline_start_ms,
                        timeline_end_ms,
                    ),
                decreases candidates.len() - i,
            {
                let c = &candidates[i];
                push_piece(
                    &mut out,
                    windows,
                    &c.fragment,
                    c.fragment.user_id,
                    timeline_start_ms,
                    timeline_end_ms,
                    Ghost(pieces),
                    Ghost(i as int),
                );
                i = i + 1;
            }
        },
    }
    out
}

/// The set of a sequence with one more element is the set with it added.
pub proof fn lemma_to_set_push<T>(s: Seq<T>, x: T)
    ensures
        s.push(x).to_set() == s.to_set().insert(x),
{
    assert forall|y: T| s.push(x).to_set().contains(y) <==> s.to_set().insert(x).contains(y) by {
        if s.push(x).contains(y) {
            let j = choose|j: int| 0 <= j < s.push(x).len() && s.push(x)[j] == y;
            if j < s.len() {
                assert(s[j] == y);
            }
        }
        if s.contains(y) {
            let j = choose|j: int| 0 <= j < s.len() && s[j] == y;
            assert(s.push(x)[j] == y);
        }
        if y == x {
            assert(s.push(x)[s.len() as int] == y);
        }
    }
    assert(s.push(x).to_set() =~= s.to_set().insert(x));
}

/// The number of distinct values in `ids`.
pub fn distinct_count(ids: &[i64]) -> (r: usize)
    ensures
        r == ids@.to_set().len(),
{
    let mut seen: Vec<i64> = Vec::new();
    let mut i: usize = 0;
    while i < ids.len()
        invariant
            i <= ids@.len(),
            seen@.no_duplicates(),
            seen@.to_set() == ids@.take(i as int).to_set(),
            seen@.len() <= i,
        decreases ids.len() - i,
    {
        let x = ids[i];
        let mut found = false;
        let mut k: usize = 0;
        while k < seen.len()
            invariant
                k <= seen@.len(),
                found <==> exists|j: int| 0 <= j < k && seen@[j] == x,
            decreases seen.len() - k,
        {
            if seen[k] == x {
                found = true;
            }
            k = k + 1;
        }
        proof {
            assert(ids@.take(i + 1) =~= ids@.take(i as int).push(x));
            lemma_to_set_push(ids@.take(i as int), x);
        }
        if !found {
            let ghost prev = seen@;
            seen.push(x);
            proof {
                assert(!prev.contains(x));
                lemma_to_set_push(prev, x);
                assert forall|a: int, b: int| 0 <= a < seen@.len() && 0 <= b < seen@.len() && a != b implies seen@[a]
                    != seen@[b] by {
                    if a == prev.len() as int {
                        assert(prev[b] == seen@[b]);
                    } else if b == prev.len() as int {
                        assert(prev[a] == seen@[a]);
                    }
                }
            }
        } else {
            proof {
                let j = choose|j: int| 0 <= j < k && seen@[j] == x;
                assert(seen@.to_set().contains(x));
                assert(seen@.to_set() =~= seen@.to_set().insert(x));
            }
        }
        i = i + 1;
    }
    proof {
        assert(ids@.take(ids@.len() as int) =~= ids@);
        seen@.unique_seq_to_set();
    }
    seen.len()
}

/// `n` as an `i32`, or `i32::MAX` when it does not fit.
pub open spec fn clamp_count(n: nat) -> i32 {
    if n <= i32::MAX {
        n as i32
    } else {
        i32::MAX
    }
}

/// One participant's settings for a render: the gain applied to their
/// lane (a float, which this library only carries) and whether it is left
/// out.
#[derive(Clone, Copy, Debug)]
pub struct ParticipantGain<G> {
    pub gain_db: G,
    pub muted: bool,
}

/// The per-participant settings of a render, keyed by user id text.
#[derive(Debug)]
pub struct ChannelMixParticipantSettings<G> {
    pub user_id: String,
    pub gain_db: G,
    pub muted: bool,
}

/// The settings a mix is rendered with, and the source fingerprint they
/// were chosen against when reported back.
#[derive(Debug)]
pub struct ChannelMixGenerationSettings<G> {
    pub participants: Vec<ChannelMixParticipantSettings<G>>,
    pub source_fingerprint: Option<String>,
}

/// Everything decided about a mix before anything is rendered.
pub struct MixPlan<G> {
    pub session_id: i64,
    pub scope: ChannelMixScope,
    pub duration_ms: i64,
    pub contributors: Vec<MixContributor>,
    pub sources: Vec<MixSource>,
    pub participants: Vec<ChannelMixParticipant>,
    pub tracks: Vec<ChannelMixTrack>,
    pub cache_dir: String,
    pub source_fingerprint: String,
    pub fingerprint: String,
    pub settings: ChannelMixGenerationSettings<G>,
}

pub open spec fn file_ids(sources: Seq<MixSource>) -> Seq<i64> {
    sources.map_values(|s: MixSource| s.audio_file_id)
}

/// A contributor is still recording: its session is not finalized or its
/// file has no end.
pub open spec fn still_active(c: MixContributor) -> bool {
    c.state@ != "finalized"@ || c.fragment.end_ms is None
}

/// Why a plan cannot be rendered yet: a selected-session mix waits on an
/// unfinalized anchor; any mix waits while a contributor is active.
pub open spec fn blocking_spec<G>(plan: MixPlan<G>, access: SessionAccess) -> Option<(Seq<char>, Seq<char>)> {
    if plan.scope == ChannelMixScope::SelectedSession && anchor_wait_spec(access.state@) is Some {
        anchor_wait_spec(access.state@)
    } else if exists|k: int| 0 <= k < plan.contributors@.len() && still_active(#[trigger] plan.contributors@[k]) {
        Some(("active_contributors"@, "One or more channel mix recordings are still active."@))
    } else {
        None
    }
}

/// A muted participant's sources are left out of the render; a source is
/// judged by the first settings entry whose user id reads as its speaker.
pub open spec fn first_setting_for<G>(ps: Seq<ChannelMixParticipantSettings<G>>, user: i64) -> Option<int> {
    if exists|k: int| 0 <= k < ps.len() && #[trigger] ps[k].user_id@ == crate::text::dec_int(user as int) {
        Some(
            choose|k: int|
                0 <= k < ps.len() && #[trigger] ps[k].user_id@ == crate::text::dec_int(user as int) && forall|j: int|
                    0 <= j < k ==> ps[j].user_id@ != crate::text::dec_int(user as int),
        )
    } else {
        None
    }
}

pub open spec fn renders<G>(ps: Seq<ChannelMixParticipantSettings<G>>, src: MixSource) -> bool {
    match first_setting_for(ps, src.participant_user_id) {
        Some(k) => !ps[k].muted,
        None => true,
    }
}

fn setting_muted<G>(ps: &Vec<ChannelMixParticipantSettings<G>>, user: i64) -> (r: bool)
    ensures
        r == match first_setting_for(ps@, user) {
            Some(k) => ps@[k].muted,
            None => false,
        },
{
    let mut id_text: Vec<char> = Vec::new();
    crate::text::push_dec_i64(&mut id_text, user);
    let mut k: usize = 0;
    while k < ps.len()
        invariant
            k <= ps@.len(),
            id_text@ == crate::text::dec_int(user as int),
            forall|j: int| 0 <= j < k ==> #[trigger] ps@[j].user_id@ != id_text@,
        decreases ps.len() - k,
    {
        if chars_equal(&chars_of(ps[k].user_id.as_str()), &id_text) {
            proof {
                assert(ps@[k as int].user_id@ == crate::text::dec_int(user as int));
                let c = first_setting_for(ps@, user)->0;
                assert(c == k) by {
                    if c < k {
                        assert(ps@[c].user_id@ != id_text@);
                    }
                    if c > k {
                        assert(ps@[k as int].user_id@ != crate::text::dec_int(user as int));
                    }
                }
            }
            return ps[k].muted;
        }
        k = k + 1;
    }
    false
}

impl<G> MixPlan<G> {
    /// The number of distinct recorded files the plan draws on.
    pub fn source_count(&self) -> (n: i32)
        ensures
            n == clamp_count(file_ids(self.sources@).to_set().len()),
    {
        let mut ids: Vec<i64> = Vec::new();
        let mut i: usize = 0;
        while i < self.sources.len()
            invariant
                i <= self.sources@.len(),
                ids@ == file_ids(self.sources@).take(i as int),
            decreases self.sources.len() - i,
        {
            ids.push(self.sources[i].audio_file_id);
            assert(ids@ =~= file_ids(self.sources@).take(i + 1));
            i = i + 1;
        }
        assert(ids@ =~= file_ids(self.sources@));
        let n = distinct_count(&ids);
        if n <= 2147483647 {
            n as i32
        } else {
            i32::MAX
        }
    }

    /// Whether a contributor is still recording.
    pub fn has_active_contributor(&self) -> (b: bool)
        ensures
            b == exists|k: int| 0 <= k < self.contributors@.len() && still_active(#[trigger] self.contributors@[k]),
    {
        let mut i: usize = 0;
        while i < self.contributors.len()
            invariant
                i <= self.contributors@.len(),
                forall|k: int| 0 <= k < i ==> !still_active(#[trigger] self.contributors@[k]),
            decreases self.contributors.len() - i,
        {
            let c = &self.contributors[i];
            let finalized = chars_equal(&chars_of(c.state.as_str()), &chars_of("finalized"));
            if !finalized || c.fragment.end_ms.is_none() {
                assert(still_active(self.contributors@[i as int]));
                return true;
            }
            i = i + 1;
        }
        false
    }

    /// Why the plan cannot be rendered yet, if it cannot.
    pub fn blocking_reason(&self, access: &SessionAccess) -> (r: Option<ChannelMixReason>)
        ensures
            reason_view(r) == blocking_spec(*self, *access),
    {
        if self.scope == ChannelMixScope::SelectedSession {
            let w = anchor_wait_reason(access);
            if w.is_some() {
                return w;
            }
        }
        if self.has_active_contributor() {
            Some(reason("active_contributors", "One or more channel mix recordings are still active."))
        } else {
            None
        }
    }

    /// Whether a render may start: nothing blocks it and there is audio.
    pub fn can_generate(&self, access: &SessionAccess) -> (b: bool)
        ensures
            b == (blocking_spec(*self, *access) is None && self.sources@.len() > 0),
    {
        self.blocking_reason(access).is_none() && self.sources.len() > 0
    }

    /// The sources a render mixes: those of participants not muted.
    pub fn renderable_sources(&self) -> (r: Vec<&MixSource>)
        ensures
            r@.map_values(|s: &MixSource| *s) == kept(
                self.sources@,
                |s: MixSource| renders(self.settings.participants@, s),
            ),
    {
        let ghost keep = |s: MixSource| renders(self.settings.participants@, s);
        let mut out: Vec<&MixSource> = Vec::new();
        let mut i: usize = 0;
        while i < self.sources.len()
            invariant
                i <= self.sources@.len(),
                keep == (|s: MixSource| renders(self.settings.participants@, s)),
                out@.map_values(|s: &MixSource| *s) == kept(self.sources@.take(i as int), keep),
            decreases self.sources.len() - i,
        {
            let src = &self.sources[i];
            proof {
                assert(self.sources@.take(i + 1) =~= self.sources@.take(i as int).push(self.sources@[i as int]));
                lemma_kept_push(self.sources@.take(i as int), self.sources@[i as int], keep);
            }
            let muted = setting_muted(&self.settings.participants, src.participant_user_id);
            let ghost prev = out@;
            if !muted {
                out.push(src);
                assert(out@.map_values(|s: &MixSource| *s) =~= prev.map_values(|s: &MixSource| *s).push(*src));
            }
            assert(out@.map_values(|s: &MixSource| *s) =~= kept(self.sources@.take(i + 1), keep));
            i = i + 1;
        }
        assert(self.sources@.take(self.sources@.len() as int) =~= self.sources@);
        out
    }
}

/// The order key of a participant id: its number, or `i64::MAX` when it
/// does not read as one.
pub open spec fn id_key(t: Seq<char>) -> int {
    match crate::text::parse_i64_spec(t) {
        Some(v) => v as int,
        None => i64::MAX as int,
    }
}

/// How many leading ids of `s` sort at or before key `k`.
pub open spec fn ins_pos(s: Seq<Seq<char>>, k: int) -> int
    decreases s.len(),
{
    if s.len() == 0 {
        0
    } else if id_key(s[0]) <= k {
        1 + ins_pos(s.drop_first(), k)
    } else {
        0
    }
}

/// `s` with `x` placed after every id that sorts at or before it.
pub open spec fn ins_id(s: Seq<Seq<char>>, x: Seq<char>) -> Seq<Seq<char>> {
    let p = ins_pos(s, id_key(x));
    s.take(p) + seq![x] + s.skip(p)
}

/// The stable sort of ids by `id_key`.
pub open spec fn sort_ids(s: Seq<Seq<char>>) -> Seq<Seq<char>>
    decreases s.len(),
{
    if s.len() == 0 {
        Seq::empty()
    } else {
        ins_id(sort_ids(s.drop_last()), s.last())
    }
}

proof fn lemma_ins_pos(s: Seq<Seq<char>>, k: int, p: int)
    requires
        0 <= p <= s.len(),
        forall|q: int| 0 <= q < p ==> id_key(#[trigger] s[q]) <= k,
        p < s.len() ==> id_key(s[p]) > k,
    ensures
        ins_pos(s, k) == p,
    decreases p,
{
    if p > 0 {
        assert forall|q: int| 0 <= q < p - 1 implies id_key(#[trigger] s.drop_first()[q]) <= k by {
            assert(s.drop_first()[q] == s[q + 1]);
        }
        if p - 1 < s.drop_first().len() {
            assert(s.drop_first()[p - 1] == s[p]);
        }
        lemma_ins_pos(s.drop_first(), k, p - 1);
    }
}

fn key_of(t: &str) -> (k: i64)
    ensures
        k as int == id_key(t@),
{
    match crate::text::parse_i64(&chars_of(t)) {
        Some(v) => v,
        None => i64::MAX,
    }
}

fn key_at_most(ids: &Vec<String>, p: usize, k: i64) -> (b: bool)
    requires
        p < ids@.len(),
    ensures
        b == (id_key(ids@[p as int]@) <= k),
{
    key_of(ids[p].as_str()) <= k
}

pub open spec fn id_views(v: Seq<String>) -> Seq<Seq<char>> {
    v.map_values(|s: String| s@)
}

pub open spec fn track_ids(tracks: Seq<ChannelMixTrack>) -> Seq<Seq<char>> {
    tracks.map_values(|t: ChannelMixTrack| t.user_id@)
}

/// The track ids, stably sorted by number.
fn sorted_track_ids(tracks: &[ChannelMixTrack]) -> (r: Vec<String>)
    ensures
        id_views(r@) == sort_ids(track_ids(tracks@)),
{
    let mut out: Vec<String> = Vec::new();
    let mut i: usize = 0;
    while i < tracks.len()
        invariant
            i <= tracks@.len(),
            id_views(out@) == sort_ids(track_ids(tracks@).take(i as int)),
        decreases tracks.len() - i,
    {
        let x = string_of(&chars_of(tracks[i].user_id.as_str()));
        let k = key_of(x.as_str());
        let mut p: usize = 0;
        while p < out.len() && key_at_most(&out, p, k)
            invariant
                p <= out@.len(),
                forall|q: int| 0 <= q < p ==> id_key(#[trigger] id_views(out@)[q]) <= k,
            decreases out.len() - p,
        {
            p = p + 1;
        }
        proof {
            lemma_ins_pos(id_views(out@), k as int, p as int);
            let t = track_ids(tracks@).take(i + 1);
            assert(t.drop_last() =~= track_ids(tracks@).take(i as int));
            assert(t.last() == x@);
        }
        let ghost before = out@;
        out.insert(p, x);
        assert(id_views(out@) =~= ins_id(id_views(before), x@));
        i = i + 1;
    }
    assert(track_ids(tracks@).take(tracks@.len() as int) =~= track_ids(tracks@));
    out
}

pub open spec fn settings_view<G>(ps: Seq<ChannelMixParticipantSettings<G>>) -> Seq<(Seq<char>, G, bool)> {
    ps.map_values(|p: ChannelMixParticipantSettings<G>| (p.user_id@, p.gain_db, p.muted))
}

/// The default settings: every track's participant at `zero` gain and
/// unmuted, ordered by id number.
pub open spec fn default_settings_spec<G>(tracks: Seq<ChannelMixTrack>, zero: G) -> Seq<(Seq<char>, G, bool)> {
    sort_ids(track_ids(tracks)).map_values(|u: Seq<char>| (u, zero, false))
}

/// The settings a render uses when the caller chose none.
pub fn default_generation_settings<G: Copy>(tracks: &[ChannelMixTrack], zero: G) -> (r: ChannelMixGenerationSettings<G>)
    ensures
        settings_view(r.participants@) == default_settings_spec(tracks@, zero),
        r.source_fingerprint is None,
{
    let ids = sorted_track_ids(tracks);
    let mut ps: Vec<ChannelMixParticipantSettings<G>> = Vec::new();
    let mut i: usize = 0;
    while i < ids.len()
        invariant
            i <= ids@.len(),
            settings_view(ps@) == id_views(ids@).take(i as int).map_values(|u: Seq<char>| (u, zero, false)),
        decreases ids.len() - i,
    {
        let ghost prev = ps@;
        ps.push(ChannelMixParticipantSettings {
            user_id: string_of(&chars_of(ids[i].as_str())),
            gain_db: zero,
            muted: false,
        });
        proof {
            let want = id_views(ids@).take(i + 1).map_values(|u: Seq<char>| (u, zero, false));
            let had = id_views(ids@).take(i as int).map_values(|u: Seq<char>| (u, zero, false));
            assert(settings_view(prev).len() == i);
            assert(prev.len() == i);
            assert forall|k: int| 0 <= k < i + 1 implies settings_view(ps@)[k] == want[k] by {
                if k < i {
                    assert(ps@[k] == prev[k]);
                    assert(settings_view(prev)[k] == had[k]);
                }
            }
            assert(settings_view(ps@) =~= want);
        }
        i = i + 1;
    }
    assert(id_views(ids@).take(ids@.len() as int) =~= id_views(ids@));
    ChannelMixGenerationSettings { participants: ps, source_fingerprint: None }
}

/// Some track's participant id reads as `id`.
pub open spec fn known_id(tracks: Seq<ChannelMixTrack>, id: i64) -> bool {
    exists|t: int| 0 <= t < tracks.len() && crate::text::parse_i64_spec(#[trigger] tracks[t].user_id@) == Some(id)
}

/// What is wrong with the `i`-th requested setting, the earlier ones
/// being fine: an id that is not a number or not a participant, one asked
/// for twice, or a gain outside -60..=+12 dB (`gain_ok[i]` false).
pub open spec fn request_check<G>(
    tracks: Seq<ChannelMixTrack>,
    req: Seq<ChannelMixParticipantSettings<G>>,
    gain_ok: Seq<bool>,
    i: int,
) -> Option<Seq<char>> {
    let u = req[i].user_id@;
    match crate::text::parse_i64_spec(u) {
        None => Some("Unknown channel mix participant "@ + u),
        Some(id) => if !known_id(tracks, id) {
            Some("Unknown channel mix participant "@ + u)
        } else if exists|j: int| 0 <= j < i && crate::text::parse_i64_spec(#[trigger] req[j].user_id@) == Some(id) {
            Some("Duplicate channel mix participant "@ + u)
        } else if !gain_ok[i] {
            Some("Channel mix gain for "@ + u + " must be between -60 dB and +12 dB"@)
        } else {
            None
        },
    }
}

/// The first problem among the first `n` requested settings.
pub open spec fn first_request_error<G>(
    tracks: Seq<ChannelMixTrack>,
    req: Seq<ChannelMixParticipantSettings<G>>,
    gain_ok: Seq<bool>,
    n: int,
) -> Option<Seq<char>>
    decreases n,
{
    if n <= 0 {
        None
    } else {
        match first_request_error(tracks, req, gain_ok, n - 1) {
            Some(e) => Some(e),
            None => request_check(tracks, req, gain_ok, n - 1),
        }
    }
}

/// A participant id's number, or 0 when it is not one.
pub open spec fn zero_key(u: Seq<char>) -> i64 {
    match crate::text::parse_i64_spec(u) {
        Some(v) => v,
        None => 0,
    }
}

pub open spec fn requested_for<G>(req: Seq<ChannelMixParticipantSettings<G>>, id: i64) -> bool {
    exists|j: int| 0 <= j < req.len() && crate::text::parse_i64_spec(#[trigger] req[j].user_id@) == Some(id)
}

/// The settings entry at position `k` of the defaults `d` once the
/// requested values are applied: the request for its number replaces the
/// first default entry with that number, under the canonical id text.
pub open spec fn applied_entry<G>(
    d: Seq<Seq<char>>,
    req: Seq<ChannelMixParticipantSettings<G>>,
    zero: G,
    k: int,
) -> (Seq<char>, G, bool) {
    let id = zero_key(d[k]);
    if requested_for(req, id) && !(exists|k2: int| 0 <= k2 < k && #[trigger] zero_key(d[k2]) == id) {
        let j = choose|j: int| 0 <= j < req.len() && crate::text::parse_i64_spec(#[trigger] req[j].user_id@) == Some(id);
        (crate::text::dec_int(id as int), req[j].gain_db, req[j].muted)
    } else {
        (d[k], zero, false)
    }
}

pub open spec fn canonical_spec<G>(
    tracks: Seq<ChannelMixTrack>,
    req: Seq<ChannelMixParticipantSettings<G>>,
    zero: G,
) -> Seq<(Seq<char>, G, bool)> {
    let d = sort_ids(track_ids(tracks));
    Seq::new(d.len(), |k: int| applied_entry(d, req, zero, k))
}

pub open spec fn all_muted<G>(ps: Seq<(Seq<char>, G, bool)>) -> bool {
    ps.len() > 0 && forall|k: int| 0 <= k < ps.len() ==> (#[trigger] ps[k]).2
}

fn message_with(prefix: &str, id: &str, suffix: &str) -> (e: AppError)
    ensures
        e matches AppError::BadRequest(m) && m@ == prefix@ + id@ + suffix@,
{
    let mut m = chars_of(prefix);
    crate::text::push_str(&mut m, id);
    crate::text::push_str(&mut m, suffix);
    AppError::BadRequest(string_of(&m))
}

fn message_for(prefix: &str, id: &str) -> (e: AppError)
    ensures
        e matches AppError::BadRequest(m) && m@ == prefix@ + id@,
{
    let mut m = chars_of(prefix);
    crate::text::push_str(&mut m, id);
    AppError::BadRequest(string_of(&m))
}

proof fn lemma_first_error_sticks<G>(
    tracks: Seq<ChannelMixTrack>,
    req: Seq<ChannelMixParticipantSettings<G>>,
    gain_ok: Seq<bool>,
    i: int,
    n: int,
)
    requires
        0 <= i < n,
        first_request_error(tracks, req, gain_ok, i) is None,
        request_check(tracks, req, gain_ok, i) is Some,
    ensures
        first_request_error(tracks, req, gain_ok, n) == request_check(tracks, req, gain_ok, i),
    decreases n - i,
{
    if n > i + 1 {
        lemma_first_error_sticks(tracks, req, gain_ok, i, n - 1);
    }
}

fn index_of(v: &Vec<i64>, x: i64) -> (r: Option<usize>)
    ensures
        match r {
            Some(j) => j < v@.len() && v@[j as int] == x && forall|q: int| 0 <= q < j ==> v@[q] != x,
            None => forall|q: int| 0 <= q < v@.len() ==> v@[q] != x,
        },
{
    let mut j: usize = 0;
    while j < v.len()
        invariant
            j <= v@.len(),
            forall|q: int| 0 <= q < j ==> v@[q] != x,
        decreases v.len() - j,
    {
        if v[j] == x {
            return Some(j);
        }
        j = j + 1;
    }
    None
}

/// The settings a render is asked for, checked against the plan's tracks
/// and put in the default order. `gain_ok[i]` says whether the `i`-th gain
/// is a finite number of decibels in -60..=+12, a float test made by the
/// caller.
pub fn canonical_generation_settings<G: Copy>(
    tracks: &[ChannelMixTrack],
    requested: &[ChannelMixParticipantSettings<G>],
    gain_ok: &[bool],
    zero: G,
) -> (r: Result<ChannelMixGenerationSettings<G>, AppError>)
    requires
        requested@.len() == gain_ok@.len(),
    ensures
        match first_request_error(tracks@, requested@, gain_ok@, requested@.len() as int) {
            Some(msg) => r matches Err(AppError::BadRequest(m)) && m@ == msg,
            None => if all_muted(canonical_spec(tracks@, requested@, zero)) {
                r matches Err(AppError::BadRequest(m)) && m@
                    == "At least one channel mix participant must be unmuted"@
            } else {
                r matches Ok(s) && settings_view(s.participants@) == canonical_spec(tracks@, requested@, zero)
                    && s.source_fingerprint is None
            },
        },
{
    // The numbers of the participants the plan knows.
    let mut known: Vec<i64> = Vec::new();
    let mut t: usize = 0;
    while t < tracks.len()
        invariant
            t <= tracks@.len(),
            forall|id: i64| known@.contains(id) <==> exists|q: int|
                0 <= q < t && crate::text::parse_i64_spec(#[trigger] tracks@[q].user_id@) == Some(id),
        decreases tracks.len() - t,
    {
        let ghost prev = known@;
        match crate::text::parse_i64(&chars_of(tracks[t].user_id.as_str())) {
            Some(v) => {
                known.push(v);
                proof {
                    assert forall|id: i64| known@.contains(id) <==> exists|q: int|
                        0 <= q < t + 1 && crate::text::parse_i64_spec(#[trigger] tracks@[q].user_id@) == Some(id) by {
                        if known@.contains(id) {
                            let w = choose|w: int| 0 <= w < known@.len() && known@[w] == id;
                            if w < prev.len() {
                                assert(prev.contains(id));
                            }
                        }
                        if exists|q: int| 0 <= q < t + 1 && crate::text::parse_i64_spec(#[trigger] tracks@[q].user_id@) == Some(id) {
                            let q = choose|q: int| 0 <= q < t + 1 && crate::text::parse_i64_spec(#[trigger] tracks@[q].user_id@) == Some(id);
                            if q == t {
                                assert(known@[prev.len() as int] == id);
                            } else {
                                assert(prev.contains(id));
                                let w = choose|w: int| 0 <= w < prev.len() && prev[w] == id;
                                assert(known@[w] == id);
                            }
                        }
                    }
                }
            },
            None => {},
        }
        t = t + 1;
    }
    // Each requested setting, checked in order.
    let mut ids: Vec<i64> = Vec::new();
    let mut i: usize = 0;
    while i < requested.len()
        invariant
            i <= requested@.len(),
            requested@.len() == gain_ok@.len(),
            forall|id: i64| known@.contains(id) <==> known_id(tracks@, id),
            first_request_error(tracks@, requested@, gain_ok@, i as int) is None,
            ids@.len() == i,
            forall|q: int| 0 <= q < i ==> crate::text::parse_i64_spec(#[trigger] requested@[q].user_id@) == Some(ids@[q]),
        decreases requested.len() - i,
    {
        let u = requested[i].user_id.as_str();
        let id = match crate::text::parse_i64(&chars_of(u)) {
            Some(v) => v,
            None => {
                proof {
                    lemma_first_error_sticks(tracks@, requested@, gain_ok@, i as int, requested@.len() as int);
                }
                return Err(message_for("Unknown channel mix participant ", u));
            },
        };
        if index_of(&known, id).is_none() {
            proof {
                assert(!known@.contains(id));
                assert(!known_id(tracks@, id));
                lemma_first_error_sticks(tracks@, requested@, gain_ok@, i as int, requested@.len() as int);
            }
            return Err(message_for("Unknown channel mix participant ", u));
        }
        proof {
            let w = choose|w: int| 0 <= w < known@.len() && known@[w] == id;
            assert(known@.contains(id));
        }
        match index_of(&ids, id) {
            Some(j) => {
                proof {
                    assert(crate::text::parse_i64_spec(requested@[j as int].user_id@) == Some(id));
                    lemma_first_error_sticks(tracks@, requested@, gain_ok@, i as int, requested@.len() as int);
                }
                return Err(message_for("Duplicate channel mix participant ", u));
            },
            None => {},
        }
        proof {
            assert(!exists|j: int| 0 <= j < i && crate::text::parse_i64_spec(#[trigger] requested@[j].user_id@) == Some(id)) by {
                if exists|j: int| 0 <= j < i && crate::text::parse_i64_spec(#[trigger] requested@[j].user_id@) == Some(id) {
                    let j = choose|j: int| 0 <= j < i && crate::text::parse_i64_spec(#[trigger] requested@[j].user_id@) == Some(id);
                    assert(ids@[j] == id);
                }
            }
        }
        if !gain_ok[i] {
            proof {
                lemma_first_error_sticks(tracks@, requested@, gain_ok@, i as int, requested@.len() as int);
            }
            return Err(message_with("Channel mix gain for ", u, " must be between -60 dB and +12 dB"));
        }
        proof {
            assert(request_check(tracks@, requested@, gain_ok@, i as int) is None);
        }
        ids.push(id);
        i = i + 1;
    }
    let defaults = default_generation_settings(tracks, zero);
    let ghost d = sort_ids(track_ids(tracks@));
    proof {
        assert(settings_view(defaults.participants@).len() == d.len());
        assert(settings_view(defaults.participants@).len() == defaults.participants@.len());
    }
    // No number is asked for twice.
    proof {
        assert forall|a: int, b: int| 0 <= a < b < requested@.len() implies ids@[a] != ids@[b] by {
            lemma_first_error_prefix(tracks@, requested@, gain_ok@, b + 1, requested@.len() as int);
            assert(first_request_error(tracks@, requested@, gain_ok@, b + 1) is None);
            assert(request_check(tracks@, requested@, gain_ok@, b) is None);
            assert(crate::text::parse_i64_spec(requested@[a].user_id@) == Some(ids@[a]));
        }
    }
    let mut out: Vec<ChannelMixParticipantSettings<G>> = Vec::new();
    let mut seen_keys: Vec<i64> = Vec::new();
    let mut any_unmuted = false;
    let mut k: usize = 0;
    while k < defaults.participants.len()
        invariant
            k <= defaults.participants@.len(),
            settings_view(defaults.participants@) == d.map_values(|u: Seq<char>| (u, zero, false)),
            d == sort_ids(track_ids(tracks@)),
            d.len() == defaults.participants@.len(),
            ids@.len() == requested@.len(),
            forall|q: int| 0 <= q < requested@.len() ==> crate::text::parse_i64_spec(#[trigger] requested@[q].user_id@) == Some(ids@[q]),
            forall|a: int, b: int| 0 <= a < b < requested@.len() ==> ids@[a] != ids@[b],
            seen_keys@.len() == k,
            forall|q: int| 0 <= q < k ==> seen_keys@[q] == zero_key(#[trigger] d[q]),
            settings_view(out@) == Seq::new(k as nat, |q: int| applied_entry(d, requested@, zero, q)),
            any_unmuted <==> exists|q: int| 0 <= q < k && !(#[trigger] settings_view(out@)[q]).2,
        decreases defaults.participants.len() - k,
    {
        let dp = &defaults.participants[k];
        proof {
            assert(settings_view(defaults.participants@)[k as int] == (d[k as int], zero, false));
        }
        let key = match crate::text::parse_i64(&chars_of(dp.user_id.as_str())) {
            Some(v) => v,
            None => 0,
        };
        let consumed = index_of(&seen_keys, key).is_some();
        let found = index_of(&ids, key);
        let ghost prev = out@;
        let entry = match found {
            Some(j) => {
                if !consumed {
                    let mut t: Vec<char> = Vec::new();
                    crate::text::push_dec_i64(&mut t, key);
                    ChannelMixParticipantSettings {
                        user_id: string_of(&t),
                        gain_db: requested[j].gain_db,
                        muted: requested[j].muted,
                    }
                } else {
                    ChannelMixParticipantSettings {
                        user_id: string_of(&chars_of(dp.user_id.as_str())),
                        gain_db: zero,
                        muted: false,
                    }
                }
            },
            None => ChannelMixParticipantSettings {
                user_id: string_of(&chars_of(dp.user_id.as_str())),
                gain_db: zero,
                muted: false,
            },
        };
        proof {
            let want = applied_entry(d, requested@, zero, k as int);
            assert(consumed <==> exists|k2: int| 0 <= k2 < k && #[trigger] zero_key(d[k2]) == key) by {
                if consumed {
                    let w = choose|w: int| 0 <= w < seen_keys@.len() && seen_keys@[w] == key;
                    assert(zero_key(d[w]) == key);
                }
                if exists|k2: int| 0 <= k2 < k && #[trigger] zero_key(d[k2]) == key {
                    let k2 = choose|k2: int| 0 <= k2 < k && #[trigger] zero_key(d[k2]) == key;
                    assert(seen_keys@[k2] == key);
                }
            }
            match found {
                Some(j) => {
                    assert(crate::text::parse_i64_spec(requested@[j as int].user_id@) == Some(ids@[j as int]));
                    assert(requested_for(requested@, key));
                    let c = choose|c: int| 0 <= c < requested@.len() && crate::text::parse_i64_spec(#[trigger] requested@[c].user_id@) == Some(key);
                    assert(ids@[c] == key);
                    assert(c == j);
                },
                None => {
                    assert(!requested_for(requested@, key)) by {
                        if requested_for(requested@, key) {
                            let c = choose|c: int| 0 <= c < requested@.len() && crate::text::parse_i64_spec(#[trigger] requested@[c].user_id@) == Some(key);
                            assert(ids@[c] == key);
                        }
                    }
                },
            }
            assert((entry.user_id@, entry.gain_db, entry.muted) == want);
        }
        let ghost was_unmuted = any_unmuted;
        if !entry.muted {
            any_unmuted = true;
        }
        proof {
            assert(was_unmuted <==> exists|q: int| 0 <= q < k && !(#[trigger] settings_view(prev)[q]).2);
        }
        out.push(entry);
        seen_keys.push(key);
        proof {
            let want = Seq::new((k + 1) as nat, |q: int| applied_entry(d, requested@, zero, q));
            assert(settings_view(prev).len() == k);
            assert(prev.len() == k);
            let had = Seq::new(k as nat, |q: int| applied_entry(d, requested@, zero, q));
            assert forall|q: int| 0 <= q < k + 1 implies settings_view(out@)[q] == want[q] by {
                if q < k {
                    assert(out@[q] == prev[q]);
                    assert(settings_view(prev)[q] == had[q]);
                } else {
                    assert(out@[q] == entry);
                }
            }
            assert(any_unmuted <==> exists|q: int| 0 <= q < k + 1 && !(#[trigger] settings_view(out@)[q]).2) by {
                if exists|q: int| 0 <= q < k && !(#[trigger] settings_view(prev)[q]).2 {
                    let q = choose|q: int| 0 <= q < k && !(#[trigger] settings_view(prev)[q]).2;
                    assert(out@[q] == prev[q]);
                    assert(!settings_view(out@)[q].2);
                }
                if exists|q: int| 0 <= q < k + 1 && !(#[trigger] settings_view(out@)[q]).2 {
                    let q = choose|q: int| 0 <= q < k + 1 && !(#[trigger] settings_view(out@)[q]).2;
                    if q < k {
                        assert(out@[q] == prev[q]);
                        assert(!settings_view(prev)[q].2);
                    } else {
                        assert(out@[q] == entry);
                    }
                }
                if !entry.muted {
                    assert(out@[k as int] == entry);
                    assert(!settings_view(out@)[k as int].2);
                }
            }
            assert(settings_view(out@) =~= want);
        }
        k = k + 1;
    }
    proof {
        assert(settings_view(out@) =~= canonical_spec(tracks@, requested@, zero));
    }
    if out.len() > 0 && !any_unmuted {
        return Err(AppError::BadRequest(string_of(&chars_of("At least one channel mix participant must be unmuted"))));
    }
    Ok(ChannelMixGenerationSettings { participants: out, source_fingerprint: None })
}

proof fn lemma_first_error_prefix<G>(
    tracks: Seq<ChannelMixTrack>,
    req: Seq<ChannelMixParticipantSettings<G>>,
    gain_ok: Seq<bool>,
    m: int,
    n: int,
)
    requires
        0 <= m <= n,
        first_request_error(tracks, req, gain_ok, n) is None,
    ensures
        first_request_error(tracks, req, gain_ok, m) is None,
    decreases n - m,
{
    if m < n {
        lemma_first_error_prefix(tracks, req, gain_ok, m + 1, n);
    }
}

/// The fingerprint of a render: the sources' fingerprint and the settings
/// (`settings_json`, their JSON text, which the server writes).
pub open spec fn mix_fingerprint_spec(source_fingerprint: Seq<char>, settings_json: Seq<char>) -> Seq<char> {
    source_fingerprint + "\nsettings:"@ + settings_json
}

/// Joins a source fingerprint and the settings' JSON text.
pub fn mix_fingerprint(source_fingerprint: &str, settings_json: &str) -> (r: String)
    ensures
        r@ == mix_fingerprint_spec(source_fingerprint@, settings_json@),
{
    let mut v = chars_of(source_fingerprint);
    crate::text::push_str(&mut v, "\nsettings:");
    crate::text::push_str(&mut v, settings_json);
    string_of(&v)
}

/// A copy of the settings with `source_fingerprint` filled in, as a status
/// document reports them.
pub fn response_settings<G: Copy>(settings: &ChannelMixGenerationSettings<G>, source_fingerprint: &str) -> (r:
    ChannelMixGenerationSettings<G>)
    ensures
        settings_view(r.participants@) == settings_view(settings.participants@),
        r.source_fingerprint matches Some(f) && f@ == source_fingerprint@,
{
    let mut ps: Vec<ChannelMixParticipantSettings<G>> = Vec::new();
    let mut i: usize = 0;
    while i < settings.participants.len()
        invariant
            i <= settings.participants@.len(),
            settings_view(ps@) == settings_view(settings.participants@).take(i as int),
        decreases settings.participants.len() - i,
    {
        let p = &settings.participants[i];
        let ghost prev = ps@;
        ps.push(ChannelMixParticipantSettings {
            user_id: string_of(&chars_of(p.user_id.as_str())),
            gain_db: p.gain_db,
            muted: p.muted,
        });
        proof {
            assert(settings_view(prev).len() == i);
            assert forall|q: int| 0 <= q < i + 1 implies settings_view(ps@)[q] == settings_view(
                settings.participants@,
            ).take(i + 1)[q] by {
                if q < i {
                    assert(ps@[q] == prev[q]);
                    assert(settings_view(prev)[q] == settings_view(settings.participants@).take(i as int)[q]);
                }
            }
            assert(settings_view(ps@) =~= settings_view(settings.participants@).take(i + 1));
        }
        i = i + 1;
    }
    assert(settings_view(settings.participants@).take(settings.participants@.len() as int) =~= settings_view(
        settings.participants@,
    ));
    ChannelMixGenerationSettings {
        participants: ps,
        source_fingerprint: Some(string_of(&chars_of(source_fingerprint))),
    }
}

impl<G: Copy> MixPlan<G> {
    /// The plan rendered with other settings: same sources, new settings,
    /// and the fingerprint of the two (`settings_json` being the new
    /// settings' JSON text).
    pub fn with_settings(self, settings: ChannelMixGenerationSettings<G>, settings_json: &str) -> (p: MixPlan<G>)
        ensures
            p.fingerprint@ == mix_fingerprint_spec(self.source_fingerprint@, settings_json@),
            p.settings == settings,
            p.session_id == self.session_id,
            p.scope == self.scope,
            p.duration_ms == self.duration_ms,
            p.contributors == self.contributors,
            p.sources == self.sources,
            p.participants == self.participants,
            p.tracks == self.tracks,
            p.cache_dir == self.cache_dir,
            p.source_fingerprint == self.source_fingerprint,
    {
        let fingerprint = mix_fingerprint(self.source_fingerprint.as_str(), settings_json);
        MixPlan { fingerprint, settings, ..self }
    }
}

/// A render that the job container holds for a session and scope.
#[derive(Debug)]
pub struct MixJobView<G> {
    pub source_fingerprint: String,
    pub settings: ChannelMixGenerationSettings<G>,
    pub progress: i16,
    pub failed: Option<String>,
}

/// What the cache directory says of the mix it holds.
#[derive(Debug)]
pub struct MixCacheMetadata<G> {
    pub source_fingerprint: String,
    pub fingerprint: String,
    pub settings: ChannelMixGenerationSettings<G>,
}

/// The parts of a status document that depend on the state of the render.
#[derive(Debug)]
pub struct MixStatusParts<G> {
    pub status: ChannelMixStatus,
    pub reason: Option<ChannelMixReason>,
    pub progress: i16,
    pub media_url: Option<String>,
    pub generation_settings: Option<ChannelMixGenerationSettings<G>>,
}

pub open spec fn media_url_spec(session_id: i64, scope: ChannelMixScope) -> Seq<char> {
    "/api/audio/sessions/"@ + crate::text::dec_int(session_id as int) + "/channel-mix/media?scope="@
        + scope_text(scope)
}

pub open spec fn no_overlap_message(scope: ChannelMixScope) -> Seq<char> {
    match scope {
        ChannelMixScope::AllRecordings => "No recordings were found while the bot was connected to this channel."@,
        ChannelMixScope::SelectedSession => "No other recorded participant overlaps the selected session timeline."@,
    }
}

pub type SettingsView<G> = (Seq<(Seq<char>, G, bool)>, Seq<char>);

pub open spec fn opt_settings_view<G>(o: Option<ChannelMixGenerationSettings<G>>) -> Option<SettingsView<G>> {
    match o {
        Some(s) => Some(
            (
                settings_view(s.participants@),
                match s.source_fingerprint {
                    Some(f) => f@,
                    None => Seq::empty(),
                },
            ),
        ),
        None => None,
    }
}

pub open spec fn opt_text(o: Option<String>) -> Option<Seq<char>> {
    match o {
        Some(s) => Some(s@),
        None => None,
    }
}

pub type StatusView<G> = (
    ChannelMixStatus,
    Option<(Seq<char>, Seq<char>)>,
    i16,
    Option<Seq<char>>,
    Option<SettingsView<G>>,
);

pub open spec fn parts_view<G>(p: MixStatusParts<G>) -> StatusView<G> {
    (p.status, reason_view(p.reason), p.progress, opt_text(p.media_url), opt_settings_view(p.generation_settings))
}

/// The state of a mix: waiting while something blocks it; unavailable
/// with nothing to mix; a render of the current sources reports its
/// failure or progress (one of other sources leaves the mix idle); a cache
/// of the current render is ready, and with `include_existing` so is one
/// of the current sources under other settings; otherwise idle.
pub open spec fn mix_status_spec<G>(
    plan: MixPlan<G>,
    access: SessionAccess,
    job: Option<MixJobView<G>>,
    cache: Option<MixCacheMetadata<G>>,
    include_existing: bool,
) -> StatusView<G> {
    let idle = (ChannelMixStatus::Idle, None, 0i16, None, None);
    if blocking_spec(plan, access) is Some {
        (ChannelMixStatus::Waiting, blocking_spec(plan, access), 0i16, None, None)
    } else if plan.sources@.len() == 0 {
        (ChannelMixStatus::Unavailable, Some(("no_overlap"@, no_overlap_message(plan.scope))), 0i16, None, None)
    } else if job is Some {
        let j = job->0;
        let settings = Some((settings_view(j.settings.participants@), j.source_fingerprint@));
        if j.source_fingerprint@ != plan.source_fingerprint@ {
            idle
        } else {
            match j.failed {
                Some(e) => (ChannelMixStatus::Failed, Some(("render_failed"@, e@)), 0i16, None, settings),
                None => (ChannelMixStatus::Processing, None, j.progress, None, settings),
            }
        }
    } else if cache is Some && cache->0.source_fingerprint@ == plan.source_fingerprint@
        && cache->0.fingerprint@ == plan.fingerprint@ {
        (
            ChannelMixStatus::Ready,
            None,
            100i16,
            Some(media_url_spec(plan.session_id, plan.scope)),
            Some((settings_view(plan.settings.participants@), plan.source_fingerprint@)),
        )
    } else if include_existing && cache is Some && cache->0.source_fingerprint@ == plan.source_fingerprint@ {
        (
            ChannelMixStatus::Ready,
            None,
            100i16,
            Some(media_url_spec(plan.session_id, plan.scope)),
            Some((settings_view(cache->0.settings.participants@), cache->0.source_fingerprint@)),
        )
    } else {
        idle
    }
}

fn media_url(session_id: i64, scope: ChannelMixScope) -> (r: String)
    ensures
        r@ == media_url_spec(session_id, scope),
{
    let mut v = chars_of("/api/audio/sessions/");
    crate::text::push_dec_i64(&mut v, session_id);
    crate::text::push_str(&mut v, "/channel-mix/media?scope=");
    crate::text::push_str(&mut v, scope.as_str());
    string_of(&v)
}

fn some_settings<G: Copy>(settings: &ChannelMixGenerationSettings<G>, fp: &String) -> (r: Option<
    ChannelMixGenerationSettings<G>,
>)
    ensures
        opt_settings_view(r) == Some((settings_view(settings.participants@), fp@)),
        r matches Some(g) && g.source_fingerprint is Some,
{
    Some(response_settings(settings, fp.as_str()))
}

/// The state of a mix, given the render the job container holds for it
/// (if any) and the cache metadata read from disk (if any).
pub fn mix_status<G: Copy>(
    plan: &MixPlan<G>,
    access: &SessionAccess,
    job: Option<&MixJobView<G>>,
    cache: Option<&MixCacheMetadata<G>>,
    include_existing: bool,
) -> (r: MixStatusParts<G>)
    ensures
        parts_view(r) == mix_status_spec(
            *plan,
            *access,
            match job {
                Some(j) => Some(*j),
                None => None,
            },
            match cache {
                Some(c) => Some(*c),
                None => None,
            },
            include_existing,
        ),
        r.generation_settings matches Some(g) ==> g.source_fingerprint is Some,
{
    let idle = MixStatusParts {
        status: ChannelMixStatus::Idle,
        reason: None,
        progress: 0,
        media_url: None,
        generation_settings: None,
    };
    let blocking = plan.blocking_reason(access);
    if blocking.is_some() {
        return MixStatusParts {
            status: ChannelMixStatus::Waiting,
            reason: blocking,
            progress: 0,
            media_url: None,
            generation_settings: None,
        };
    }
    if plan.sources.len() == 0 {
        let message = match plan.scope {
            ChannelMixScope::AllRecordings => "No recordings were found while the bot was connected to this channel.",
            ChannelMixScope::SelectedSession => "No other recorded participant overlaps the selected session timeline.",
        };
        return MixStatusParts {
            status: ChannelMixStatus::Unavailable,
            reason: Some(reason("no_overlap", message)),
            progress: 0,
            media_url: None,
            generation_settings: None,
        };
    }
    let plan_fp = chars_of(plan.source_fingerprint.as_str());
    match job {
        Some(j) => {
            if !chars_equal(&chars_of(j.source_fingerprint.as_str()), &plan_fp) {
                return idle;
            }
            let settings = some_settings(&j.settings, &j.source_fingerprint);
            match &j.failed {
                Some(e) => {
                    return MixStatusParts {
                        status: ChannelMixStatus::Failed,
                        reason: Some(ChannelMixReason {
                            code: string_of(&chars_of("render_failed")),
                            message: string_of(&chars_of(e.as_str())),
                        }),
                        progress: 0,
                        media_url: None,
                        generation_settings: settings,
                    };
                },
                None => {
                    return MixStatusParts {
                        status: ChannelMixStatus::Processing,
                        reason: None,
                        progress: j.progress,
                        media_url: None,
                        generation_settings: settings,
                    };
                },
            }
        },
        None => {},
    }
    match cache {
        Some(m) => {
            let same_sources = chars_equal(&chars_of(m.source_fingerprint.as_str()), &plan_fp);
            if same_sources && chars_equal(
                &chars_of(m.fingerprint.as_str()),
                &chars_of(plan.fingerprint.as_str()),
            ) {
                return MixStatusParts {
                    status: ChannelMixStatus::Ready,
                    reason: None,
                    progress: 100,
                    media_url: Some(media_url(plan.session_id, plan.scope)),
                    generation_settings: some_settings(&plan.settings, &plan.source_fingerprint),
                };
            }
            if include_existing && same_sources {
                return MixStatusParts {
                    status: ChannelMixStatus::Ready,
                    reason: None,
                    progress: 100,
                    media_url: Some(media_url(plan.session_id, plan.scope)),
                    generation_settings: some_settings(&m.settings, &m.source_fingerprint),
                };
            }
        },
        None => {},
    }
    idle
}

/// What a request to generate a mix leads to.
#[derive(Clone, Copy, Debug, PartialEq, Eq, Structural)]
pub enum GenerateAction {
    /// 409: something blocks rendering; the status is sent as is.
    Conflict,
    /// 200: the mix is ready.
    AlreadyReady,
    /// 202: a render is under way or the mix cannot be had; the status is
    /// sent as is.
    AlreadyUnderWay,
    /// Start a render, then answer 202 with the fresh status.
    StartRender,
}

/// The decision of the generate route, from whether something blocks the
/// plan and the mix's status.
pub fn generate_action(blocked: bool, status: ChannelMixStatus) -> (a: GenerateAction)
    ensures
        a == if blocked {
            GenerateAction::Conflict
        } else if status == ChannelMixStatus::Idle || status == ChannelMixStatus::Failed {
            GenerateAction::StartRender
        } else if status == ChannelMixStatus::Ready {
            GenerateAction::AlreadyReady
        } else {
            GenerateAction::AlreadyUnderWay
        },
{
    if blocked {
        GenerateAction::Conflict
    } else {
        match status {
            ChannelMixStatus::Idle | ChannelMixStatus::Failed => GenerateAction::StartRender,
            ChannelMixStatus::Ready => GenerateAction::AlreadyReady,
            _ => GenerateAction::AlreadyUnderWay,
        }
    }
}

pub open spec fn bool_text(b: bool) -> Seq<char> {
    if b {
        "true"@
    } else {
        "false"@
    }
}

fn push_bool(v: &mut Vec<char>, b: bool)
    ensures
        final(v)@ == old(v)@ + bool_text(b),
{
    if b {
        crate::text::push_str(v, "true");
    } else {
        crate::text::push_str(v, "false");
    }
}

fn push_field(v: &mut Vec<char>, n: i64)
    ensures
        final(v)@ == old(v)@ + ":"@ + crate::text::dec_int(n as int),
{
    crate::text::push_str(v, ":");
    crate::text::push_dec_i64(v, n);
}

pub open spec fn num(n: int) -> Seq<char> {
    ":"@ + crate::text::dec_int(n)
}

pub open spec fn window_line(w: MixWindow) -> Seq<char> {
    "window"@ + num(w.channel_id as int) + num(w.start_ms as int) + num(w.end_ms as int)
}

pub open spec fn end_or_zero(e: Option<i64>) -> int {
    match e {
        Some(v) => v as int,
        None => 0,
    }
}

pub open spec fn anchor_line(f: AudioFragment) -> Seq<char> {
    "anchor"@ + num(f.id as int) + num(f.channel_id as int) + num(f.start_ms as int) + num(end_or_zero(f.end_ms))
        + ":"@ + f.file_name@ + num(f.year as int) + num(f.month as int) + ":"@ + bool_text(f.live)
}

pub open spec fn source_line(c: MixContributor) -> Seq<char> {
    let f = c.fragment;
    "source"@ + num(f.id as int) + num(end_or_zero(c.session_id)) + num(c.user_id as int) + num(f.channel_id as int)
        + num(f.start_ms as int) + num(end_or_zero(f.end_ms)) + ":"@ + c.state@ + ":"@ + f.file_name@ + num(
        f.year as int,
    ) + num(f.month as int) + ":"@ + bool_text(f.live)
}

/// Each line preceded by a newline, in order.
pub open spec fn joined_tail(lines: Seq<Seq<char>>) -> Seq<char>
    decreases lines.len(),
{
    if lines.len() == 0 {
        Seq::empty()
    } else {
        joined_tail(lines.drop_last()) + "\n"@ + lines.last()
    }
}

pub open spec fn fingerprint_header(access: SessionAccess, scope: ChannelMixScope, start: i64, duration: i64) -> Seq<
    char,
> {
    "v4;scope="@ + scope_text(scope) + ";session="@ + crate::text::dec_int(access.session_id as int)
        + ";timeline_start="@ + crate::text::dec_int(start as int) + ";duration="@ + crate::text::dec_int(
        duration as int,
    )
}

pub open spec fn fingerprint_lines(
    windows: Seq<MixWindow>,
    anchors: Seq<AudioFragment>,
    contributors: Seq<MixContributor>,
) -> Seq<Seq<char>> {
    windows.map_values(|w: MixWindow| window_line(w)) + anchors.map_values(|f: AudioFragment| anchor_line(f))
        + contributors.map_values(|c: MixContributor| source_line(c))
}

fn push_window_line(v: &mut Vec<char>, w: &MixWindow)
    ensures
        final(v)@ == old(v)@ + "\n"@ + window_line(*w),
{
    let ghost start = v@;
    crate::text::push_str(v, "\nwindow");
    push_field(v, w.channel_id);
    push_field(v, w.start_ms);
    push_field(v, w.end_ms);
    proof {
        reveal_strlit("\nwindow");
        reveal_strlit("\n");
        reveal_strlit("window");
        assert(v@ =~= start + "\n"@ + window_line(*w));
    }
}

pub open spec fn anchor_numbers(f: AudioFragment) -> Seq<char> {
    num(f.id as int) + num(f.channel_id as int) + num(f.start_ms as int) + num(end_or_zero(f.end_ms))
}

pub open spec fn anchor_rest(f: AudioFragment) -> Seq<char> {
    ":"@ + f.file_name@ + num(f.year as int) + num(f.month as int) + ":"@ + bool_text(f.live)
}

fn push_anchor_numbers(v: &mut Vec<char>, f: &AudioFragment)
    ensures
        final(v)@ == old(v)@ + anchor_numbers(*f),
{
    let ghost start = v@;
    push_field(v, f.id);
    push_field(v, f.channel_id);
    push_field(v, f.start_ms);
    push_field(v, match f.end_ms {
        Some(e) => e,
        None => 0,
    });
    assert(v@ =~= start + anchor_numbers(*f));
}

fn push_anchor_rest(v: &mut Vec<char>, f: &AudioFragment)
    ensures
        final(v)@ == old(v)@ + anchor_rest(*f),
{
    let ghost start = v@;
    crate::text::push_str(v, ":");
    crate::text::push_str(v, f.file_name.as_str());
    push_field(v, f.year as i64);
    push_field(v, f.month as i64);
    crate::text::push_str(v, ":");
    push_bool(v, f.live);
    assert(v@ =~= start + anchor_rest(*f));
}

fn push_anchor_line(v: &mut Vec<char>, f: &AudioFragment)
    ensures
        final(v)@ == old(v)@ + "\n"@ + anchor_line(*f),
{
    let ghost start = v@;
    crate::text::push_str(v, "\nanchor");
    push_anchor_numbers(v, f);
    push_anchor_rest(v, f);
    proof {
        reveal_strlit("\nanchor");
        reveal_strlit("\n");
        reveal_strlit("anchor");
        assert(anchor_line(*f) =~= "anchor"@ + anchor_numbers(*f) + anchor_rest(*f));
        assert(v@ =~= start + "\n"@ + anchor_line(*f));
    }
}

pub open spec fn source_numbers(c: MixContributor) -> Seq<char> {
    let f = c.fragment;
    num(f.id as int) + num(end_or_zero(c.session_id)) + num(c.user_id as int) + num(f.channel_id as int) + num(
        f.start_ms as int,
    ) + num(end_or_zero(f.end_ms))
}

pub open spec fn source_rest(c: MixContributor) -> Seq<char> {
    let f = c.fragment;
    ":"@ + c.state@ + ":"@ + f.file_name@ + num(f.year as int) + num(f.month as int) + ":"@ + bool_text(f.live)
}

fn push_source_numbers(v: &mut Vec<char>, c: &MixContributor)
    ensures
        final(v)@ == old(v)@ + source_numbers(*c),
{
    let ghost start = v@;
    let f = &c.fragment;
    push_field(v, f.id);
    push_field(v, match c.session_id {
        Some(e) => e,
        None => 0,
    });
    push_field(v, c.user_id);
    let ghost mid = v@;
    assert(mid =~= start + num(f.id as int) + num(end_or_zero(c.session_id)) + num(c.user_id as int));
    push_field(v, f.channel_id);
    push_field(v, f.start_ms);
    push_field(v, match f.end_ms {
        Some(e) => e,
        None => 0,
    });
    assert(v@ =~= start + source_numbers(*c));
}

fn push_source_rest(v: &mut Vec<char>, c: &MixContributor)
    ensures
        final(v)@ == old(v)@ + source_rest(*c),
{
    let ghost start = v@;
    let f = &c.fragment;
    crate::text::push_str(v, ":");
    crate::text::push_str(v, c.state.as_str());
    crate::text::push_str(v, ":");
    crate::text::push_str(v, f.file_name.as_str());
    let ghost mid = v@;
    assert(mid =~= start + ":"@ + c.state@ + ":"@ + f.file_name@);
    push_field(v, f.year as i64);
    push_field(v, f.month as i64);
    crate::text::push_str(v, ":");
    push_bool(v, f.live);
    assert(v@ =~= start + source_rest(*c));
}

fn push_source_line(v: &mut Vec<char>, c: &MixContributor)
    ensures
        final(v)@ == old(v)@ + "\n"@ + source_line(*c),
{
    let ghost start = v@;
    crate::text::push_str(v, "\nsource");
    push_source_numbers(v, c);
    push_source_rest(v, c);
    proof {
        reveal_strlit("\nsource");
        reveal_strlit("\n");
        reveal_strlit("source");
        assert(source_line(*c) =~= "source"@ + source_numbers(*c) + source_rest(*c));
        assert(v@ =~= start + "\n"@ + source_line(*c));
    }
}

/// The identity of the recordings a mix draws on: the scope, session and
/// timeline, then a line per window, per anchor fragment and per
/// contributor. A cached render is reused only under the same identity.
pub fn mix_source_fingerprint(
    access: &SessionAccess,
    scope: ChannelMixScope,
    timeline_start_ms: i64,
    duration_ms: i64,
    windows: &[MixWindow],
    anchors: &[AudioFragment],
    contributors: &[MixContributor],
) -> (r: String)
    ensures
        r@ == fingerprint_header(*access, scope, timeline_start_ms, duration_ms) + joined_tail(
            fingerprint_lines(windows@, anchors@, contributors@),
        ),
{
    let ghost lines = fingerprint_lines(windows@, anchors@, contributors@);
    let ghost head = fingerprint_header(*access, scope, timeline_start_ms, duration_ms);
    let mut v = chars_of("v4;scope=");
    crate::text::push_str(&mut v, scope.as_str());
    crate::text::push_str(&mut v, ";session=");
    crate::text::push_dec_i64(&mut v, access.session_id);
    crate::text::push_str(&mut v, ";timeline_start=");
    crate::text::push_dec_i64(&mut v, timeline_start_ms);
    crate::text::push_str(&mut v, ";duration=");
    crate::text::push_dec_i64(&mut v, duration_ms);
    proof {
        assert(v@ =~= head + joined_tail(lines.take(0)));
    }
    let nw = windows.len();
    let na = anchors.len();
    let mut i: usize = 0;
    while i < nw
        invariant
            i <= nw,
            nw == windows@.len(),
            lines == fingerprint_lines(windows@, anchors@, contributors@),
            v@ == head + joined_tail(lines.take(i as int)),
        decreases nw - i,
    {
        push_window_line(&mut v, &windows[i]);
        proof {
            assert(lines.take(i + 1).drop_last() =~= lines.take(i as int));
            assert(lines[i as int] == window_line(windows@[i as int]));
        }
        i = i + 1;
    }
    let mut j: usize = 0;
    while j < na
        invariant
            j <= na,
            nw == windows@.len(),
            na == anchors@.len(),
            lines == fingerprint_lines(windows@, anchors@, contributors@),
            v@ == head + joined_tail(lines.take(nw + j)),
        decreases na - j,
    {
        push_anchor_line(&mut v, &anchors[j]);
        proof {
            assert(lines.take(nw + j + 1).drop_last() =~= lines.take(nw + j));
            assert(lines[nw + j] == anchor_line(anchors@[j as int]));
        }
        j = j + 1;
    }
    let mut k: usize = 0;
    while k < contributors.len()
        invariant
            k <= contributors@.len(),
            nw == windows@.len(),
            na == anchors@.len(),
            lines == fingerprint_lines(windows@, anchors@, contributors@),
            v@ == head + joined_tail(lines.take(nw + na + k)),
        decreases contributors.len() - k,
    {
        push_source_line(&mut v, &contributors[k]);
        proof {
            assert(lines.take(nw + na + k + 1).drop_last() =~= lines.take(nw + na + k));
            assert(lines[nw + na + k] == source_line(contributors@[k as int]));
        }
        k = k + 1;
    }
    proof {
        assert(lines.take(nw + na + contributors@.len()) =~= lines);
    }
    string_of(&v)
}

pub open spec fn increasing(s: Seq<i64>) -> bool {
    forall|a: int, b: int| 0 <= a < b < s.len() ==> s[a] < s[b]
}

/// Two increasing sequences with the same elements are the same.
pub proof fn lemma_increasing_unique(s: Seq<i64>, t: Seq<i64>)
    requires
        increasing(s),
        increasing(t),
        s.to_set() == t.to_set(),
    ensures
        s == t,
    decreases s.len() + t.len(),
{
    if s.len() == 0 || t.len() == 0 {
        if s.len() > 0 {
            assert(s.to_set().contains(s[0]));
            assert(!t.to_set().contains(s[0]));
        }
        if t.len() > 0 {
            assert(t.to_set().contains(t[0]));
            assert(!s.to_set().contains(t[0]));
        }
        assert(s =~= t);
    } else {
        assert(s.to_set().contains(s[0]));
        assert(t.to_set().contains(t[0]));
        assert(t.contains(s[0]));
        assert(s.contains(t[0]));
        let i = choose|i: int| 0 <= i < t.len() && t[i] == s[0];
        let j = choose|j: int| 0 <= j < s.len() && s[j] == t[0];
        assert(s[0] == t[0]) by {
            if i > 0 {
                assert(t[0] < t[i]);
                assert(s[0] <= s[j]);
            }
        }
        let s1 = s.drop_first();
        let t1 = t.drop_first();
        assert forall|x: i64| s1.to_set().contains(x) <==> t1.to_set().contains(x) by {
            if s1.contains(x) {
                let a = choose|a: int| 0 <= a < s1.len() && s1[a] == x;
                assert(s[a + 1] == x);
                assert(s.contains(x));
                assert(t.to_set().contains(x));
                let b = choose|b: int| 0 <= b < t.len() && t[b] == x;
                assert(b != 0) by {
                    assert(s[0] < s[a + 1]);
                }
                assert(t1[b - 1] == x);
            }
            if t1.contains(x) {
                let a = choose|a: int| 0 <= a < t1.len() && t1[a] == x;
                assert(t[a + 1] == x);
                assert(t.contains(x));
                assert(s.to_set().contains(x));
                let b = choose|b: int| 0 <= b < s.len() && s[b] == x;
                assert(b != 0) by {
                    assert(t[0] < t[a + 1]);
                }
                assert(s1[b - 1] == x);
            }
        }
        assert(s1.to_set() =~= t1.to_set());
        lemma_increasing_unique(s1, t1);
        assert(s =~= seq![s[0]] + s1);
        assert(t =~= seq![t[0]] + t1);
    }
}

/// Inserts `x` into the increasing `v` unless it is there.
pub(crate) fn insert_distinct(v: &mut Vec<i64>, x: i64)
    requires
        increasing(old(v)@),
    ensures
        increasing(final(v)@),
        final(v)@.to_set() == old(v)@.to_set().insert(x),
{
    let mut p: usize = 0;
    while p < v.len() && v[p] < x
        invariant
            p <= v@.len(),
            forall|q: int| 0 <= q < p ==> v@[q] < x,
        decreases v.len() - p,
    {
        p = p + 1;
    }
    if p < v.len() && v[p] == x {
        proof {
            assert(v@.to_set().contains(x));
            assert(v@.to_set() =~= v@.to_set().insert(x));
        }
        return;
    }
    let ghost before = v@;
    v.insert(p, x);
    proof {
        assert forall|a: int, b: int| 0 <= a < b < v@.len() implies v@[a] < v@[b] by {
            if b < p {
                assert(v@[a] == before[a] && v@[b] == before[b]);
            } else if b == p {
                assert(v@[a] == before[a]);
            } else if a == p {
                assert(v@[b] == before[b - 1]);
                assert(before[p as int] >= x);
                if b - 1 > p {
                    assert(before[p as int] < before[b - 1]);
                }
            } else if a < p {
                assert(v@[a] == before[a] && v@[b] == before[b - 1]);
            } else {
                assert(v@[a] == before[a - 1] && v@[b] == before[b - 1]);
            }
        }
        assert forall|y: i64| v@.to_set().contains(y) <==> before.to_set().insert(x).contains(y) by {
            if v@.contains(y) {
                let a = choose|a: int| 0 <= a < v@.len() && v@[a] == y;
                if a < p {
                    assert(before[a] == y);
                } else if a > p {
                    assert(before[a - 1] == y);
                }
            }
            if before.contains(y) {
                let a = choose|a: int| 0 <= a < before.len() && before[a] == y;
                if a < p {
                    assert(v@[a] == y);
                } else {
                    assert(v@[a + 1] == y);
                }
            }
            if y == x {
                assert(v@[p as int] == y);
            }
        }
        assert(v@.to_set() =~= before.to_set().insert(x));
    }
}

/// The people a mix credits: the anchor (for a selected session) and every
/// contributor's speaker.
pub open spec fn plan_users(anchor: Option<(i64, i64)>, cs: Seq<MixContributor>) -> Set<i64> {
    let base = match anchor {
        Some(a) => set![a.0],
        None => Set::empty(),
    };
    base + cs.map_values(|c: MixContributor| c.user_id).to_set()
}

/// The users of a mix in increasing order.
pub open spec fn sorted_users(anchor: Option<(i64, i64)>, cs: Seq<MixContributor>) -> Seq<i64> {
    choose|s: Seq<i64>| increasing(s) && s.to_set() == plan_users(anchor, cs)
}

fn users_in_order(anchor: Option<(i64, i64)>, contributors: &[MixContributor]) -> (r: Vec<i64>)
    ensures
        r@ == sorted_users(anchor, contributors@),
{
    let mut v: Vec<i64> = Vec::new();
    match anchor {
        Some(a) => {
            insert_distinct(&mut v, a.0);
        },
        None => {},
    }
    let ghost base = match anchor {
        Some(a) => set![a.0],
        None => Set::<i64>::empty(),
    };
    proof {
        assert(v@.to_set() =~= base + contributors@.map_values(|c: MixContributor| c.user_id).take(0).to_set());
    }
    let mut i: usize = 0;
    while i < contributors.len()
        invariant
            i <= contributors@.len(),
            increasing(v@),
            base == match anchor {
                Some(a) => set![a.0],
                None => Set::<i64>::empty(),
            },
            v@.to_set() == base + contributors@.map_values(|c: MixContributor| c.user_id).take(i as int).to_set(),
        decreases contributors.len() - i,
    {
        insert_distinct(&mut v, contributors[i].user_id);
        proof {
            let us = contributors@.map_values(|c: MixContributor| c.user_id);
            assert(us.take(i + 1) =~= us.take(i as int).push(us[i as int]));
            lemma_to_set_push(us.take(i as int), us[i as int]);
            assert(v@.to_set() =~= base + us.take(i + 1).to_set());
        }
        i = i + 1;
    }
    proof {
        let us = contributors@.map_values(|c: MixContributor| c.user_id);
        assert(us.take(contributors@.len() as int) =~= us);
        let s = sorted_users(anchor, contributors@);
        assert(increasing(v@) && v@.to_set() == plan_users(anchor, contributors@));
        lemma_increasing_unique(s, v@);
    }
    v
}

pub open spec fn lex_lt(a: Seq<char>, b: Seq<char>) -> bool {
    crate::order::lex_le(a, b) && a != b
}

pub open spec fn texts_increasing(s: Seq<Seq<char>>) -> bool {
    forall|a: int, b: int| 0 <= a < b < s.len() ==> lex_lt(s[a], s[b])
}

/// Two lexicographically increasing sequences of texts with the same
/// elements are the same.
pub proof fn lemma_texts_unique(s: Seq<Seq<char>>, t: Seq<Seq<char>>)
    requires
        texts_increasing(s),
        texts_increasing(t),
        s.to_set() == t.to_set(),
    ensures
        s == t,
    decreases s.len() + t.len(),
{
    if s.len() == 0 || t.len() == 0 {
        if s.len() > 0 {
            assert(s.to_set().contains(s[0]));
            assert(!t.to_set().contains(s[0]));
        }
        if t.len() > 0 {
            assert(t.to_set().contains(t[0]));
            assert(!s.to_set().contains(t[0]));
        }
        assert(s =~= t);
    } else {
        assert(s.to_set().contains(s[0]));
        assert(t.to_set().contains(t[0]));
        assert(t.contains(s[0]));
        assert(s.contains(t[0]));
        let i = choose|i: int| 0 <= i < t.len() && t[i] == s[0];
        let j = choose|j: int| 0 <= j < s.len() && s[j] == t[0];
        assert(s[0] == t[0]) by {
            if i > 0 && j > 0 {
                assert(lex_lt(t[0], t[i]));
                assert(lex_lt(s[0], s[j]));
                crate::order::lemma_lex_antisym(s[0], t[0]);
            } else if i > 0 {
                assert(j == 0);
            }
        }
        let s1 = s.drop_first();
        let t1 = t.drop_first();
        assert forall|x: Seq<char>| s1.to_set().contains(x) <==> t1.to_set().contains(x) by {
            if s1.contains(x) {
                let a = choose|a: int| 0 <= a < s1.len() && s1[a] == x;
                assert(s[a + 1] == x);
                assert(s.contains(x));
                assert(t.to_set().contains(x));
                let b = choose|b: int| 0 <= b < t.len() && t[b] == x;
                assert(b != 0) by {
                    assert(lex_lt(s[0], s[a + 1]));
                }
                assert(t1[b - 1] == x);
            }
            if t1.contains(x) {
                let a = choose|a: int| 0 <= a < t1.len() && t1[a] == x;
                assert(t[a + 1] == x);
                assert(t.contains(x));
                assert(s.to_set().contains(x));
                let b = choose|b: int| 0 <= b < s.len() && s[b] == x;
                assert(b != 0) by {
                    assert(lex_lt(t[0], t[a + 1]));
                }
                assert(s1[b - 1] == x);
            }
        }
        assert(s1.to_set() =~= t1.to_set());
        lemma_texts_unique(s1, t1);
        assert(s =~= seq![s[0]] + s1);
        assert(t =~= seq![t[0]] + t1);
    }
}

/// Inserts `x` into the increasing texts `v` unless it is there.
fn insert_distinct_text(v: &mut Vec<String>, x: String)
    requires
        texts_increasing(id_views(old(v)@)),
    ensures
        texts_increasing(id_views(final(v)@)),
        id_views(final(v)@).to_set() == id_views(old(v)@).to_set().insert(x@),
{
    let xc = chars_of(x.as_str());
    let mut p: usize = 0;
    while p < v.len() && crate::order::lex_le_chars(&chars_of(v[p].as_str()), &xc) && !chars_equal(
        &chars_of(v[p].as_str()),
        &xc,
    )
        invariant
            p <= v@.len(),
            xc@ == x@,
            forall|q: int| 0 <= q < p ==> lex_lt(#[trigger] id_views(v@)[q], x@),
        decreases v.len() - p,
    {
        p = p + 1;
    }
    let ghost before = id_views(v@);
    if p < v.len() && chars_equal(&chars_of(v[p].as_str()), &xc) {
        proof {
            assert(before[p as int] == x@);
            assert(before.to_set().contains(x@));
            assert(before.to_set() =~= before.to_set().insert(x@));
        }
        return;
    }
    proof {
        if p < before.len() {
            crate::order::lemma_lex_total(before[p as int], x@);
            assert(lex_lt(x@, before[p as int]));
        }
    }
    v.insert(p, x);
    proof {
        let after = id_views(v@);
        assert(after =~= before.insert(p as int, x@));
        assert forall|a: int, b: int| 0 <= a < b < after.len() implies lex_lt(after[a], after[b]) by {
            if b < p {
                assert(after[a] == before[a] && after[b] == before[b]);
            } else if b == p {
                assert(after[a] == before[a]);
            } else if a == p {
                assert(after[b] == before[b - 1]);
                if b - 1 > p {
                    assert(lex_lt(before[p as int], before[b - 1]));
                    crate::order::lemma_lex_trans(x@, before[p as int], before[b - 1]);
                    if x@ == before[b - 1] {
                        crate::order::lemma_lex_antisym(x@, before[p as int]);
                    }
                }
            } else if a < p {
                assert(after[a] == before[a] && after[b] == before[b - 1]);
                assert(lex_lt(before[a], before[b - 1]));
            } else {
                assert(after[a] == before[a - 1] && after[b] == before[b - 1]);
            }
        }
        assert forall|y: Seq<char>| after.to_set().contains(y) <==> before.to_set().insert(x@).contains(y) by {
            if after.contains(y) {
                let a = choose|a: int| 0 <= a < after.len() && after[a] == y;
                if a < p {
                    assert(before[a] == y);
                } else if a > p {
                    assert(before[a - 1] == y);
                }
            }
            if before.contains(y) {
                let a = choose|a: int| 0 <= a < before.len() && before[a] == y;
                if a < p {
                    assert(after[a] == y);
                } else {
                    assert(after[a + 1] == y);
                }
            }
            if y == x@ {
                assert(after[p as int] == y);
            }
        }
        assert(after.to_set() =~= before.to_set().insert(x@));
    }
}

/// The session ids credited to user `u`, as text: the anchor session for
/// the anchor, and the session of each of `u`'s contributions that has one.
pub open spec fn user_session_texts(anchor: Option<(i64, i64)>, cs: Seq<MixContributor>, u: i64) -> Set<Seq<char>> {
    let base = match anchor {
        Some(a) => if a.0 == u {
            set![crate::text::dec_int(a.1 as int)]
        } else {
            Set::empty()
        },
        None => Set::empty(),
    };
    base + Set::new(
        |t: Seq<char>|
            exists|k: int|
                0 <= k < cs.len() && (#[trigger] cs[k]).user_id == u && cs[k].session_id is Some && t
                    == crate::text::dec_int(cs[k].session_id->0 as int),
    )
}

pub open spec fn sorted_texts(set: Set<Seq<char>>) -> Seq<Seq<char>> {
    choose|s: Seq<Seq<char>>| texts_increasing(s) && s.to_set() == set
}

/// How many of the first `n` contributors are `u`'s.
pub open spec fn count_user(cs: Seq<MixContributor>, u: i64, n: int) -> int
    decreases n,
{
    if n <= 0 {
        0
    } else {
        count_user(cs, u, n - 1) + if cs[n - 1].user_id == u {
            1int
        } else {
            0int
        }
    }
}

pub open spec fn fragment_ids(fs: Seq<AudioFragment>) -> Seq<i64> {
    fs.map_values(|f: AudioFragment| f.id)
}

/// The number of recordings credited to `u`: the anchor's distinct
/// files, plus one per contribution, at most `i32::MAX`.
pub open spec fn user_source_count(
    anchor: Option<(i64, i64)>,
    anchor_fragments: Seq<AudioFragment>,
    cs: Seq<MixContributor>,
    u: i64,
) -> i32 {
    let base: int = match anchor {
        Some(a) => if a.0 == u {
            clamp_count(fragment_ids(anchor_fragments).to_set().len()) as int
        } else {
            0
        },
        None => 0,
    };
    let total = base + count_user(cs, u, cs.len() as int);
    if total <= i32::MAX {
        total as i32
    } else {
        i32::MAX
    }
}

/// The display name the last row about `u` among the first `n` gives.
pub open spec fn last_name(rows: Seq<(i64, Option<String>)>, u: i64, n: int) -> Option<Seq<char>>
    decreases n,
{
    if n <= 0 {
        None
    } else if rows[n - 1].0 == u {
        crate::mix::opt_view(rows[n - 1].1)
    } else {
        last_name(rows, u, n - 1)
    }
}

/// `p` describes user `u` of a mix.
pub open spec fn participant_spec(
    p: ChannelMixParticipant,
    u: i64,
    anchor: Option<(i64, i64)>,
    anchor_fragments: Seq<AudioFragment>,
    cs: Seq<MixContributor>,
    names: Seq<(i64, Option<String>)>,
) -> bool {
    &&& p.user_id@ == crate::text::dec_int(u as int)
    &&& crate::mix::opt_view(p.display_name) == last_name(names, u, names.len() as int)
    &&& id_views(p.session_ids@) == sorted_texts(user_session_texts(anchor, cs, u))
    &&& p.source_count == user_source_count(anchor, anchor_fragments, cs, u)
}

fn dec_text(n: i64) -> (s: String)
    ensures
        s@ == crate::text::dec_int(n as int),
{
    let mut v: Vec<char> = Vec::new();
    crate::text::push_dec_i64(&mut v, n);
    string_of(&v)
}

fn participant_for(
    u: i64,
    anchor: Option<(i64, i64)>,
    anchor_fragments: &[AudioFragment],
    contributors: &[MixContributor],
    names: &[(i64, Option<String>)],
) -> (p: ChannelMixParticipant)
    ensures
        participant_spec(p, u, anchor, anchor_fragments@, contributors@, names@),
{
    // Sessions, as text, in increasing order.
    let mut sessions: Vec<String> = Vec::new();
    let mut base: i32 = 0;
    let ghost base_set = match anchor {
        Some(a) => if a.0 == u {
            set![crate::text::dec_int(a.1 as int)]
        } else {
            Set::<Seq<char>>::empty()
        },
        None => Set::<Seq<char>>::empty(),
    };
    match anchor {
        Some(a) => {
            if a.0 == u {
                insert_distinct_text(&mut sessions, dec_text(a.1));
                let mut ids: Vec<i64> = Vec::new();
                let mut i: usize = 0;
                while i < anchor_fragments.len()
                    invariant
                        i <= anchor_fragments@.len(),
                        ids@ == fragment_ids(anchor_fragments@).take(i as int),
                    decreases anchor_fragments.len() - i,
                {
                    ids.push(anchor_fragments[i].id);
                    assert(ids@ =~= fragment_ids(anchor_fragments@).take(i + 1));
                    i = i + 1;
                }
                assert(ids@ =~= fragment_ids(anchor_fragments@));
                let n = distinct_count(&ids);
                base = if n <= 2147483647 {
                    n as i32
                } else {
                    i32::MAX
                };
            }
        },
        None => {},
    }
    proof {
        assert(id_views(sessions@).to_set() =~= base_set);
    }
    let mut count: i32 = base;
    let mut k: usize = 0;
    while k < contributors.len()
        invariant
            k <= contributors@.len(),
            texts_increasing(id_views(sessions@)),
            base as int == match anchor {
                Some(a) => if a.0 == u {
                    clamp_count(fragment_ids(anchor_fragments@).to_set().len()) as int
                } else {
                    0
                },
                None => 0,
            },
            base >= 0,
            count as int == if base + count_user(contributors@, u, k as int) <= i32::MAX {
                base + count_user(contributors@, u, k as int)
            } else {
                i32::MAX as int
            },
            base_set == match anchor {
                Some(a) => if a.0 == u {
                    set![crate::text::dec_int(a.1 as int)]
                } else {
                    Set::<Seq<char>>::empty()
                },
                None => Set::<Seq<char>>::empty(),
            },
            id_views(sessions@).to_set() == base_set + Set::new(
                |t: Seq<char>|
                    exists|q: int|
                        0 <= q < k && (#[trigger] contributors@[q]).user_id == u && contributors@[q].session_id is Some
                            && t == crate::text::dec_int(contributors@[q].session_id->0 as int),
            ),
        decreases contributors.len() - k,
    {
        let c = &contributors[k];
        let ghost before = id_views(sessions@).to_set();
        if c.user_id == u {
            match c.session_id {
                Some(sid) => {
                    insert_distinct_text(&mut sessions, dec_text(sid));
                },
                None => {},
            }
            if count < i32::MAX {
                count = count + 1;
            }
        }
        proof {
            let next = base_set + Set::new(
                |t: Seq<char>|
                    exists|q: int|
                        0 <= q < k + 1 && (#[trigger] contributors@[q]).user_id == u && contributors@[q].session_id
                            is Some && t == crate::text::dec_int(contributors@[q].session_id->0 as int),
            );
            assert forall|t: Seq<char>| id_views(sessions@).to_set().contains(t) <==> next.contains(t) by {
                if exists|q: int|
                    0 <= q < k + 1 && (#[trigger] contributors@[q]).user_id == u && contributors@[q].session_id is Some
                        && t == crate::text::dec_int(contributors@[q].session_id->0 as int) {
                    let q = choose|q: int|
                        0 <= q < k + 1 && (#[trigger] contributors@[q]).user_id == u && contributors@[q].session_id
                            is Some && t == crate::text::dec_int(contributors@[q].session_id->0 as int);
                    if q < k {
                        assert(before.contains(t));
                    }
                }
            }
            assert(id_views(sessions@).to_set() =~= next);
        }
        k = k + 1;
    }
    proof {
        let set = user_session_texts(anchor, contributors@, u);
        assert(id_views(sessions@).to_set() =~= set);
        lemma_texts_unique(sorted_texts(set), id_views(sessions@));
    }
    // The display name: the last row about `u`.
    let mut display: Option<String> = None;
    let mut r: usize = 0;
    while r < names.len()
        invariant
            r <= names@.len(),
            crate::mix::opt_view(display) == last_name(names@, u, r as int),
        decreases names.len() - r,
    {
        if names[r].0 == u {
            display = crate::mix::clone_opt_text(&names[r].1);
        }
        r = r + 1;
    }
    ChannelMixParticipant { user_id: dec_text(u), display_name: display, session_ids: sessions, source_count: count }
}

/// The participants of a mix, by increasing user id: their display names
/// (from the rows `names`, the last about each user winning), their
/// sessions as text in increasing order, and how many recordings each is
/// credited with.
pub fn participant_entries(
    anchor: Option<(i64, i64)>,
    anchor_fragments: &[AudioFragment],
    contributors: &[MixContributor],
    names: &[(i64, Option<String>)],
) -> (r: Vec<ChannelMixParticipant>)
    ensures
        r@.len() == sorted_users(anchor, contributors@).len(),
        forall|k: int|
            0 <= k < r@.len() ==> participant_spec(
                #[trigger] r@[k],
                sorted_users(anchor, contributors@)[k],
                anchor,
                anchor_fragments@,
                contributors@,
                names@,
            ),
{
    let users = users_in_order(anchor, contributors);
    let mut out: Vec<ChannelMixParticipant> = Vec::new();
    let mut i: usize = 0;
    while i < users.len()
        invariant
            i <= users@.len(),
            users@ == sorted_users(anchor, contributors@),
            out@.len() == i,
            forall|k: int|
                0 <= k < i ==> participant_spec(
                    #[trigger] out@[k],
                    users@[k],
                    anchor,
                    anchor_fragments@,
                    contributors@,
                    names@,
                ),
        decreases users.len() - i,
    {
        let p = participant_for(users[i], anchor, anchor_fragments, contributors, names);
        out.push(p);
        i = i + 1;
    }
    out
}

/// The earliest start among the first `n` windows.
pub open spec fn min_start(ws: Seq<MixWindow>, n: int) -> i64
    decreases n,
{
    if n <= 1 {
        ws[0].start_ms
    } else {
        crate::mix::min_i64(min_start(ws, n - 1), ws[n - 1].start_ms)
    }
}

/// The latest end among the first `n` windows.
pub open spec fn max_end(ws: Seq<MixWindow>, n: int) -> i64
    decreases n,
{
    if n <= 1 {
        ws[0].end_ms
    } else {
        crate::mix::max_i64(max_end(ws, n - 1), ws[n - 1].end_ms)
    }
}

/// The timeline a mix spans: the selected session's own, or for all
/// recordings from the earliest window start to the latest window end
/// (the session's bounds when there is no window).
pub open spec fn mix_timeline_spec(
    scope: ChannelMixScope,
    access: SessionAccess,
    windows: Seq<MixWindow>,
    selected_end_ms: i64,
) -> (i64, i64) {
    match scope {
        ChannelMixScope::SelectedSession => (access.started_at_ms, selected_end_ms),
        ChannelMixScope::AllRecordings => if windows.len() == 0 {
            (access.started_at_ms, selected_end_ms)
        } else {
            (min_start(windows, windows.len() as int), max_end(windows, windows.len() as int))
        },
    }
}

/// The start and end of a mix's timeline.
pub fn mix_timeline(
    scope: ChannelMixScope,
    access: &SessionAccess,
    windows: &[MixWindow],
    selected_end_ms: i64,
) -> (r: (i64, i64))
    ensures
        r == mix_timeline_spec(scope, *access, windows@, selected_end_ms),
{
    match scope {
        ChannelMixScope::SelectedSession => (access.started_at_ms, selected_end_ms),
        ChannelMixScope::AllRecordings => {
            if windows.len() == 0 {
                return (access.started_at_ms, selected_end_ms);
            }
            let mut lo = windows[0].start_ms;
            let mut hi = windows[0].end_ms;
            let mut i: usize = 1;
            while i < windows.len()
                invariant
                    1 <= i <= windows@.len(),
                    lo == min_start(windows@, i as int),
                    hi == max_end(windows@, i as int),
                decreases windows.len() - i,
            {
                lo = crate::mix::min_of(lo, windows[i].start_ms);
                hi = crate::mix::max_of(hi, windows[i].end_ms);
                i = i + 1;
            }
            (lo, hi)
        },
    }
}

/// The people a mix credits, in increasing id order: whose display names
/// the server looks up.
pub fn mix_participant_users(anchor: Option<(i64, i64)>, contributors: &[MixContributor]) -> (r: Vec<i64>)
    ensures
        r@ == sorted_users(anchor, contributors@),
{
    users_in_order(anchor, contributors)
}

impl<G> MixPlan<G> {
    /// Sets the render fingerprint from the settings' JSON text.
    pub fn set_fingerprint(&mut self, settings_json: &str)
        ensures
            final(self).fingerprint@ == mix_fingerprint_spec(old(self).source_fingerprint@, settings_json@),
            final(self).source_fingerprint == old(self).source_fingerprint,
            final(self).session_id == old(self).session_id,
            final(self).scope == old(self).scope,
            final(self).duration_ms == old(self).duration_ms,
            final(self).contributors == old(self).contributors,
            final(self).sources == old(self).sources,
            final(self).participants == old(self).participants,
            final(self).tracks == old(self).tracks,
            final(self).cache_dir == old(self).cache_dir,
            final(self).settings == old(self).settings,
    {
        self.fingerprint = mix_fingerprint(self.source_fingerprint.as_str(), settings_json);
    }
}

/// What the server has gathered for a mix plan: the session's fragments on
/// its timeline, the mix windows, the candidate recordings (already
/// authorized), the participants' name rows, and the cache directory.
pub struct MixPlanInputs {
    pub selected_fragments: Vec<AudioFragment>,
    pub windows: Vec<MixWindow>,
    pub timeline_start_ms: i64,
    pub timeline_end_ms: i64,
    pub candidates: Vec<CandidateRow>,
    pub names: Vec<(i64, Option<String>)>,
    pub cache_dir: String,
}

/// The anchor of a selected-session mix: its owner and session.
pub open spec fn anchor_of(scope: ChannelMixScope, access: SessionAccess) -> Option<(i64, i64)> {
    match scope {
        ChannelMixScope::SelectedSession => Some((access.user_id, access.session_id)),
        ChannelMixScope::AllRecordings => None,
    }
}

/// The fragments anchoring a selected-session mix (none for all
/// recordings).
pub open spec fn anchor_fragments_of(scope: ChannelMixScope, selected: Seq<AudioFragment>) -> Seq<AudioFragment> {
    match scope {
        ChannelMixScope::SelectedSession => selected,
        ChannelMixScope::AllRecordings => Seq::empty(),
    }
}

/// Assembles a mix plan from what the server gathered: contributors,
/// sources, participants, lanes, the source fingerprint and the default
/// settings at `zero` gain. The render fingerprint is set afterwards with
/// `set_fingerprint`, once the settings' JSON text is known; until then
/// it is empty.
#[verifier::rlimit(40)]
pub fn assemble_mix_plan<G: Copy>(
    access: &SessionAccess,
    scope: ChannelMixScope,
    inputs: MixPlanInputs,
    zero: G,
) -> (p: MixPlan<G>)
    ensures
        p.session_id == access.session_id,
        p.scope == scope,
        p.duration_ms == crate::text::clamp_i64(inputs.timeline_end_ms - inputs.timeline_start_ms),
        contributors_of(
            p.contributors@,
            kept(inputs.candidates@, |c: CandidateRow| contributes(c, scope, access.session_id)),
        ),
        ({
            let anchor_fragments = anchor_fragments_of(scope, inputs.selected_fragments@);
            let pieces = mix_pieces(scope, anchor_fragments, access.user_id, p.contributors@, inputs.candidates@);
            sources_match(
                p.sources@,
                placed_sources(pieces, inputs.windows@, inputs.timeline_end_ms, pieces.len() as int),
                inputs.timeline_start_ms,
                inputs.timeline_end_ms,
            )
        }),
        p.participants@.len() == sorted_users(anchor_of(scope, *access), p.contributors@).len(),
        forall|k: int|
            0 <= k < p.participants@.len() ==> participant_spec(
                #[trigger] p.participants@[k],
                sorted_users(anchor_of(scope, *access), p.contributors@)[k],
                anchor_of(scope, *access),
                anchor_fragments_of(scope, inputs.selected_fragments@),
                p.contributors@,
                inputs.names@,
            ),
        p.tracks@.len() == crate::mix::parseable_count(p.participants@, p.participants@.len() as int),
        forall|a: int, b: int|
            0 <= a < b < p.tracks@.len() ==> crate::mix::track_le(#[trigger] p.tracks@[a], #[trigger] p.tracks@[b]),
        forall|j: int|
            0 <= j < p.participants@.len() && (crate::text::parse_i64_spec(#[trigger] p.participants@[j].user_id@)
                is Some) ==> exists|k: int|
                0 <= k < p.tracks@.len() && crate::mix::track_matches(
                    #[trigger] p.tracks@[k],
                    p.participants@[j],
                    crate::text::parse_i64_spec(p.participants@[j].user_id@)->0,
                    match scope {
                        ChannelMixScope::SelectedSession => Some(access.user_id),
                        ChannelMixScope::AllRecordings => None,
                    },
                    p.sources@,
                    inputs.timeline_start_ms,
                ),
        p.cache_dir == inputs.cache_dir,
        p.source_fingerprint@ == fingerprint_header(
            *access,
            scope,
            inputs.timeline_start_ms,
            crate::text::clamp_i64(inputs.timeline_end_ms - inputs.timeline_start_ms),
        ) + joined_tail(
            fingerprint_lines(
                inputs.windows@,
                anchor_fragments_of(scope, inputs.selected_fragments@),
                p.contributors@,
            ),
        ),
        settings_view(p.settings.participants@) == default_settings_spec(p.tracks@, zero),
        p.settings.source_fingerprint is None,
        p.fingerprint@.len() == 0,
{
    let MixPlanInputs { selected_fragments, windows, timeline_start_ms, timeline_end_ms, candidates, names, cache_dir } =
        inputs;
    let contributors = mix_contributors(&candidates, scope, access);
    let duration_ms = crate::text::sat_sub(timeline_end_ms, timeline_start_ms);
    let anchor_fragments: Vec<AudioFragment> = match scope {
        ChannelMixScope::SelectedSession => selected_fragments,
        ChannelMixScope::AllRecordings => Vec::new(),
    };
    let sources = plan_sources(
        scope,
        &windows,
        &anchor_fragments,
        access.user_id,
        &contributors,
        &candidates,
        timeline_start_ms,
        timeline_end_ms,
    );
    let anchor = match scope {
        ChannelMixScope::SelectedSession => Some((access.user_id, access.session_id)),
        ChannelMixScope::AllRecordings => None,
    };
    let participants = participant_entries(anchor, &anchor_fragments, &contributors, &names);
    let anchor_user = match scope {
        ChannelMixScope::SelectedSession => Some(access.user_id),
        ChannelMixScope::AllRecordings => None,
    };
    let tracks = crate::mix::build_tracks(&participants, &sources, anchor_user, timeline_start_ms);
    let source_fingerprint = mix_source_fingerprint(
        access,
        scope,
        timeline_start_ms,
        duration_ms,
        &windows,
        &anchor_fragments,
        &contributors,
    );
    let settings = default_generation_settings(&tracks, zero);
    MixPlan {
        session_id: access.session_id,
        scope,
        duration_ms,
        contributors,
        sources,
        participants,
        tracks,
        cache_dir,
        source_fingerprint,
        fingerprint: String::new(),
        settings,
    }
}

/// The proleptic Gregorian year and month (1 to 12) of the UTC day that
/// holds `ms` milliseconds since the epoch (days counted from 1 March of
/// year 0, in 400-year eras).
pub open spec fn civil_year_month(ms: i64) -> (int, int) {
    let days = (ms as int) / 86_400_000;
    let z = days + 719_468;
    let era = z / 146_097;
    let doe = z - era * 146_097;
    let yoe = (doe - doe / 1_460 + doe / 36_524 - doe / 146_096) / 365;
    let doy = doe - (365 * yoe + yoe / 4 - yoe / 100);
    let mp = (5 * doy + 2) / 153;
    let m = if mp < 10 {
        mp + 3
    } else {
        mp - 9
    };
    (yoe + era * 400 + (if m <= 2 {
        1int
    } else {
        0int
    }), m)
}

/// The UTC calendar year and month of a time in milliseconds since the
/// epoch, as chrono gives them: `None` outside chrono's years
/// -262143..=262142.
pub open spec fn utc_year_month(ms: i64) -> Option<(i32, u32)> {
    let (y, m) = civil_year_month(ms);
    if -262_143 <= y <= 262_142 {
        Some((y as i32, m as u32))
    } else {
        None
    }
}

/// `chrono::DateTime::<Utc>::from_timestamp_millis(ms)` and its `year()`
/// and `month()`: chrono counts whole days by Euclidean division and maps
/// them onto the proleptic Gregorian calendar, refusing years outside its
/// range, which `utc_year_month` spells out; its months run from 1 to 12.
#[verifier::external_body]
fn year_month_of(ms: i64) -> (r: Option<(i32, u32)>)
    ensures
        r == utc_year_month(ms),
        r matches Some(ym) ==> 1 <= ym.1 <= 12,
{
    match chrono::DateTime::<chrono::Utc>::from_timestamp_millis(ms) {
        Some(d) => Some((chrono::Datelike::year(&d), chrono::Datelike::month(&d))),
        None => None,
    }
}

/// The year and month of `chrono::Utc::now()`. It depends on the clock,
/// so only the month's range (1 to 12, as chrono documents) is stated.
#[verifier::external_body]
pub(crate) fn current_year_month() -> (r: (i32, u32))
    ensures
        1 <= r.1 <= 12,
{
    let d = chrono::Utc::now();
    (chrono::Datelike::year(&d), chrono::Datelike::month(&d))
}

/// Where a session's mixes are cached: its guild, the channel, year and
/// month of its first fragment (of its start, when it has none), and its
/// start time.
#[derive(Clone, Copy, Debug, PartialEq, Eq, Structural)]
pub struct MixCacheKey {
    pub guild_id: i64,
    pub channel_id: i64,
    pub year: i32,
    pub month: u32,
    pub started_at_ms: i64,
}

/// The cache key of a session's mixes. With no fragment, the date of the
/// session's start is used, or today's when chrono cannot represent it.
pub fn mix_cache_key(access: &SessionAccess, anchor_fragments: &[AudioFragment]) -> (k: MixCacheKey)
    ensures
        k.guild_id == access.guild_id,
        k.started_at_ms == access.started_at_ms,
        anchor_fragments@.len() > 0 ==> k.channel_id == anchor_fragments@[0].channel_id && k.year
            == anchor_fragments@[0].year && k.month == anchor_fragments@[0].month as u32,
        anchor_fragments@.len() == 0 ==> k.channel_id == access.starting_channel_id && match utc_year_month(
            access.started_at_ms,
        ) {
            Some(ym) => k.year == ym.0 && k.month == ym.1,
            None => 1 <= k.month <= 12,
        },
{
    if anchor_fragments.len() > 0 {
        let f = &anchor_fragments[0];
        MixCacheKey {
            guild_id: access.guild_id,
            channel_id: f.channel_id,
            year: f.year,
            month: f.month as u32,
            started_at_ms: access.started_at_ms,
        }
    } else {
        let (year, month) = match year_month_of(access.started_at_ms) {
            Some(ym) => ym,
            None => current_year_month(),
        };
        MixCacheKey {
            guild_id: access.guild_id,
            channel_id: access.starting_channel_id,
            year,
            month,
            started_at_ms: access.started_at_ms,
        }
    }
}

/// The status document of a mix: the state of its render, with the plan's
/// scope, length, participants, lanes and file count, and whether the
/// caller may ask for a render.
#[derive(Debug)]
pub struct ChannelMixResponse<G> {
    pub scope: ChannelMixScope,
    pub status: ChannelMixStatus,
    pub reason: Option<ChannelMixReason>,
    pub progress: i16,
    pub duration_ms: i64,
    pub participants: Vec<ChannelMixParticipant>,
    pub source_count: i32,
    pub media_url: Option<String>,
    pub can_generate: bool,
    pub tracks: Vec<ChannelMixTrack>,
    pub generation_settings: Option<ChannelMixGenerationSettings<G>>,
}

/// The document that carries `parts` for `plan`.
pub open spec fn response_of<G>(
    r: ChannelMixResponse<G>,
    plan: MixPlan<G>,
    access: SessionAccess,
    parts: MixStatusParts<G>,
) -> bool {
    &&& r.scope == plan.scope
    &&& r.status == parts.status
    &&& r.reason == parts.reason
    &&& r.progress == parts.progress
    &&& r.media_url == parts.media_url
    &&& r.generation_settings == parts.generation_settings
    &&& r.duration_ms == plan.duration_ms
    &&& r.participants == plan.participants
    &&& r.tracks == plan.tracks
    &&& r.source_count == clamp_count(file_ids(plan.sources@).to_set().len())
    &&& r.can_generate == (blocking_spec(plan, access) is None && plan.sources@.len() > 0)
}

/// The status document of `plan` in the state `parts`.
pub fn mix_response<G>(plan: MixPlan<G>, access: &SessionAccess, parts: MixStatusParts<G>) -> (r: ChannelMixResponse<G>)
    ensures
        response_of(r, plan, *access, parts),
{
    let source_count = plan.source_count();
    let can_generate = plan.can_generate(access);
    ChannelMixResponse {
        scope: plan.scope,
        status: parts.status,
        reason: parts.reason,
        progress: parts.progress,
        duration_ms: plan.duration_ms,
        participants: plan.participants,
        source_count,
        media_url: parts.media_url,
        can_generate,
        tracks: plan.tracks,
        generation_settings: parts.generation_settings,
    }
}

/// The status document of a mix, given the render the job container holds
/// for it and the cache metadata on disk: its state is `mix_status`'s.
pub fn channel_mix_response<G: Copy>(
    plan: MixPlan<G>,
    access: &SessionAccess,
    job: Option<&MixJobView<G>>,
    cache: Option<&MixCacheMetadata<G>>,
    include_existing: bool,
) -> (r: ChannelMixResponse<G>)
    ensures
        (r.status, reason_view(r.reason), r.progress, opt_text(r.media_url), opt_settings_view(r.generation_settings))
            == mix_status_spec(
            plan,
            *access,
            match job {
                Some(j) => Some(*j),
                None => None,
            },
            match cache {
                Some(c) => Some(*c),
                None => None,
            },
            include_existing,
        ),
        r.scope == plan.scope,
        r.duration_ms == plan.duration_ms,
        r.participants == plan.participants,
        r.tracks == plan.tracks,
        r.source_count == clamp_count(file_ids(plan.sources@).to_set().len()),
        r.can_generate == (blocking_spec(plan, *access) is None && plan.sources@.len() > 0),
        r.generation_settings matches Some(g) ==> g.source_fingerprint is Some,
{
    let parts = mix_status(&plan, access, job, cache, include_existing);
    mix_response(plan, access, parts)
}

/// A mix is offered for playback exactly when it is ready, complete, at
/// its media route.
pub proof fn law_ready_mix_has_media<G>(
    plan: MixPlan<G>,
    access: SessionAccess,
    job: Option<MixJobView<G>>,
    cache: Option<MixCacheMetadata<G>>,
    include_existing: bool,
)
    ensures
        ({
            let v = mix_status_spec(plan, access, job, cache, include_existing);
            &&& (v.3 is Some <==> v.0 == ChannelMixStatus::Ready)
            &&& v.0 == ChannelMixStatus::Ready ==> v.2 == 100 && v.3 == Some(
                media_url_spec(plan.session_id, plan.scope),
            )
        }),
{
}

/// The cache metadata that may be trusted: the output, fingerprint and
/// settings files are all there, and the settings name the fingerprint the
/// fingerprint file holds.
pub fn trusted_cache_metadata<G>(
    files_present: bool,
    fingerprint_text: Option<&str>,
    metadata: Option<MixCacheMetadata<G>>,
) -> (r: Option<MixCacheMetadata<G>>)
    ensures
        r == (if files_present && fingerprint_text is Some && metadata is Some && metadata->0.fingerprint@
            == fingerprint_text->0@ {
            metadata
        } else {
            None::<MixCacheMetadata<G>>
        }),
{
    if !files_present {
        return None;
    }
    match (fingerprint_text, metadata) {
        (Some(text), Some(m)) => if chars_equal(&chars_of(m.fingerprint.as_str()), &chars_of(text)) {
            Some(m)
        } else {
            None
        },
        _ => None,
    }
}

} // verus!
