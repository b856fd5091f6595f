//! The logical timeline of a recording session: its audio fragments and
//! recorded gaps laid end to end, with silence filling every stretch that
//! nothing covers, and the slice of it that a download selects.

use vstd::prelude::*;
use crate::errors::AppError;
use crate::session::{AudioFragment, Gap};

verus! {

/// What plays during a part of the timeline: a stretch of fragment
/// `fragment` (whose audio starts at `source_start_ms`), or silence.
#[derive(Clone, Copy, Debug, PartialEq, Eq, Structural)]
pub enum PartKind {
    Audio { fragment: usize, source_start_ms: i64 },
    Silence,
}

/// A nonempty half-open stretch `[start_ms, end_ms)` of the timeline.
#[derive(Clone, Copy, Debug, PartialEq, Eq, Structural)]
pub struct TimelinePart {
    pub start_ms: i64,
    pub end_ms: i64,
    pub kind: PartKind,
}

pub open spec fn min_i64(a: i64, b: i64) -> i64 {
    if a <= b {
        a
    } else {
        b
    }
}

pub open spec fn max_i64(a: i64, b: i64) -> i64 {
    if a >= b {
        a
    } else {
        b
    }
}

fn min_of(a: i64, b: i64) -> (r: i64)
    ensures
        r == min_i64(a, b),
{
    if a <= b {
        a
    } else {
        b
    }
}

fn max_of(a: i64, b: i64) -> (r: i64)
    ensures
        r == max_i64(a, b),
{
    if a >= b {
        a
    } else {
        b
    }
}

/// The audio parts of the first `n` fragments: each fragment clipped to the
/// timeline end (an open fragment runs to it), when that leaves anything.
pub open spec fn fragment_parts(fragments: Seq<AudioFragment>, timeline_end_ms: i64, n: int) -> Seq<
    TimelinePart,
>
    decreases n,
{
    if n <= 0 {
        Seq::empty()
    } else {
        let prev = fragment_parts(fragments, timeline_end_ms, n - 1);
        let f = fragments[n - 1];
        let end = min_i64(
            match f.end_ms {
                Some(e) => e,
                None => timeline_end_ms,
            },
            timeline_end_ms,
        );
        if end > f.start_ms {
            prev.push(
                TimelinePart {
                    start_ms: f.start_ms,
                    end_ms: end,
                    kind: PartKind::Audio { fragment: (n - 1) as usize, source_start_ms: f.start_ms },
                },
            )
        } else {
            prev
        }
    }
}

/// The silent parts of the first `n` recorded gaps that are nonempty.
pub open spec fn gap_parts(gaps: Seq<Gap>, n: int) -> Seq<TimelinePart>
    decreases n,
{
    if n <= 0 {
        Seq::empty()
    } else {
        let prev = gap_parts(gaps, n - 1);
        if gaps[n - 1].end_ms > gaps[n - 1].start_ms {
            prev.push(
                TimelinePart {
                    start_ms: gaps[n - 1].start_ms,
                    end_ms: gaps[n - 1].end_ms,
                    kind: PartKind::Silence,
                },
            )
        } else {
            prev
        }
    }
}

/// Every candidate part: fragments first, then gaps, each in given order.
pub open spec fn raw_parts(fragments: Seq<AudioFragment>, gaps: Seq<Gap>, timeline_end_ms: i64) -> Seq<
    TimelinePart,
> {
    fragment_parts(fragments, timeline_end_ms, fragments.len() as int) + gap_parts(
        gaps,
        gaps.len() as int,
    )
}

/// Order of candidates: by start, then end, then position (so the sort is
/// stable).
pub open spec fn part_lt(raw: Seq<TimelinePart>, a: usize, b: usize) -> bool {
    raw[a as int].start_ms < raw[b as int].start_ms || (raw[a as int].start_ms
        == raw[b as int].start_ms && (raw[a as int].end_ms < raw[b as int].end_ms || (
    raw[a as int].end_ms == raw[b as int].end_ms && a < b)))
}

/// `order` lists every candidate position once, sorted.
pub open spec fn is_sorted_order(raw: Seq<TimelinePart>, order: Seq<usize>) -> bool {
    &&& order.to_multiset() == Seq::new(raw.len(), |i: int| i as usize).to_multiset()
    &&& forall|a: int, b: int|
        0 <= a < b < order.len() ==> part_lt(raw, #[trigger] order[a], #[trigger] order[b])
}

/// The sweep state: how far the timeline is complete, and what it holds.
pub struct Sweep {
    pub cursor: i64,
    pub parts: Seq<TimelinePart>,
}

/// One candidate swept in: a candidate that ends by the cursor or starts at
/// or after the timeline end is dropped; otherwise silence fills any hole
/// before it, and its uncovered part (clipped to the timeline end) follows.
pub open spec fn sweep_step(st: Sweep, part: TimelinePart, timeline_end_ms: i64) -> Sweep {
    if part.end_ms <= st.cursor || part.start_ms >= timeline_end_ms {
        st
    } else {
        let filled = if part.start_ms > st.cursor {
            st.parts.push(
                TimelinePart {
                    start_ms: st.cursor,
                    end_ms: min_i64(part.start_ms, timeline_end_ms),
                    kind: PartKind::Silence,
                },
            )
        } else {
            st.parts
        };
        let s = max_i64(part.start_ms, st.cursor);
        let e = min_i64(part.end_ms, timeline_end_ms);
        if e > s {
            Sweep {
                cursor: e,
                parts: filled.push(TimelinePart { start_ms: s, end_ms: e, kind: part.kind }),
            }
        } else {
            Sweep { cursor: st.cursor, parts: filled }
        }
    }
}

pub open spec fn sweep_after(
    raw: Seq<TimelinePart>,
    order: Seq<usize>,
    started_at_ms: i64,
    timeline_end_ms: i64,
    n: int,
) -> Sweep
    decreases n,
{
    if n <= 0 {
        Sweep { cursor: started_at_ms, parts: Seq::empty() }
    } else {
        sweep_step(
            sweep_after(raw, order, started_at_ms, timeline_end_ms, n - 1),
            raw[order[n - 1] as int],
            timeline_end_ms,
        )
    }
}

/// The complete timeline: the sweep over the sorted candidates, with
/// silence to the timeline end.
pub open spec fn complete_timeline(
    raw: Seq<TimelinePart>,
    order: Seq<usize>,
    started_at_ms: i64,
    timeline_end_ms: i64,
) -> Seq<TimelinePart> {
    let st = sweep_after(raw, order, started_at_ms, timeline_end_ms, order.len() as int);
    if st.cursor < timeline_end_ms {
        st.parts.push(
            TimelinePart { start_ms: st.cursor, end_ms: timeline_end_ms, kind: PartKind::Silence },
        )
    } else {
        st.parts
    }
}

/// The parts lie end to end, each nonempty, from `a` to `b`.
pub open spec fn tiles(parts: Seq<TimelinePart>, a: int, b: int) -> bool {
    &&& (parts.len() == 0 ==> a == b)
    &&& (parts.len() > 0 ==> parts[0].start_ms == a && parts[parts.len() - 1].end_ms == b)
    &&& forall|k: int| 0 <= k < parts.len() ==> #[trigger] parts[k].start_ms < parts[k].end_ms
    &&& forall|k: int|
        0 <= k < parts.len() - 1 ==> #[trigger] parts[k].end_ms == parts[k + 1].start_ms
}

fn push_part(out: &mut Vec<TimelinePart>, p: TimelinePart)
    ensures
        final(out)@ == old(out)@.push(p),
{
    out.push(p);
}

fn starts_no_later(a: &TimelinePart, b: &TimelinePart) -> (r: bool)
    ensures
        r == (a.start_ms < b.start_ms || (a.start_ms == b.start_ms && a.end_ms <= b.end_ms)),
{
    a.start_ms < b.start_ms || (a.start_ms == b.start_ms && a.end_ms <= b.end_ms)
}

fn sort_parts(raw: &Vec<TimelinePart>) -> (order: Vec<usize>)
    ensures
        is_sorted_order(raw@, order@),
        forall|k: int| 0 <= k < order@.len() ==> #[trigger] order@[k] < raw@.len(),
{
    broadcast use vstd::seq_lib::group_to_multiset_ensures;

    let ghost all = Seq::new(raw@.len(), |i: int| i as usize);
    let mut order: Vec<usize> = Vec::new();
    let mut k: usize = 0;
    while k < raw.len()
        invariant
            k <= raw@.len(),
            all == Seq::new(raw@.len(), |i: int| i as usize),
            order@.to_multiset() == all.take(k as int).to_multiset(),
            forall|a: int, b: int|
                0 <= a < b < order@.len() ==> part_lt(raw@, #[trigger] order@[a], #[trigger] order@[b]),
            forall|q: int| 0 <= q < order@.len() ==> #[trigger] order@[q] < k,
        decreases raw.len() - k,
    {
        let mut p: usize = 0;
        while p < order.len() && starts_no_later(&raw[order[p]], &raw[k])
            invariant
                p <= order@.len(),
                k < raw@.len(),
                forall|q: int| 0 <= q < order@.len() ==> #[trigger] order@[q] < k,
                forall|q: int| 0 <= q < p ==> part_lt(raw@, #[trigger] order@[q], k),
            decreases order.len() - p,
        {
            p = p + 1;
        }
        let ghost old_order = order@;
        order.insert(p, k);
        proof {
            vstd::seq_lib::to_multiset_insert(old_order, p as int, k);
            assert(all.take(k + 1) =~= all.take(k as int).push(k));
            vstd::seq_lib::to_multiset_build(all.take(k as int), k);
            assert forall|a: int, b: int| 0 <= a < b < order@.len() implies part_lt(
                raw@,
                #[trigger] order@[a],
                #[trigger] order@[b],
            ) by {
                if b < p {
                    assert(order@[a] == old_order[a] && order@[b] == old_order[b]);
                } else if b == p {
                    assert(order@[a] == old_order[a]);
                } else if a == p {
                    assert(order@[b] == old_order[b - 1]);
                    assert(!part_lt(raw@, old_order[p as int], k) || old_order[p as int] >= k);
                    if b - 1 > p {
                        assert(part_lt(raw@, old_order[p as int], old_order[b - 1]));
                    }
                } else if a < p {
                    assert(order@[a] == old_order[a] && order@[b] == old_order[b - 1]);
                } else {
                    assert(order@[a] == old_order[a - 1] && order@[b] == old_order[b - 1]);
                }
            }
            assert forall|q: int| 0 <= q < order@.len() implies #[trigger] order@[q] < k + 1 by {
                if q < p {
                    assert(order@[q] == old_order[q]);
                } else if q > p {
                    assert(order@[q] == old_order[q - 1]);
                }
            }
        }
        k = k + 1;
    }
    proof {
        assert(all.take(raw@.len() as int) =~= all);
    }
    order
}

/// The candidate parts of a session: clipped fragments, then gaps.
pub fn collect_raw_parts(fragments: &[AudioFragment], gaps: &[Gap], timeline_end_ms: i64) -> (raw: Vec<
    TimelinePart,
>)
    ensures
        raw@ == raw_parts(fragments@, gaps@, timeline_end_ms),
        forall|i: int|
            0 <= i < fragments@.len() && clipped_end(fragments@[i], timeline_end_ms) > fragments@[i].start_ms
                ==> exists|k: int|
                0 <= k < raw@.len() && #[trigger] raw@[k] == audio_candidate(fragments@[i], i, timeline_end_ms),
{
    proof {
        law_fragments_become_audio(fragments@, gaps@, timeline_end_ms);
    }
    let mut raw: Vec<TimelinePart> = Vec::new();
    let mut i: usize = 0;
    while i < fragments.len()
        invariant
            i <= fragments@.len(),
            raw@ == fragment_parts(fragments@, timeline_end_ms, i as int),
        decreases fragments.len() - i,
    {
        let f = &fragments[i];
        let end = min_of(
            match f.end_ms {
                Some(e) => e,
                None => timeline_end_ms,
            },
            timeline_end_ms,
        );
        if end > f.start_ms {
            push_part(
                &mut raw,
                TimelinePart {
                    start_ms: f.start_ms,
                    end_ms: end,
                    kind: PartKind::Audio { fragment: i, source_start_ms: f.start_ms },
                },
            );
        }
        i = i + 1;
    }
    let ghost audio = raw@;
    let mut j: usize = 0;
    while j < gaps.len()
        invariant
            j <= gaps@.len(),
            audio == fragment_parts(fragments@, timeline_end_ms, fragments@.len() as int),
            raw@ == audio + gap_parts(gaps@, j as int),
        decreases gaps.len() - j,
    {
        let g = &gaps[j];
        if g.end_ms > g.start_ms {
            push_part(
                &mut raw,
                TimelinePart { start_ms: g.start_ms, end_ms: g.end_ms, kind: PartKind::Silence },
            );
            assert(raw@ =~= audio + gap_parts(gaps@, j + 1));
        }
        j = j + 1;
    }
    raw
}

proof fn lemma_sweep_tiles(
    raw: Seq<TimelinePart>,
    order: Seq<usize>,
    started_at_ms: i64,
    timeline_end_ms: i64,
    n: int,
)
    requires
        0 <= n <= order.len(),
        started_at_ms <= timeline_end_ms,
        forall|k: int| 0 <= k < order.len() ==> #[trigger] order[k] < raw.len(),
        forall|k: int| 0 <= k < raw.len() ==> #[trigger] raw[k].start_ms < raw[k].end_ms,
    ensures
        started_at_ms <= sweep_after(raw, order, started_at_ms, timeline_end_ms, n).cursor
            <= timeline_end_ms,
        tiles(
            sweep_after(raw, order, started_at_ms, timeline_end_ms, n).parts,
            started_at_ms as int,
            sweep_after(raw, order, started_at_ms, timeline_end_ms, n).cursor as int,
        ),
    decreases n,
{
    if n > 0 {
        lemma_sweep_tiles(raw, order, started_at_ms, timeline_end_ms, n - 1);
        let st = sweep_after(raw, order, started_at_ms, timeline_end_ms, n - 1);
        let part = raw[order[n - 1] as int];
        assert(part.start_ms < part.end_ms);
        let nst = sweep_after(raw, order, started_at_ms, timeline_end_ms, n);
        if !(part.end_ms <= st.cursor || part.start_ms >= timeline_end_ms) {
            let filled = if part.start_ms > st.cursor {
                st.parts.push(
                    TimelinePart {
                        start_ms: st.cursor,
                        end_ms: min_i64(part.start_ms, timeline_end_ms),
                        kind: PartKind::Silence,
                    },
                )
            } else {
                st.parts
            };
            let fill_end: i64 = if part.start_ms > st.cursor {
                part.start_ms
            } else {
                st.cursor
            };
            assert(tiles(filled, started_at_ms as int, fill_end as int)) by {
                if part.start_ms > st.cursor {
                    assert forall|k: int| 0 <= k < filled.len() - 1 implies #[trigger] filled[k].end_ms
                        == filled[k + 1].start_ms by {
                        if k < st.parts.len() - 1 {
                            assert(filled[k] == st.parts[k] && filled[k + 1] == st.parts[k + 1]);
                        }
                    }
                    assert forall|k: int| 0 <= k < filled.len() implies #[trigger] filled[k].start_ms
                        < filled[k].end_ms by {
                        if k < st.parts.len() {
                            assert(filled[k] == st.parts[k]);
                        }
                    }
                }
            }
            let s = max_i64(part.start_ms, st.cursor);
            let e = min_i64(part.end_ms, timeline_end_ms);
            if e > s {
                let np = filled.push(TimelinePart { start_ms: s, end_ms: e, kind: part.kind });
                assert(np == nst.parts);
                assert forall|k: int| 0 <= k < np.len() - 1 implies #[trigger] np[k].end_ms
                    == np[k + 1].start_ms by {
                    if k < filled.len() - 1 {
                        assert(np[k] == filled[k] && np[k + 1] == filled[k + 1]);
                    }
                }
                assert forall|k: int| 0 <= k < np.len() implies #[trigger] np[k].start_ms
                    < np[k].end_ms by {
                    if k < filled.len() {
                        assert(np[k] == filled[k]);
                    }
                }
            }
        }
    }
}

proof fn lemma_fragment_parts_nonempty(fragments: Seq<AudioFragment>, timeline_end_ms: i64, n: int)
    ensures
        forall|k: int|
            0 <= k < fragment_parts(fragments, timeline_end_ms, n).len() ==> #[trigger] fragment_parts(
                fragments,
                timeline_end_ms,
                n,
            )[k].start_ms < fragment_parts(fragments, timeline_end_ms, n)[k].end_ms,
    decreases n,
{
    if n > 0 {
        lemma_fragment_parts_nonempty(fragments, timeline_end_ms, n - 1);
        let prev = fragment_parts(fragments, timeline_end_ms, n - 1);
        let cur = fragment_parts(fragments, timeline_end_ms, n);
        assert forall|k: int| 0 <= k < cur.len() implies #[trigger] cur[k].start_ms < cur[k].end_ms by {
            if k < prev.len() {
                assert(cur[k] == prev[k]);
            }
        }
    }
}

proof fn lemma_gap_parts_nonempty(gaps: Seq<Gap>, n: int)
    ensures
        forall|k: int|
            0 <= k < gap_parts(gaps, n).len() ==> #[trigger] gap_parts(gaps, n)[k].start_ms
                < gap_parts(gaps, n)[k].end_ms,
    decreases n,
{
    if n > 0 {
        lemma_gap_parts_nonempty(gaps, n - 1);
        let prev = gap_parts(gaps, n - 1);
        let cur = gap_parts(gaps, n);
        assert forall|k: int| 0 <= k < cur.len() implies #[trigger] cur[k].start_ms < cur[k].end_ms by {
            if k < prev.len() {
                assert(cur[k] == prev[k]);
            }
        }
    }
}

/// Every candidate part is nonempty.
pub proof fn lemma_raw_parts_nonempty(fragments: Seq<AudioFragment>, gaps: Seq<Gap>, timeline_end_ms: i64)
    ensures
        forall|k: int|
            0 <= k < raw_parts(fragments, gaps, timeline_end_ms).len() ==> #[trigger] raw_parts(
                fragments,
                gaps,
                timeline_end_ms,
            )[k].start_ms < raw_parts(fragments, gaps, timeline_end_ms)[k].end_ms,
{
    lemma_fragment_parts_nonempty(fragments, timeline_end_ms, fragments.len() as int);
    lemma_gap_parts_nonempty(gaps, gaps.len() as int);
    let a = fragment_parts(fragments, timeline_end_ms, fragments.len() as int);
    let b = gap_parts(gaps, gaps.len() as int);
    let r = raw_parts(fragments, gaps, timeline_end_ms);
    assert forall|k: int| 0 <= k < r.len() implies #[trigger] r[k].start_ms < r[k].end_ms by {
        if k < a.len() {
            assert(r[k] == a[k]);
        } else {
            assert(r[k] == b[k - a.len()]);
        }
    }
}

/// The finished timeline lies end to end from the session's start to the
/// timeline end, every part nonempty, whatever fragments and gaps were
/// recorded; an empty span gives an empty timeline.
pub proof fn law_timeline_is_complete(
    raw: Seq<TimelinePart>,
    order: Seq<usize>,
    started_at_ms: i64,
    timeline_end_ms: i64,
)
    requires
        started_at_ms <= timeline_end_ms,
        forall|k: int| 0 <= k < order.len() ==> #[trigger] order[k] < raw.len(),
        forall|k: int| 0 <= k < raw.len() ==> #[trigger] raw[k].start_ms < raw[k].end_ms,
    ensures
        tiles(
            complete_timeline(raw, order, started_at_ms, timeline_end_ms),
            started_at_ms as int,
            timeline_end_ms as int,
        ),
{
    lemma_sweep_tiles(raw, order, started_at_ms, timeline_end_ms, order.len() as int);
    let st = sweep_after(raw, order, started_at_ms, timeline_end_ms, order.len() as int);
    if st.cursor < timeline_end_ms {
        let r = complete_timeline(raw, order, started_at_ms, timeline_end_ms);
        assert forall|k: int| 0 <= k < r.len() - 1 implies #[trigger] r[k].end_ms == r[k
            + 1].start_ms by {
            if k < st.parts.len() - 1 {
                assert(r[k] == st.parts[k] && r[k + 1] == st.parts[k + 1]);
            }
        }
        assert forall|k: int| 0 <= k < r.len() implies #[trigger] r[k].start_ms < r[k].end_ms by {
            if k < st.parts.len() {
                assert(r[k] == st.parts[k]);
            }
        }
    }
}

/// Lays the fragments and gaps of a session end to end over
/// `[started_at_ms, timeline_end_ms)`: candidates sorted by start and end
/// (stably), each taking over from where the previous one stopped, silence
/// filling every hole and the tail.
pub fn timeline_parts(
    fragments: &[AudioFragment],
    gaps: &[Gap],
    started_at_ms: i64,
    timeline_end_ms: i64,
) -> (r: Vec<TimelinePart>)
    ensures
        exists|order: Seq<usize>|
            is_sorted_order(raw_parts(fragments@, gaps@, timeline_end_ms), order) && (forall|k: int|
                0 <= k < order.len() ==> #[trigger] order[k] < raw_parts(
                    fragments@,
                    gaps@,
                    timeline_end_ms,
                ).len()) && r@ == complete_timeline(
                raw_parts(fragments@, gaps@, timeline_end_ms),
                order,
                started_at_ms,
                timeline_end_ms,
            ),
        started_at_ms <= timeline_end_ms ==> tiles(r@, started_at_ms as int, timeline_end_ms as int),
{
    let raw = collect_raw_parts(fragments, gaps, timeline_end_ms);
    let order = sort_parts(&raw);
    let mut out: Vec<TimelinePart> = Vec::new();
    let mut cursor = started_at_ms;
    let mut i: usize = 0;
    while i < order.len()
        invariant
            i <= order@.len(),
            forall|k: int| 0 <= k < order@.len() ==> #[trigger] order@[k] < raw@.len(),
            sweep_after(raw@, order@, started_at_ms, timeline_end_ms, i as int) == (Sweep {
                cursor,
                parts: out@,
            }),
        decreases order.len() - i,
    {
        let part = raw[order[i]];
        if !(part.end_ms <= cursor || part.start_ms >= timeline_end_ms) {
            if part.start_ms > cursor {
                push_part(
                    &mut out,
                    TimelinePart {
                        start_ms: cursor,
                        end_ms: min_of(part.start_ms, timeline_end_ms),
                        kind: PartKind::Silence,
                    },
                );
            }
            let start_ms = max_of(part.start_ms, cursor);
            let end_ms = min_of(part.end_ms, timeline_end_ms);
            if end_ms > start_ms {
                push_part(&mut out, TimelinePart { start_ms, end_ms, kind: part.kind });
                cursor = end_ms;
            }
        }
        i = i + 1;
    }
    if cursor < timeline_end_ms {
        push_part(
            &mut out,
            TimelinePart { start_ms: cursor, end_ms: timeline_end_ms, kind: PartKind::Silence },
        );
    }
    proof {
        lemma_raw_parts_nonempty(fragments@, gaps@, timeline_end_ms);
        if started_at_ms <= timeline_end_ms {
            law_timeline_is_complete(raw@, order@, started_at_ms, timeline_end_ms);
        }
    }
    out
}

/// The parts of the selection `[selected_start_ms, selected_end_ms)`: each
/// part clipped to it, those left empty dropped.
pub open spec fn clip_parts(parts: Seq<TimelinePart>, sel_start: i64, sel_end: i64, n: int) -> Seq<
    TimelinePart,
>
    decreases n,
{
    if n <= 0 {
        Seq::empty()
    } else {
        let prev = clip_parts(parts, sel_start, sel_end, n - 1);
        let p = parts[n - 1];
        let s = max_i64(p.start_ms, sel_start);
        let e = min_i64(p.end_ms, sel_end);
        if e > s {
            prev.push(TimelinePart { start_ms: s, end_ms: e, kind: p.kind })
        } else {
            prev
        }
    }
}

/// The slice of a session's timeline that a download asks for.
pub struct SessionCompositionPlan {
    pub selected_start_ms: i64,
    pub selected_end_ms: i64,
    pub parts: Vec<TimelinePart>,
}

pub open spec fn is_bad_request_with(e: AppError, message: Seq<char>) -> bool {
    match e {
        AppError::BadRequest(m) => m@ == message,
        _ => false,
    }
}

fn bad_request(message: &str) -> (e: AppError)
    ensures
        is_bad_request_with(e, message@),
{
    let v = crate::text::chars_of(message);
    AppError::BadRequest(crate::text::string_of(&v))
}

/// Selects `[start_ms, end_ms)` (offsets from the session start) out of a
/// timeline `duration_ms` long: the range must be nonempty, start at or
/// after zero and end within the timeline, and must hold some timeline.
pub fn select_range(
    parts: Vec<TimelinePart>,
    started_at_ms: i64,
    duration_ms: i64,
    start_ms: i64,
    end_ms: i64,
) -> (r: Result<SessionCompositionPlan, AppError>)
    ensures
        (start_ms < 0 || end_ms <= start_ms || end_ms > duration_ms) ==> (r matches Err(e)
            && is_bad_request_with(e, "Invalid logical recording range"@)),
        !(start_ms < 0 || end_ms <= start_ms || end_ms > duration_ms) ==> {
            let sel_start = crate::text::clamp_i64(started_at_ms + start_ms);
            let sel_end = crate::text::clamp_i64(started_at_ms + min_i64(end_ms, duration_ms));
            let clipped = clip_parts(parts@, sel_start, sel_end, parts@.len() as int);
            if clipped.len() == 0 {
                r matches Err(e) && is_bad_request_with(e, "Selected range contains no timeline"@)
            } else {
                r matches Ok(plan) && plan.selected_start_ms == sel_start && plan.selected_end_ms
                    == sel_end && plan.parts@ == clipped
            }
        },
        r matches Ok(plan) ==> forall|k: int|
            0 <= k < plan.parts@.len() ==> plan.selected_start_ms <= (#[trigger] plan.parts@[k]).start_ms
                < plan.parts@[k].end_ms <= plan.selected_end_ms,
{
    if start_ms < 0 || end_ms <= start_ms || end_ms > duration_ms {
        return Err(bad_request("Invalid logical recording range"));
    }
    let selected_start_ms = crate::text::sat_add(started_at_ms, start_ms);
    let selected_end_ms = crate::text::sat_add(started_at_ms, min_of(end_ms, duration_ms));
    let mut out: Vec<TimelinePart> = Vec::new();
    let mut i: usize = 0;
    while i < parts.len()
        invariant
            i <= parts@.len(),
            out@ == clip_parts(parts@, selected_start_ms, selected_end_ms, i as int),
        decreases parts.len() - i,
    {
        let p = parts[i];
        let s = max_of(p.start_ms, selected_start_ms);
        let e = min_of(p.end_ms, selected_end_ms);
        if e > s {
            push_part(&mut out, TimelinePart { start_ms: s, end_ms: e, kind: p.kind });
        }
        i = i + 1;
    }
    if out.len() == 0 {
        return Err(bad_request("Selected range contains no timeline"));
    }
    proof {
        lemma_clip_parts(parts@, selected_start_ms, selected_end_ms, parts@.len() as int);
    }
    Ok(SessionCompositionPlan { selected_start_ms, selected_end_ms, parts: out })
}

/// Where fragment `f` stops on a timeline ending at `timeline_end_ms`: its
/// own end, an open fragment running to the timeline's end, never past it.
pub open spec fn clipped_end(f: AudioFragment, timeline_end_ms: i64) -> i64 {
    let own = match f.end_ms {
        Some(e) => e,
        None => timeline_end_ms,
    };
    if own <= timeline_end_ms {
        own
    } else {
        timeline_end_ms
    }
}

/// The audio candidate of fragment `i`.
pub open spec fn audio_candidate(f: AudioFragment, i: int, timeline_end_ms: i64) -> TimelinePart {
    TimelinePart {
        start_ms: f.start_ms,
        end_ms: clipped_end(f, timeline_end_ms),
        kind: PartKind::Audio { fragment: i as usize, source_start_ms: f.start_ms },
    }
}

proof fn lemma_fragment_parts(fragments: Seq<AudioFragment>, timeline_end_ms: i64, n: int)
    requires
        0 <= n <= fragments.len(),
    ensures
        forall|i: int|
            0 <= i < n && clipped_end(fragments[i], timeline_end_ms) > fragments[i].start_ms ==> exists|k: int|
                0 <= k < fragment_parts(fragments, timeline_end_ms, n).len() && #[trigger] fragment_parts(
                    fragments,
                    timeline_end_ms,
                    n,
                )[k] == audio_candidate(fragments[i], i, timeline_end_ms),
        forall|k: int|
            0 <= k < fragment_parts(fragments, timeline_end_ms, n).len() ==> exists|i: int|
                0 <= i < n && clipped_end(fragments[i], timeline_end_ms) > fragments[i].start_ms
                    && #[trigger] fragment_parts(fragments, timeline_end_ms, n)[k] == audio_candidate(
                    fragments[i],
                    i,
                    timeline_end_ms,
                ),
    decreases n,
{
    if n > 0 {
        lemma_fragment_parts(fragments, timeline_end_ms, n - 1);
        let prev = fragment_parts(fragments, timeline_end_ms, n - 1);
        let cur = fragment_parts(fragments, timeline_end_ms, n);
        let f = fragments[n - 1];
        assert(clipped_end(f, timeline_end_ms) == min_i64(
            match f.end_ms {
                Some(e) => e,
                None => timeline_end_ms,
            },
            timeline_end_ms,
        ));
        assert forall|i: int|
            0 <= i < n && clipped_end(fragments[i], timeline_end_ms) > fragments[i].start_ms implies exists|k: int|
                0 <= k < cur.len() && #[trigger] cur[k] == audio_candidate(fragments[i], i, timeline_end_ms) by {
            if i < n - 1 {
                let k = choose|k: int| 0 <= k < prev.len() && #[trigger] prev[k] == audio_candidate(fragments[i], i, timeline_end_ms);
                assert(cur[k] == prev[k]);
            } else {
                assert(cur[prev.len() as int] == audio_candidate(f, n - 1, timeline_end_ms));
            }
        }
        assert forall|k: int| 0 <= k < cur.len() implies exists|i: int|
            0 <= i < n && clipped_end(fragments[i], timeline_end_ms) > fragments[i].start_ms && #[trigger] cur[k]
                == audio_candidate(fragments[i], i, timeline_end_ms) by {
            if k < prev.len() {
                assert(cur[k] == prev[k]);
                let i = choose|i: int|
                    0 <= i < n - 1 && clipped_end(fragments[i], timeline_end_ms) > fragments[i].start_ms
                        && #[trigger] prev[k] == audio_candidate(fragments[i], i, timeline_end_ms);
                assert(cur[k] == audio_candidate(fragments[i], i, timeline_end_ms));
            } else {
                assert(cur[k] == audio_candidate(f, n - 1, timeline_end_ms));
            }
        }
    }
}

/// The audio candidates of a timeline are exactly its fragments that
/// leave something before the timeline's end: each such fragment `i`
/// gives the stretch from its start to its end (an open fragment's end
/// being the timeline's end), clipped to the timeline's end, playing
/// fragment `i` from its start; the candidates after them are the gaps.
pub proof fn law_fragments_become_audio(fragments: Seq<AudioFragment>, gaps: Seq<Gap>, timeline_end_ms: i64)
    ensures
        forall|i: int|
            0 <= i < fragments.len() && clipped_end(fragments[i], timeline_end_ms) > fragments[i].start_ms
                ==> exists|k: int|
                0 <= k < raw_parts(fragments, gaps, timeline_end_ms).len() && #[trigger] raw_parts(
                    fragments,
                    gaps,
                    timeline_end_ms,
                )[k] == audio_candidate(fragments[i], i, timeline_end_ms),
        forall|k: int|
            0 <= k < raw_parts(fragments, gaps, timeline_end_ms).len() ==> (#[trigger] raw_parts(
                fragments,
                gaps,
                timeline_end_ms,
            )[k].kind is Audio ==> exists|i: int|
                0 <= i < fragments.len() && clipped_end(fragments[i], timeline_end_ms) > fragments[i].start_ms
                    && raw_parts(fragments, gaps, timeline_end_ms)[k] == audio_candidate(
                    fragments[i],
                    i,
                    timeline_end_ms,
                )),
{
    let fp = fragment_parts(fragments, timeline_end_ms, fragments.len() as int);
    let raw = raw_parts(fragments, gaps, timeline_end_ms);
    lemma_fragment_parts(fragments, timeline_end_ms, fragments.len() as int);
    lemma_gap_parts_silent(gaps, gaps.len() as int);
    assert forall|i: int|
        0 <= i < fragments.len() && clipped_end(fragments[i], timeline_end_ms) > fragments[i].start_ms implies exists|k: int|
            0 <= k < raw.len() && #[trigger] raw[k] == audio_candidate(fragments[i], i, timeline_end_ms) by {
        let k = choose|k: int| 0 <= k < fp.len() && #[trigger] fp[k] == audio_candidate(fragments[i], i, timeline_end_ms);
        assert(raw[k] == fp[k]);
    }
    assert forall|k: int| 0 <= k < raw.len() implies (#[trigger] raw[k].kind is Audio ==> exists|i: int|
        0 <= i < fragments.len() && clipped_end(fragments[i], timeline_end_ms) > fragments[i].start_ms && raw[k]
            == audio_candidate(fragments[i], i, timeline_end_ms)) by {
        if k < fp.len() {
            assert(raw[k] == fp[k]);
        } else {
            let g = gap_parts(gaps, gaps.len() as int);
            assert(raw[k] == g[k - fp.len()]);
        }
    }
}

proof fn lemma_gap_parts_silent(gaps: Seq<Gap>, n: int)
    ensures
        forall|k: int| 0 <= k < gap_parts(gaps, n).len() ==> (#[trigger] gap_parts(gaps, n)[k]).kind is Silence,
    decreases n,
{
    if n > 0 {
        lemma_gap_parts_silent(gaps, n - 1);
        let prev = gap_parts(gaps, n - 1);
        assert forall|k: int| 0 <= k < gap_parts(gaps, n).len() implies (#[trigger] gap_parts(gaps, n)[k]).kind is Silence by {
            if k < prev.len() {
                assert(gap_parts(gaps, n)[k] == prev[k]);
            }
        }
    }
}

/// A session that is one fragment, still recording since the session
/// began, plays that fragment over the whole timeline and nothing else.
pub proof fn law_open_fragment_fills_the_timeline(
    f: AudioFragment,
    started_at_ms: i64,
    timeline_end_ms: i64,
    order: Seq<usize>,
)
    requires
        f.end_ms is None,
        f.start_ms == started_at_ms,
        started_at_ms < timeline_end_ms,
        is_sorted_order(raw_parts(seq![f], Seq::empty(), timeline_end_ms), order),
        forall|k: int| 0 <= k < order.len() ==> #[trigger] order[k] < raw_parts(seq![f], Seq::empty(), timeline_end_ms).len(),
    ensures
        complete_timeline(raw_parts(seq![f], Seq::empty(), timeline_end_ms), order, started_at_ms, timeline_end_ms)
            == seq![
            TimelinePart {
                start_ms: started_at_ms,
                end_ms: timeline_end_ms,
                kind: PartKind::Audio { fragment: 0, source_start_ms: started_at_ms },
            },
        ],
{
    broadcast use vstd::seq_lib::group_to_multiset_ensures;

    let fs = seq![f];
    let raw = raw_parts(fs, Seq::empty(), timeline_end_ms);
    let part = TimelinePart {
        start_ms: started_at_ms,
        end_ms: timeline_end_ms,
        kind: PartKind::Audio { fragment: 0, source_start_ms: started_at_ms },
    };
    assert(fragment_parts(fs, timeline_end_ms, 0) == Seq::<TimelinePart>::empty());
    assert(fragment_parts(fs, timeline_end_ms, 1) == seq![part]);
    assert(gap_parts(Seq::<Gap>::empty(), 0) == Seq::<TimelinePart>::empty());
    assert(raw =~= seq![part]);
    assert(order.to_multiset().len() == order.len());
    assert(Seq::new(raw.len(), |i: int| i as usize).to_multiset().len() == 1);
    assert(order.len() == 1);
    assert(order[0] == 0);
    let st0 = sweep_after(raw, order, started_at_ms, timeline_end_ms, 0);
    assert(sweep_after(raw, order, started_at_ms, timeline_end_ms, 1) == sweep_step(st0, raw[0], timeline_end_ms));
    assert(sweep_after(raw, order, started_at_ms, timeline_end_ms, 1).parts =~= seq![part]);
}

proof fn lemma_clip_parts(parts: Seq<TimelinePart>, sel_start: i64, sel_end: i64, n: int)
    requires
        0 <= n <= parts.len(),
    ensures
        forall|k: int|
            0 <= k < clip_parts(parts, sel_start, sel_end, n).len() ==> {
                let q = #[trigger] clip_parts(parts, sel_start, sel_end, n)[k];
                &&& sel_start <= q.start_ms < q.end_ms <= sel_end
                &&& exists|j: int|
                    0 <= j < n && parts[j].start_ms <= q.start_ms && q.end_ms <= parts[j].end_ms && q.kind
                        == parts[j].kind
            },
        forall|j: int|
            0 <= j < n && (if parts[j].start_ms >= sel_start {
                parts[j].start_ms
            } else {
                sel_start
            }) < (if parts[j].end_ms <= sel_end {
                parts[j].end_ms
            } else {
                sel_end
            }) ==> exists|k: int|
                0 <= k < clip_parts(parts, sel_start, sel_end, n).len() && #[trigger] clip_parts(
                    parts,
                    sel_start,
                    sel_end,
                    n,
                )[k] == (TimelinePart {
                    start_ms: if parts[j].start_ms >= sel_start {
                        parts[j].start_ms
                    } else {
                        sel_start
                    },
                    end_ms: if parts[j].end_ms <= sel_end {
                        parts[j].end_ms
                    } else {
                        sel_end
                    },
                    kind: parts[j].kind,
                }),
    decreases n,
{
    if n > 0 {
        lemma_clip_parts(parts, sel_start, sel_end, n - 1);
        let prev = clip_parts(parts, sel_start, sel_end, n - 1);
        let cur = clip_parts(parts, sel_start, sel_end, n);
        assert forall|k: int| 0 <= k < cur.len() implies {
            let q = #[trigger] cur[k];
            &&& sel_start <= q.start_ms < q.end_ms <= sel_end
            &&& exists|j: int|
                0 <= j < n && parts[j].start_ms <= q.start_ms && q.end_ms <= parts[j].end_ms && q.kind == parts[j].kind
        } by {
            if k < prev.len() {
                assert(cur[k] == prev[k]);
            } else {
                let j = n - 1;
                assert(parts[j].start_ms <= cur[k].start_ms);
            }
        }
        assert forall|j: int|
            0 <= j < n && (if parts[j].start_ms >= sel_start {
                parts[j].start_ms
            } else {
                sel_start
            }) < (if parts[j].end_ms <= sel_end {
                parts[j].end_ms
            } else {
                sel_end
            }) implies exists|k: int|
            0 <= k < cur.len() && #[trigger] cur[k] == (TimelinePart {
                start_ms: if parts[j].start_ms >= sel_start {
                    parts[j].start_ms
                } else {
                    sel_start
                },
                end_ms: if parts[j].end_ms <= sel_end {
                    parts[j].end_ms
                } else {
                    sel_end
                },
                kind: parts[j].kind,
            }) by {
            if j < n - 1 {
                let k = choose|k: int| 0 <= k < prev.len() && #[trigger] prev[k] == (TimelinePart {
                    start_ms: if parts[j].start_ms >= sel_start {
                        parts[j].start_ms
                    } else {
                        sel_start
                    },
                    end_ms: if parts[j].end_ms <= sel_end {
                        parts[j].end_ms
                    } else {
                        sel_end
                    },
                    kind: parts[j].kind,
                });
                assert(cur[k] == prev[k]);
            } else {
                assert(cur[prev.len() as int].kind == parts[j].kind);
            }
        }
    }
}

/// A download holds only the selection: every part of the plan lies within
/// `[selected start, selected end)`, nonempty, and is a stretch of one part
/// of the timeline playing the same thing; and every part of the timeline
/// that meets the selection appears, cut to the selection.
pub proof fn law_selection_stays_inside(parts: Seq<TimelinePart>, sel_start: i64, sel_end: i64)
    ensures
        forall|k: int|
            0 <= k < clip_parts(parts, sel_start, sel_end, parts.len() as int).len() ==> {
                let q = #[trigger] clip_parts(parts, sel_start, sel_end, parts.len() as int)[k];
                &&& sel_start <= q.start_ms < q.end_ms <= sel_end
                &&& exists|j: int|
                    0 <= j < parts.len() && parts[j].start_ms <= q.start_ms && q.end_ms <= parts[j].end_ms
                        && q.kind == parts[j].kind
            },
        forall|j: int|
            0 <= j < parts.len() && (if parts[j].start_ms >= sel_start {
                parts[j].start_ms
            } else {
                sel_start
            }) < (if parts[j].end_ms <= sel_end {
                parts[j].end_ms
            } else {
                sel_end
            }) ==> exists|k: int|
                0 <= k < clip_parts(parts, sel_start, sel_end, parts.len() as int).len() && #[trigger] clip_parts(
                    parts,
                    sel_start,
                    sel_end,
                    parts.len() as int,
                )[k] == (TimelinePart {
                    start_ms: if parts[j].start_ms >= sel_start {
                        parts[j].start_ms
                    } else {
                        sel_start
                    },
                    end_ms: if parts[j].end_ms <= sel_end {
                        parts[j].end_ms
                    } else {
                        sel_end
                    },
                    kind: parts[j].kind,
                }),
{
    lemma_clip_parts(parts, sel_start, sel_end, parts.len() as int);
}

} // verus!
