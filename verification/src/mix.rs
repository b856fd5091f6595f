//! Timestamp-aligned channel mixes: half-open interval arithmetic, the bot's
//! channel occupancy reconstructed from connection audits, and the windows a
//! mix draws its sources from.

use vstd::prelude::*;
use crate::session::{AudioFragment, SessionAccess};
use crate::text::{chars_equal, chars_of, push_all, push_dec_i64, push_str, string_of};

verus! {

/// A half-open interval `[start_ms, end_ms)` of milliseconds.
#[derive(Clone, Copy, Debug, PartialEq, Eq, Structural)]
pub struct MixInterval {
    pub start_ms: i64,
    pub end_ms: i64,
}

pub open spec fn max_i64(a: i64, b: i64) -> i64 {
    if a >= b {
        a
    } else {
        b
    }
}

pub open spec fn min_i64(a: i64, b: i64) -> i64 {
    if a <= b {
        a
    } else {
        b
    }
}

/// The nonempty interval `[start_ms, end_ms)`, or nothing when it is empty.
pub open spec fn interval_spec(start_ms: i64, end_ms: i64) -> Option<MixInterval> {
    if end_ms > start_ms {
        Some(MixInterval { start_ms, end_ms })
    } else {
        None
    }
}

/// The common part of two half-open intervals, or nothing when they share
/// no instant.
pub open spec fn intersect_spec(left: MixInterval, right: MixInterval) -> Option<MixInterval> {
    interval_spec(max_i64(left.start_ms, right.start_ms), min_i64(left.end_ms, right.end_ms))
}

/// `t` lies in the half-open interval `i`.
pub open spec fn covers(i: MixInterval, t: int) -> bool {
    i.start_ms <= t < i.end_ms
}

pub fn max_of(a: i64, b: i64) -> (r: i64)
    ensures
        r == max_i64(a, b),
{
    if a >= b {
        a
    } else {
        b
    }
}

pub fn min_of(a: i64, b: i64) -> (r: i64)
    ensures
        r == min_i64(a, b),
{
    if a <= b {
        a
    } else {
        b
    }
}

impl MixInterval {
    /// The interval `[start_ms, end_ms)`, or `None` when it is empty.
    pub fn new(start_ms: i64, end_ms: i64) -> (r: Option<Self>)
        ensures
            r == interval_spec(start_ms, end_ms),
    {
        if end_ms > start_ms {
            Some(MixInterval { start_ms, end_ms })
        } else {
            None
        }
    }
}

/// Half-open interval intersection.
pub fn intersect_mix_intervals(left: MixInterval, right: MixInterval) -> (r: Option<MixInterval>)
    ensures
        r == intersect_spec(left, right),
{
    MixInterval::new(max_of(left.start_ms, right.start_ms), min_of(left.end_ms, right.end_ms))
}

/// An instant belongs to the intersection of two intervals exactly when it
/// belongs to both; intervals that only touch at a boundary do not overlap.
pub proof fn law_intersection_is_the_common_part(left: MixInterval, right: MixInterval, t: int)
    ensures
        (match intersect_spec(left, right) {
            Some(i) => covers(i, t),
            None => false,
        }) <==> (covers(left, t) && covers(right, t)),
{
}

/// Intersection does not depend on the order of its operands.
pub proof fn law_intersection_commutes(left: MixInterval, right: MixInterval)
    ensures
        intersect_spec(left, right) == intersect_spec(right, left),
{
}

/// A channel and a nonempty half-open stretch of time the bot spent in it.
#[derive(Clone, Copy, Debug, PartialEq, Eq, Structural)]
pub struct MixWindow {
    pub channel_id: i64,
    pub start_ms: i64,
    pub end_ms: i64,
}

pub open spec fn window_spec(channel_id: i64, start_ms: i64, end_ms: i64) -> Option<MixWindow> {
    if end_ms > start_ms {
        Some(MixWindow { channel_id, start_ms, end_ms })
    } else {
        None
    }
}

impl MixWindow {
    /// The window, or `None` when `[start_ms, end_ms)` is empty.
    pub fn new(channel_id: i64, start_ms: i64, end_ms: i64) -> (r: Option<Self>)
        ensures
            r == window_spec(channel_id, start_ms, end_ms),
    {
        if end_ms > start_ms {
            Some(MixWindow { channel_id, start_ms, end_ms })
        } else {
            None
        }
    }

    /// The window's time span.
    pub fn interval(&self) -> (i: MixInterval)
        ensures
            i == (MixInterval { start_ms: self.start_ms, end_ms: self.end_ms }),
    {
        MixInterval { start_ms: self.start_ms, end_ms: self.end_ms }
    }
}

/// One audited voice-connection operation of the bot.
#[derive(Clone, Debug)]
pub struct BotConnectionEvent {
    pub started_ms: i64,
    pub completed_ms: i64,
    pub to_channel_id: Option<i64>,
    pub outcome: String,
}

/// A window of the bot's presence in a channel, tagged with the connected
/// episode (join to disconnect) it belongs to.
#[derive(Clone, Copy, Debug, PartialEq, Eq, Structural)]
pub struct OccupancyWindow {
    pub channel_id: i64,
    pub start_ms: i64,
    pub end_ms: i64,
    pub episode_id: i64,
}

/// Outcomes after which the bot is connected where the audit says.
pub open spec fn successful_outcome(o: Seq<char>) -> bool {
    o == "joined"@ || o == "rejoined"@ || o == "switched"@ || o == "already_in_channel"@ || o
        == "disconnected"@ || o == "switched_after_join_error"@
}

/// Whether an audited connection outcome left the bot where it reports.
pub fn is_successful_connection_outcome(outcome: &str) -> (b: bool)
    ensures
        b == successful_outcome(outcome@),
{
    let o = chars_of(outcome);
    chars_equal(&o, &chars_of("joined")) || chars_equal(&o, &chars_of("rejoined")) || chars_equal(
        &o,
        &chars_of("switched"),
    ) || chars_equal(&o, &chars_of("already_in_channel")) || chars_equal(
        &o,
        &chars_of("disconnected"),
    ) || chars_equal(&o, &chars_of("switched_after_join_error"))
}

/// The replay state: the channel the bot is in (with its episode and since
/// when), the number of episodes begun, and the windows closed so far.
pub struct Occupancy {
    pub current: Option<(i64, i64, i64)>,
    pub episodes: int,
    pub windows: Seq<OccupancyWindow>,
}

/// `windows` with the stretch `[start, end)` in `channel` appended when it
/// is nonempty.
pub open spec fn close_window(
    windows: Seq<OccupancyWindow>,
    channel: i64,
    start: i64,
    end: i64,
    episode: i64,
) -> Seq<OccupancyWindow> {
    if end > start {
        windows.push(OccupancyWindow { channel_id: channel, start_ms: start, end_ms: end, episode_id: episode })
    } else {
        windows
    }
}

/// One audit replayed: a failed operation changes nothing; a move to the
/// channel the bot is already in changes nothing; a move elsewhere closes
/// the current window at the operation's start and opens the next one at
/// its completion, in the same episode (or a new episode when the bot was
/// not connected); a disconnect closes the current window.
pub open spec fn occupancy_step(st: Occupancy, e: BotConnectionEvent) -> Occupancy {
    if !successful_outcome(e.outcome@) {
        st
    } else {
        let op_start = min_i64(e.started_ms, e.completed_ms);
        let op_end = max_i64(e.completed_ms, e.started_ms);
        match e.to_channel_id {
            Some(channel) => match st.current {
                Some((cur_channel, episode, cur_start)) => if cur_channel == channel {
                    st
                } else {
                    Occupancy {
                        current: Some((channel, episode, op_end)),
                        episodes: st.episodes,
                        windows: close_window(st.windows, cur_channel, cur_start, op_start, episode),
                    }
                },
                None => Occupancy {
                    current: Some((channel, (st.episodes + 1) as i64, op_end)),
                    episodes: st.episodes + 1,
                    windows: st.windows,
                },
            },
            None => match st.current {
                Some((cur_channel, episode, cur_start)) => Occupancy {
                    current: None,
                    episodes: st.episodes,
                    windows: close_window(st.windows, cur_channel, cur_start, op_start, episode),
                },
                None => st,
            },
        }
    }
}

/// The state after replaying the first `n` audits.
pub open spec fn occupancy_after(events: Seq<BotConnectionEvent>, n: int) -> Occupancy
    decreases n,
{
    if n <= 0 {
        Occupancy { current: None, episodes: 0, windows: Seq::empty() }
    } else {
        occupancy_step(occupancy_after(events, n - 1), events[n - 1])
    }
}

/// The occupancy windows of a whole audit log, the last window left open
/// until `horizon_end_ms`.
pub open spec fn occupancy_windows_spec(events: Seq<BotConnectionEvent>, horizon_end_ms: i64) -> Seq<
    OccupancyWindow,
> {
    let st = occupancy_after(events, events.len() as int);
    match st.current {
        Some((channel, episode, start)) => close_window(
            st.windows,
            channel,
            start,
            horizon_end_ms,
            episode,
        ),
        None => st.windows,
    }
}

/// Every window is nonempty and belongs to an episode that was begun.
pub open spec fn occupancy_wf(st: Occupancy) -> bool {
    &&& 0 <= st.episodes
    &&& windows_wf(st.windows, st.episodes)
    &&& match st.current {
        Some((_, episode, _)) => 1 <= episode <= st.episodes,
        None => true,
    }
}

pub open spec fn windows_wf(ws: Seq<OccupancyWindow>, episodes: int) -> bool {
    forall|i: int|
        0 <= i < ws.len() ==> #[trigger] ws[i].start_ms < ws[i].end_ms && 1 <= ws[i].episode_id
            <= episodes
}

proof fn lemma_windows_wf_mono(ws: Seq<OccupancyWindow>, episodes: int)
    requires
        windows_wf(ws, episodes),
    ensures
        windows_wf(ws, episodes + 1),
{
    assert forall|i: int| 0 <= i < ws.len() implies #[trigger] ws[i].start_ms < ws[i].end_ms && 1
        <= ws[i].episode_id <= episodes + 1 by {
        assert(ws[i].start_ms < ws[i].end_ms);
    }
}

proof fn lemma_close_window_wf(
    ws: Seq<OccupancyWindow>,
    channel: i64,
    start: i64,
    end: i64,
    episode: i64,
    episodes: int,
)
    requires
        windows_wf(ws, episodes),
        1 <= episode <= episodes,
    ensures
        windows_wf(close_window(ws, channel, start, end, episode), episodes),
{
    let r = close_window(ws, channel, start, end, episode);
    assert forall|i: int| 0 <= i < r.len() implies #[trigger] r[i].start_ms < r[i].end_ms && 1
        <= r[i].episode_id <= episodes by {
        if i < ws.len() {
            assert(r[i] == ws[i]);
        }
    }
}

proof fn lemma_occupancy_wf(events: Seq<BotConnectionEvent>, n: int)
    requires
        0 <= n <= events.len() < i64::MAX,
    ensures
        occupancy_wf(occupancy_after(events, n)),
        occupancy_after(events, n).episodes <= n,
    decreases n,
{
    if n > 0 {
        lemma_occupancy_wf(events, n - 1);
        let st = occupancy_after(events, n - 1);
        let e = events[n - 1];
        assert(windows_wf(st.windows, st.episodes));
        lemma_windows_wf_mono(st.windows, st.episodes);
        match st.current {
            Some((c, ep, s0)) => {
                lemma_close_window_wf(
                    st.windows,
                    c,
                    s0,
                    min_i64(e.started_ms, e.completed_ms),
                    ep,
                    st.episodes,
                );
            },
            None => {},
        }
        assert(windows_wf(occupancy_after(events, n).windows, occupancy_after(events, n).episodes));
    }
}

/// Replays the bot's connection audits into windows of connected presence,
/// each tagged with its episode; the presence open at the end of the log
/// lasts until `horizon_end_ms`.
pub fn build_occupancy_windows(events: &[BotConnectionEvent], horizon_end_ms: i64) -> (r: Vec<
    OccupancyWindow,
>)
    requires
        events@.len() < i64::MAX,
    ensures
        r@ == occupancy_windows_spec(events@, horizon_end_ms),
{
    let mut windows: Vec<OccupancyWindow> = Vec::new();
    let mut current: Option<(i64, i64, i64)> = None;
    let mut next_episode_id: i64 = 0;
    let mut i: usize = 0;
    while i < events.len()
        invariant
            i <= events@.len() < i64::MAX,
            occupancy_after(events@, i as int) == (Occupancy {
                current,
                episodes: next_episode_id as int,
                windows: windows@,
            }),
        decreases events.len() - i,
    {
        proof {
            lemma_occupancy_wf(events@, i as int);
        }
        let event = &events[i];
        if is_successful_connection_outcome(event.outcome.as_str()) {
            let operation_start_ms = min_of(event.started_ms, event.completed_ms);
            let operation_end_ms = max_of(event.completed_ms, event.started_ms);
            match event.to_channel_id {
                Some(channel_id) => {
                    match current {
                        Some((current_channel_id, episode_id, current_start_ms)) => {
                            if current_channel_id != channel_id {
                                if let Some(window) = MixWindow::new(
                                    current_channel_id,
                                    current_start_ms,
                                    operation_start_ms,
                                ) {
                                    windows.push(
                                        OccupancyWindow {
                                            channel_id: window.channel_id,
                                            start_ms: window.start_ms,
                                            end_ms: window.end_ms,
                                            episode_id,
                                        },
                                    );
                                }
                                current = Some((channel_id, episode_id, operation_end_ms));
                            }
                        },
                        None => {
                            next_episode_id = next_episode_id + 1;
                            current = Some((channel_id, next_episode_id, operation_end_ms));
                        },
                    }
                },
                None => {
                    if let Some((channel_id, episode_id, current_start_ms)) = current {
                        if let Some(window) = MixWindow::new(
                            channel_id,
                            current_start_ms,
                            operation_start_ms,
                        ) {
                            windows.push(
                                OccupancyWindow {
                                    channel_id: window.channel_id,
                                    start_ms: window.start_ms,
                                    end_ms: window.end_ms,
                                    episode_id,
                                },
                            );
                        }
                    }
                    current = None;
                },
            }
        }
        i = i + 1;
    }
    if let Some((channel_id, episode_id, current_start_ms)) = current {
        if let Some(window) = MixWindow::new(channel_id, current_start_ms, horizon_end_ms) {
            windows.push(
                OccupancyWindow {
                    channel_id: window.channel_id,
                    start_ms: window.start_ms,
                    end_ms: window.end_ms,
                    episode_id,
                },
            );
        }
    }
    windows
}

/// Every occupancy window is a nonempty stretch of a begun episode, and
/// episode ids count up from one, never past the number of audits.
pub proof fn law_occupancy_windows_are_nonempty(
    events: Seq<BotConnectionEvent>,
    horizon_end_ms: i64,
    i: int,
)
    requires
        0 <= i < occupancy_windows_spec(events, horizon_end_ms).len(),
        events.len() < i64::MAX,
    ensures
        occupancy_windows_spec(events, horizon_end_ms)[i].start_ms < occupancy_windows_spec(
            events,
            horizon_end_ms,
        )[i].end_ms,
        1 <= occupancy_windows_spec(events, horizon_end_ms)[i].episode_id <= events.len(),
{
    lemma_occupancy_wf(events, events.len() as int);
    let st = occupancy_after(events, events.len() as int);
    assert(windows_wf(st.windows, st.episodes));
    match st.current {
        Some((c, ep, s0)) => {
            lemma_close_window_wf(st.windows, c, s0, horizon_end_ms, ep, st.episodes);
        },
        None => {},
    }
    let r = occupancy_windows_spec(events, horizon_end_ms);
    assert(windows_wf(r, st.episodes));
    assert(r[i].start_ms < r[i].end_ms);
}

/// A failed audit leaves the replay where it was.
pub proof fn law_failed_audits_change_nothing(st: Occupancy, e: BotConnectionEvent)
    requires
        !successful_outcome(e.outcome@),
    ensures
        occupancy_step(st, e) == st,
{
}

/// The audits whose outcome left the bot where they report.
pub open spec fn successful_audits(events: Seq<BotConnectionEvent>) -> Seq<BotConnectionEvent> {
    events.filter(|e: BotConnectionEvent| successful_outcome(e.outcome@))
}

/// The replay of the first `k` audits depends on those audits alone.
proof fn lemma_replay_prefix(s: Seq<BotConnectionEvent>, t: Seq<BotConnectionEvent>, k: int)
    requires
        0 <= k <= s.len(),
        k <= t.len(),
        forall|i: int| 0 <= i < k ==> s[i] == t[i],
    ensures
        occupancy_after(s, k) == occupancy_after(t, k),
    decreases k,
{
    if k > 0 {
        lemma_replay_prefix(s, t, k - 1);
        assert(s[k - 1] == t[k - 1]);
    }
}

/// Replaying a whole log is replaying its successful audits.
proof fn lemma_replay_successful(events: Seq<BotConnectionEvent>)
    ensures
        occupancy_after(events, events.len() as int) == occupancy_after(
            successful_audits(events),
            successful_audits(events).len() as int,
        ),
    decreases events.len(),
{
    reveal(Seq::filter);
    let f = |e: BotConnectionEvent| successful_outcome(e.outcome@);
    if events.len() > 0 {
        let d = events.drop_last();
        let last = events.last();
        lemma_replay_successful(d);
        lemma_replay_prefix(events, d, d.len() as int);
        let fd = d.filter(f);
        assert(events.filter(f) == (if f(last) {
            fd.push(last)
        } else {
            fd
        }));
        if f(last) {
            let fe = fd.push(last);
            lemma_replay_prefix(fe, fd, fd.len() as int);
            assert(fe[fd.len() as int] == last);
        }
    }
}

/// Audits that failed never open, close or split a window: the windows of
/// a log are those of its successful audits alone.
pub proof fn law_failed_audits_are_ignored(events: Seq<BotConnectionEvent>, horizon_end_ms: i64)
    ensures
        occupancy_windows_spec(events, horizon_end_ms) == occupancy_windows_spec(
            successful_audits(events),
            horizon_end_ms,
        ),
{
    lemma_replay_successful(events);
}

/// The occupancy window `w` overlaps the selected timeline `[start, end)`
/// in one of the selected channels.
pub open spec fn touches_selection(w: OccupancyWindow, start: i64, end: i64, channels: Set<i64>) -> bool {
    channels.contains(w.channel_id) && w.start_ms < end && w.end_ms > start
}

/// Among the first `n` occupancy windows, one of episode `episode` touches
/// the selection.
pub open spec fn episode_touched_before(
    occupancy: Seq<OccupancyWindow>,
    start: i64,
    end: i64,
    channels: Set<i64>,
    n: int,
    episode: i64,
) -> bool {
    exists|j: int|
        0 <= j < n && touches_selection(#[trigger] occupancy[j], start, end, channels)
            && occupancy[j].episode_id == episode
}

/// Some window of `episode` touches the selected timeline in a selected
/// channel.
pub open spec fn episode_selected(
    occupancy: Seq<OccupancyWindow>,
    start: i64,
    end: i64,
    channels: Set<i64>,
    episode: i64,
) -> bool {
    episode_touched_before(occupancy, start, end, channels, occupancy.len() as int, episode)
}

/// The windows kept from the first `n` occupancy windows: those of a
/// selected episode in a selected channel, in order.
pub open spec fn selected_windows(
    occupancy: Seq<OccupancyWindow>,
    start: i64,
    end: i64,
    channels: Set<i64>,
    n: int,
) -> Seq<MixWindow>
    decreases n,
{
    if n <= 0 {
        Seq::empty()
    } else {
        let prev = selected_windows(occupancy, start, end, channels, n - 1);
        let w = occupancy[n - 1];
        if episode_selected(occupancy, start, end, channels, w.episode_id) && channels.contains(
            w.channel_id,
        ) && w.end_ms > w.start_ms {
            prev.push(MixWindow { channel_id: w.channel_id, start_ms: w.start_ms, end_ms: w.end_ms })
        } else {
            prev
        }
    }
}

/// `k` is a member of the hash set `s`.
pub fn set_has(s: &std::collections::HashSet<i64>, k: i64) -> (b: bool)
    ensures
        b == s@.contains(k),
{
    broadcast use vstd::std_specs::hash::group_hash_axioms;

    s.contains(&k)
}

fn vec_has(v: &Vec<i64>, k: i64) -> (b: bool)
    ensures
        b == v@.contains(k),
{
    let mut i: usize = 0;
    while i < v.len()
        invariant
            i <= v.len(),
            forall|j: int| 0 <= j < i ==> v@[j] != k,
        decreases v.len() - i,
    {
        if v[i] == k {
            assert(v@[i as int] == k);
            return true;
        }
        i = i + 1;
    }
    false
}

/// Expands the selected timeline to whole connected episodes: every window
/// of an episode that touches `[selected_start_ms, selected_end_ms)` in a
/// selected channel is kept, when its own channel is selected.
pub fn select_occupancy_windows(
    occupancy: Vec<OccupancyWindow>,
    selected_start_ms: i64,
    selected_end_ms: i64,
    selected_channels: &std::collections::HashSet<i64>,
) -> (r: Vec<MixWindow>)
    ensures
        r@ == selected_windows(
            occupancy@,
            selected_start_ms,
            selected_end_ms,
            selected_channels@,
            occupancy@.len() as int,
        ),
{
    let ghost chans = selected_channels@;
    let mut episodes: Vec<i64> = Vec::new();
    let mut i: usize = 0;
    while i < occupancy.len()
        invariant
            i <= occupancy@.len(),
            chans == selected_channels@,
            forall|ep: i64|
                #![trigger episodes@.contains(ep)]
                episodes@.contains(ep) <==> episode_touched_before(
                    occupancy@,
                    selected_start_ms,
                    selected_end_ms,
                    chans,
                    i as int,
                    ep,
                ),
        decreases occupancy.len() - i,
    {
        let w = occupancy[i];
        let ghost old_eps = episodes@;
        if set_has(selected_channels, w.channel_id) && w.start_ms < selected_end_ms && w.end_ms
            > selected_start_ms {
            episodes.push(w.episode_id);
            proof {
                assert(touches_selection(occupancy@[i as int], selected_start_ms, selected_end_ms, chans));
                assert forall|ep: i64|
                    episodes@.contains(ep) <==> episode_touched_before(
                        occupancy@,
                        selected_start_ms,
                        selected_end_ms,
                        chans,
                        i + 1,
                        ep,
                    ) by {
                    if episodes@.contains(ep) {
                        let k = choose|k: int| 0 <= k < episodes@.len() && episodes@[k] == ep;
                        if k < old_eps.len() {
                            assert(old_eps[k] == ep);
                            assert(old_eps.contains(ep));
                        }
                    }
                    if episode_touched_before(
                        occupancy@,
                        selected_start_ms,
                        selected_end_ms,
                        chans,
                        i + 1,
                        ep,
                    ) {
                        let j = choose|j: int|
                            0 <= j < i + 1 && touches_selection(
                                #[trigger] occupancy@[j],
                                selected_start_ms,
                                selected_end_ms,
                                chans,
                            ) && occupancy@[j].episode_id == ep;
                        if j < i {
                            assert(old_eps.contains(ep));
                            let k = choose|k: int| 0 <= k < old_eps.len() && old_eps[k] == ep;
                            assert(episodes@[k] == ep);
                        } else {
                            assert(episodes@[old_eps.len() as int] == ep);
                        }
                    }
                }
            }
        } else {
            proof {
                assert(!touches_selection(occupancy@[i as int], selected_start_ms, selected_end_ms, chans));
                assert forall|ep: i64|
                    episodes@.contains(ep) <==> episode_touched_before(
                        occupancy@,
                        selected_start_ms,
                        selected_end_ms,
                        chans,
                        i + 1,
                        ep,
                    ) by {
                    if episode_touched_before(
                        occupancy@,
                        selected_start_ms,
                        selected_end_ms,
                        chans,
                        i + 1,
                        ep,
                    ) {
                        let j = choose|j: int|
                            0 <= j < i + 1 && touches_selection(
                                #[trigger] occupancy@[j],
                                selected_start_ms,
                                selected_end_ms,
                                chans,
                            ) && occupancy@[j].episode_id == ep;
                        assert(j < i);
                    }
                }
            }
        }
        i = i + 1;
    }
    let mut out: Vec<MixWindow> = Vec::new();
    let mut k: usize = 0;
    while k < occupancy.len()
        invariant
            k <= occupancy@.len(),
            chans == selected_channels@,
            forall|ep: i64|
                episodes@.contains(ep) <==> episode_selected(
                    occupancy@,
                    selected_start_ms,
                    selected_end_ms,
                    chans,
                    ep,
                ),
            out@ == selected_windows(
                occupancy@,
                selected_start_ms,
                selected_end_ms,
                chans,
                k as int,
            ),
        decreases occupancy.len() - k,
    {
        let w = occupancy[k];
        if vec_has(&episodes, w.episode_id) && set_has(selected_channels, w.channel_id) {
            if let Some(window) = MixWindow::new(w.channel_id, w.start_ms, w.end_ms) {
                out.push(window);
            }
        }
        k = k + 1;
    }
    out
}

/// The unwrapped end of a fragment, or `default` while it is open.
pub open spec fn end_or(end: Option<i64>, default: i64) -> i64 {
    match end {
        Some(e) => e,
        None => default,
    }
}

/// The window a fragment of the selected session contributes when no
/// occupancy audit is available: its stretch in its channel, clipped to the
/// session's start and to the timeline end.
pub open spec fn fallback_window(f: AudioFragment, started_at_ms: i64, timeline_end_ms: i64) -> Option<
    MixWindow,
> {
    if f.channel_id == 0 {
        None
    } else {
        window_spec(
            f.channel_id,
            max_i64(f.start_ms, started_at_ms),
            min_i64(end_or(f.end_ms, timeline_end_ms), timeline_end_ms),
        )
    }
}

pub open spec fn fallback_windows_spec(
    fragments: Seq<AudioFragment>,
    started_at_ms: i64,
    timeline_end_ms: i64,
    n: int,
) -> Seq<MixWindow>
    decreases n,
{
    if n <= 0 {
        Seq::empty()
    } else {
        let prev = fallback_windows_spec(fragments, started_at_ms, timeline_end_ms, n - 1);
        match fallback_window(fragments[n - 1], started_at_ms, timeline_end_ms) {
            Some(w) => prev.push(w),
            None => prev,
        }
    }
}

/// Whether `w` is the stretch that fragment `f` spent in its channel once
/// clipped to the session start and the timeline end: it starts at the later
/// of the two starts, ends at the earlier of the fragment's own end (the
/// timeline end while the fragment is still open) and the timeline end, and
/// is not empty. A fragment without a channel has no such stretch.
pub open spec fn clipped_fragment_window(
    f: AudioFragment,
    started_at_ms: i64,
    timeline_end_ms: i64,
    w: MixWindow,
) -> bool {
    &&& f.channel_id != 0
    &&& w.channel_id == f.channel_id
    &&& w.start_ms >= f.start_ms && w.start_ms >= started_at_ms
    &&& (w.start_ms == f.start_ms || w.start_ms == started_at_ms)
    &&& w.end_ms <= timeline_end_ms
    &&& (f.end_ms matches Some(e) ==> w.end_ms <= e)
    &&& (w.end_ms == timeline_end_ms || f.end_ms == Some(w.end_ms))
    &&& w.start_ms < w.end_ms
}

proof fn lemma_fallback_window_clips(f: AudioFragment, started_at_ms: i64, timeline_end_ms: i64, w: MixWindow)
    ensures
        fallback_window(f, started_at_ms, timeline_end_ms) == Some(w) <==> clipped_fragment_window(
            f,
            started_at_ms,
            timeline_end_ms,
            w,
        ),
{
}

proof fn lemma_fallback_windows(fragments: Seq<AudioFragment>, started_at_ms: i64, timeline_end_ms: i64, n: int)
    requires
        0 <= n <= fragments.len(),
    ensures
        forall|k: int|
            #![trigger fallback_windows_spec(fragments, started_at_ms, timeline_end_ms, n)[k]]
            0 <= k < fallback_windows_spec(fragments, started_at_ms, timeline_end_ms, n).len() ==> exists|j: int|
                #![trigger fragments[j]]
                0 <= j < n && clipped_fragment_window(
                    fragments[j],
                    started_at_ms,
                    timeline_end_ms,
                    fallback_windows_spec(fragments, started_at_ms, timeline_end_ms, n)[k],
                ),
        forall|j: int, w: MixWindow|
            #![trigger clipped_fragment_window(fragments[j], started_at_ms, timeline_end_ms, w)]
            0 <= j < n && clipped_fragment_window(fragments[j], started_at_ms, timeline_end_ms, w)
                ==> fallback_windows_spec(fragments, started_at_ms, timeline_end_ms, n).contains(w),
    decreases n,
{
    if n > 0 {
        lemma_fallback_windows(fragments, started_at_ms, timeline_end_ms, n - 1);
        let prev = fallback_windows_spec(fragments, started_at_ms, timeline_end_ms, n - 1);
        let cur = fallback_windows_spec(fragments, started_at_ms, timeline_end_ms, n);
        let last = fragments[n - 1];
        assert forall|k: int| #![trigger cur[k]] 0 <= k < cur.len() implies exists|j: int|
            #![trigger fragments[j]]
            0 <= j < n && clipped_fragment_window(fragments[j], started_at_ms, timeline_end_ms, cur[k]) by {
            match fallback_window(last, started_at_ms, timeline_end_ms) {
                Some(w) => {
                    assert(cur == prev.push(w));
                    if k < prev.len() {
                        assert(cur[k] == prev[k]);
                        let j = choose|j: int|
                            #![trigger fragments[j]]
                            0 <= j < n - 1 && clipped_fragment_window(
                                fragments[j],
                                started_at_ms,
                                timeline_end_ms,
                                prev[k],
                            );
                        assert(clipped_fragment_window(fragments[j], started_at_ms, timeline_end_ms, cur[k]));
                    } else {
                        lemma_fallback_window_clips(last, started_at_ms, timeline_end_ms, w);
                        assert(cur[k] == w);
                        assert(clipped_fragment_window(fragments[n - 1], started_at_ms, timeline_end_ms, cur[k]));
                    }
                },
                None => {
                    assert(cur == prev);
                    let j = choose|j: int|
                        #![trigger fragments[j]]
                        0 <= j < n - 1 && clipped_fragment_window(
                            fragments[j],
                            started_at_ms,
                            timeline_end_ms,
                            prev[k],
                        );
                    assert(clipped_fragment_window(fragments[j], started_at_ms, timeline_end_ms, cur[k]));
                },
            }
        }
        assert forall|j: int, w: MixWindow|
            #![trigger clipped_fragment_window(fragments[j], started_at_ms, timeline_end_ms, w)]
            0 <= j < n && clipped_fragment_window(fragments[j], started_at_ms, timeline_end_ms, w) implies cur.contains(
            w,
        ) by {
            if j < n - 1 {
                assert(clipped_fragment_window(fragments[j], started_at_ms, timeline_end_ms, w));
                assert(prev.contains(w));
                let k = choose|k: int| 0 <= k < prev.len() && prev[k] == w;
                match fallback_window(last, started_at_ms, timeline_end_ms) {
                    Some(v) => {
                        assert(cur == prev.push(v));
                        assert(cur[k] == prev[k]);
                    },
                    None => {
                        assert(cur == prev);
                    },
                }
                assert(cur[k] == w);
            } else {
                lemma_fallback_window_clips(last, started_at_ms, timeline_end_ms, w);
                assert(cur == prev.push(w));
                assert(cur[prev.len() as int] == w);
            }
        }
    }
}

/// Without an occupancy audit, every mix window comes from one fragment with
/// a channel: it starts no earlier than the fragment and the session, ends no
/// later than the timeline and, once the fragment has ended, no later than
/// the fragment's own end; and every fragment that keeps a nonempty stretch
/// after that clipping contributes exactly that window.
pub proof fn law_fallback_windows_follow_fragments(
    fragments: Seq<AudioFragment>,
    started_at_ms: i64,
    timeline_end_ms: i64,
)
    ensures
        forall|k: int|
            #![trigger fallback_windows_spec(fragments, started_at_ms, timeline_end_ms, fragments.len() as int)[k]]
            0 <= k < fallback_windows_spec(fragments, started_at_ms, timeline_end_ms, fragments.len() as int).len()
                ==> exists|j: int|
                #![trigger fragments[j]]
                0 <= j < fragments.len() && clipped_fragment_window(
                    fragments[j],
                    started_at_ms,
                    timeline_end_ms,
                    fallback_windows_spec(fragments, started_at_ms, timeline_end_ms, fragments.len() as int)[k],
                ),
        forall|j: int, w: MixWindow|
            #![trigger clipped_fragment_window(fragments[j], started_at_ms, timeline_end_ms, w)]
            0 <= j < fragments.len() && clipped_fragment_window(fragments[j], started_at_ms, timeline_end_ms, w)
                ==> fallback_windows_spec(fragments, started_at_ms, timeline_end_ms, fragments.len() as int).contains(w),
{
    lemma_fallback_windows(fragments, started_at_ms, timeline_end_ms, fragments.len() as int);
}

/// Windows taken from the selected session's own fragments.
pub fn fallback_mix_windows(
    access: &SessionAccess,
    fragments: &[AudioFragment],
    timeline_end_ms: i64,
) -> (r: Vec<MixWindow>)
    ensures
        r@ == fallback_windows_spec(
            fragments@,
            access.started_at_ms,
            timeline_end_ms,
            fragments@.len() as int,
        ),
        forall|k: int|
            #![trigger r@[k]]
            0 <= k < r@.len() ==> exists|j: int|
                #![trigger fragments@[j]]
                0 <= j < fragments@.len() && clipped_fragment_window(
                    fragments@[j],
                    access.started_at_ms,
                    timeline_end_ms,
                    r@[k],
                ),
{
    proof {
        law_fallback_windows_follow_fragments(fragments@, access.started_at_ms, timeline_end_ms);
    }
    let mut out: Vec<MixWindow> = Vec::new();
    let mut i: usize = 0;
    while i < fragments.len()
        invariant
            i <= fragments@.len(),
            out@ == fallback_windows_spec(
                fragments@,
                access.started_at_ms,
                timeline_end_ms,
                i as int,
            ),
        decreases fragments.len() - i,
    {
        let f = &fragments[i];
        if f.channel_id != 0 {
            let end = match f.end_ms {
                Some(e) => e,
                None => timeline_end_ms,
            };
            if let Some(w) = MixWindow::new(
                f.channel_id,
                max_of(f.start_ms, access.started_at_ms),
                min_of(end, timeline_end_ms),
            ) {
                out.push(w);
            }
        }
        i = i + 1;
    }
    out
}

/// One stretch of one recorded file placed on the mix timeline.
#[derive(Clone, Debug)]
pub struct MixSource {
    pub audio_file_id: i64,
    pub recording_session_id: Option<i64>,
    pub participant_user_id: i64,
    pub guild_id: i64,
    pub channel_id: i64,
    pub year: i32,
    pub month: i32,
    pub file_name: String,
    pub fragment_start_ms: i64,
    pub fragment_end_ms: i64,
    pub live: bool,
    pub source_start_ms: i64,
    pub overlap_start_ms: i64,
    pub overlap_end_ms: i64,
    pub delay_ms: i64,
}

/// `src` places the stretch `overlap` of fragment `f` for `participant`,
/// delayed from `timeline_start_ms`, an open fragment running to
/// `timeline_end_ms`.
pub open spec fn source_matches(
    src: MixSource,
    f: AudioFragment,
    participant: i64,
    overlap: MixInterval,
    timeline_start_ms: i64,
    timeline_end_ms: i64,
) -> bool {
    &&& src.audio_file_id == f.id
    &&& src.recording_session_id == f.recording_session_id
    &&& src.participant_user_id == participant
    &&& src.guild_id == f.guild_id
    &&& src.channel_id == f.channel_id
    &&& src.year == f.year
    &&& src.month == f.month
    &&& src.file_name@ == f.file_name@
    &&& src.fragment_start_ms == f.start_ms
    &&& src.fragment_end_ms == end_or(f.end_ms, timeline_end_ms)
    &&& src.live == f.live
    &&& src.source_start_ms == f.start_ms
    &&& src.overlap_start_ms == overlap.start_ms
    &&& src.overlap_end_ms == overlap.end_ms
    &&& src.delay_ms == crate::text::clamp_i64(overlap.start_ms - timeline_start_ms)
}

/// The part of fragment `f` that a window of the same channel covers; an
/// open fragment runs to `timeline_end_ms`.
pub open spec fn window_overlap(f: AudioFragment, w: MixWindow, timeline_end_ms: i64) -> Option<
    MixInterval,
> {
    if f.channel_id != w.channel_id {
        None
    } else {
        match interval_spec(f.start_ms, end_or(f.end_ms, timeline_end_ms)) {
            Some(si) => intersect_spec(
                MixInterval { start_ms: w.start_ms, end_ms: w.end_ms },
                si,
            ),
            None => None,
        }
    }
}

/// The overlaps of fragment `f` with the first `n` windows, in order.
pub open spec fn fragment_window_overlaps(
    f: AudioFragment,
    windows: Seq<MixWindow>,
    timeline_end_ms: i64,
    n: int,
) -> Seq<MixInterval>
    decreases n,
{
    if n <= 0 {
        Seq::empty()
    } else {
        let prev = fragment_window_overlaps(f, windows, timeline_end_ms, n - 1);
        match window_overlap(f, windows[n - 1], timeline_end_ms) {
            Some(o) => prev.push(o),
            None => prev,
        }
    }
}

/// The (fragment index, overlap) pairs of the first `n` fragments against
/// all windows: fragments in order, and for each the windows in order.
pub open spec fn window_source_pairs(
    fragments: Seq<AudioFragment>,
    windows: Seq<MixWindow>,
    timeline_end_ms: i64,
    n: int,
) -> Seq<(int, MixInterval)>
    decreases n,
{
    if n <= 0 {
        Seq::empty()
    } else {
        window_source_pairs(fragments, windows, timeline_end_ms, n - 1) + fragment_window_overlaps(
            fragments[n - 1],
            windows,
            timeline_end_ms,
            windows.len() as int,
        ).map_values(|o: MixInterval| (n - 1, o))
    }
}

/// `added` holds, in order, one source per pair.
pub open spec fn sources_for_pairs(
    added: Seq<MixSource>,
    fragments: Seq<AudioFragment>,
    pairs: Seq<(int, MixInterval)>,
    participant: i64,
    timeline_start_ms: i64,
    timeline_end_ms: i64,
) -> bool {
    &&& added.len() == pairs.len()
    &&& forall|k: int|
        0 <= k < pairs.len() ==> source_matches(
            #[trigger] added[k],
            fragments[pairs[k].0],
            participant,
            pairs[k].1,
            timeline_start_ms,
            timeline_end_ms,
        )
}

fn source_overlap(
    source: &AudioFragment,
    participant_user_id: i64,
    overlap: MixInterval,
    timeline_start_ms: i64,
    timeline_end_ms: i64,
) -> (s: MixSource)
    ensures
        source_matches(s, *source, participant_user_id, overlap, timeline_start_ms, timeline_end_ms),
{
    let name = crate::text::chars_of(source.file_name.as_str());
    MixSource {
        audio_file_id: source.id,
        recording_session_id: source.recording_session_id,
        participant_user_id,
        guild_id: source.guild_id,
        channel_id: source.channel_id,
        year: source.year,
        month: source.month,
        file_name: string_of(&name),
        fragment_start_ms: source.start_ms,
        fragment_end_ms: match source.end_ms {
            Some(e) => e,
            None => timeline_end_ms,
        },
        live: source.live,
        source_start_ms: source.start_ms,
        overlap_start_ms: overlap.start_ms,
        overlap_end_ms: overlap.end_ms,
        delay_ms: crate::text::sat_sub(overlap.start_ms, timeline_start_ms),
    }
}

/// Appends a source for every overlap of `source` with a window of its
/// channel, in window order.
pub fn push_fragment_sources(
    sources: &mut Vec<MixSource>,
    windows: &[MixWindow],
    source: &AudioFragment,
    participant_user_id: i64,
    timeline_start_ms: i64,
    timeline_end_ms: i64,
)
    ensures
        final(sources)@.len() == old(sources)@.len() + fragment_window_overlaps(
            *source,
            windows@,
            timeline_end_ms,
            windows@.len() as int,
        ).len(),
        final(sources)@.take(old(sources)@.len() as int) == old(sources)@,
        forall|k: int|
            0 <= k < fragment_window_overlaps(*source, windows@, timeline_end_ms, windows@.len() as int).len()
                ==> source_matches(
                #[trigger] final(sources)@[old(sources)@.len() + k],
                *source,
                participant_user_id,
                fragment_window_overlaps(*source, windows@, timeline_end_ms, windows@.len() as int)[k],
                timeline_start_ms,
                timeline_end_ms,
            ),
{
    let ghost before = sources@;
    let mut j: usize = 0;
    while j < windows.len()
        invariant
            j <= windows@.len(),
            sources@.len() == before.len() + fragment_window_overlaps(
                *source,
                windows@,
                timeline_end_ms,
                j as int,
            ).len(),
            sources@.take(before.len() as int) == before,
            forall|k: int|
                0 <= k < fragment_window_overlaps(*source, windows@, timeline_end_ms, j as int).len()
                    ==> source_matches(
                    #[trigger] sources@[before.len() + k],
                    *source,
                    participant_user_id,
                    fragment_window_overlaps(*source, windows@, timeline_end_ms, j as int)[k],
                    timeline_start_ms,
                    timeline_end_ms,
                ),
        decreases windows.len() - j,
    {
        let window = windows[j];
        if source.channel_id == window.channel_id {
            let end = match source.end_ms {
                Some(e) => e,
                None => timeline_end_ms,
            };
            if let Some(source_interval) = MixInterval::new(source.start_ms, end) {
                if let Some(overlap) = intersect_mix_intervals(window.interval(), source_interval) {
                    let s = source_overlap(
                        source,
                        participant_user_id,
                        overlap,
                        timeline_start_ms,
                        timeline_end_ms,
                    );
                    sources.push(s);
                    proof {
                        assert(sources@.take(before.len() as int) =~= before);
                    }
                }
            }
        }
        j = j + 1;
    }
}

/// Appends a source for every overlap of each fragment with each window of
/// its channel; fragments in order, and for each the windows in order.
pub fn add_window_sources(
    sources: &mut Vec<MixSource>,
    windows: &[MixWindow],
    source_fragments: &[AudioFragment],
    participant_user_id: i64,
    timeline_start_ms: i64,
    timeline_end_ms: i64,
)
    ensures
        final(sources)@.len() >= old(sources)@.len(),
        final(sources)@.take(old(sources)@.len() as int) == old(sources)@,
        sources_for_pairs(
            final(sources)@.skip(old(sources)@.len() as int),
            source_fragments@,
            window_source_pairs(
                source_fragments@,
                windows@,
                timeline_end_ms,
                source_fragments@.len() as int,
            ),
            participant_user_id,
            timeline_start_ms,
            timeline_end_ms,
        ),
{
    let ghost start = sources@;
    let ghost frags = source_fragments@;
    let mut i: usize = 0;
    while i < source_fragments.len()
        invariant
            i <= frags.len(),
            frags == source_fragments@,
            sources@.len() >= start.len(),
            sources@.take(start.len() as int) == start,
            sources_for_pairs(
                sources@.skip(start.len() as int),
                frags,
                window_source_pairs(frags, windows@, timeline_end_ms, i as int),
                participant_user_id,
                timeline_start_ms,
                timeline_end_ms,
            ),
        decreases source_fragments.len() - i,
    {
        let source = &source_fragments[i];
        let ghost before = sources@;
        let ghost pairs_before = window_source_pairs(frags, windows@, timeline_end_ms, i as int);
        push_fragment_sources(
            sources,
            windows,
            source,
            participant_user_id,
            timeline_start_ms,
            timeline_end_ms,
        );
        proof {
            let row = fragment_window_overlaps(frags[i as int], windows@, timeline_end_ms, windows@.len() as int);
            let tagged = row.map_values(|o: MixInterval| (i as int, o));
            let pairs = window_source_pairs(frags, windows@, timeline_end_ms, i + 1);
            assert(pairs == pairs_before + tagged);
            let added = sources@.skip(start.len() as int);
            let old_added = before.skip(start.len() as int);
            assert(sources@.take(start.len() as int) =~= start) by {
                assert(before.take(start.len() as int) == start);
                assert forall|k: int| 0 <= k < start.len() implies sources@[k] == start[k] by {
                    assert(sources@.take(before.len() as int)[k] == before[k]);
                    assert(before.take(start.len() as int)[k] == start[k]);
                }
            }
            assert forall|k: int| 0 <= k < pairs.len() implies source_matches(
                #[trigger] added[k],
                frags[pairs[k].0],
                participant_user_id,
                pairs[k].1,
                timeline_start_ms,
                timeline_end_ms,
            ) by {
                if k < pairs_before.len() {
                    assert(added[k] == old_added[k]) by {
                        assert(sources@.take(before.len() as int)[start.len() + k] == before[start.len() + k]);
                    }
                    assert(pairs[k] == pairs_before[k]);
                } else {
                    let m = k - pairs_before.len();
                    assert(pairs[k] == tagged[m]);
                    assert(added[k] == sources@[before.len() + m]);
                }
            }
        }
        i = i + 1;
    }
}


/// A visit of the anchor: its fragment clipped to start no earlier than
/// `anchor_started_at_ms` and end no later than `timeline_end_ms` (an open
/// fragment runs to it).
pub open spec fn anchor_visit(a: AudioFragment, anchor_started_at_ms: i64, timeline_end_ms: i64) -> Option<MixInterval> {
    interval_spec(max_i64(a.start_ms, anchor_started_at_ms), min_i64(end_or(a.end_ms, timeline_end_ms), timeline_end_ms))
}

/// The part of source fragment `f` that overlaps visit `v` in `v`'s
/// channel `channel`; an open source runs to the visit's end.
pub open spec fn visit_overlap(f: AudioFragment, channel: i64, v: MixInterval) -> Option<MixInterval> {
    if f.channel_id != channel {
        None
    } else {
        match interval_spec(f.start_ms, end_or(f.end_ms, v.end_ms)) {
            Some(si) => intersect_spec(v, si),
            None => None,
        }
    }
}

/// The (source index, overlap) pairs of anchor fragment `a` with the
/// first `m` sources.
pub open spec fn visit_pairs(
    a: AudioFragment,
    sources: Seq<AudioFragment>,
    anchor_started_at_ms: i64,
    timeline_end_ms: i64,
    m: int,
) -> Seq<(int, MixInterval)>
    decreases m,
{
    if m <= 0 {
        Seq::empty()
    } else {
        let prev = visit_pairs(a, sources, anchor_started_at_ms, timeline_end_ms, m - 1);
        match anchor_visit(a, anchor_started_at_ms, timeline_end_ms) {
            Some(v) => match visit_overlap(sources[m - 1], a.channel_id, v) {
                Some(o) => prev.push((m - 1, o)),
                None => prev,
            },
            None => prev,
        }
    }
}

/// The pairs of the first `n` anchor fragments, in order.
pub open spec fn anchor_source_pairs(
    anchors: Seq<AudioFragment>,
    sources: Seq<AudioFragment>,
    anchor_started_at_ms: i64,
    timeline_end_ms: i64,
    n: int,
) -> Seq<(int, MixInterval)>
    decreases n,
{
    if n <= 0 {
        Seq::empty()
    } else {
        anchor_source_pairs(anchors, sources, anchor_started_at_ms, timeline_end_ms, n - 1) + visit_pairs(
            anchors[n - 1],
            sources,
            anchor_started_at_ms,
            timeline_end_ms,
            sources.len() as int,
        )
    }
}

/// Appends a source for every overlap of a source fragment with a visit of
/// the anchor in the same channel: anchor fragments in order, and for
/// each the source fragments in order. A source never contributes outside
/// the anchor's visits to its own channel.
pub fn add_fragment_sources(
    sources: &mut Vec<MixSource>,
    anchor_fragments: &[AudioFragment],
    source_fragments: &[AudioFragment],
    participant_user_id: i64,
    anchor_started_at_ms: i64,
    timeline_end_ms: i64,
)
    ensures
        final(sources)@.len() >= old(sources)@.len(),
        final(sources)@.take(old(sources)@.len() as int) == old(sources)@,
        sources_for_pairs(
            final(sources)@.skip(old(sources)@.len() as int),
            source_fragments@,
            anchor_source_pairs(
                anchor_fragments@,
                source_fragments@,
                anchor_started_at_ms,
                timeline_end_ms,
                anchor_fragments@.len() as int,
            ),
            participant_user_id,
            anchor_started_at_ms,
            timeline_end_ms,
        ),
{
    let ghost start = sources@;
    let ghost frags = source_fragments@;
    let mut i: usize = 0;
    while i < anchor_fragments.len()
        invariant
            i <= anchor_fragments@.len(),
            frags == source_fragments@,
            sources@.len() >= start.len(),
            sources@.take(start.len() as int) == start,
            sources_for_pairs(
                sources@.skip(start.len() as int),
                frags,
                anchor_source_pairs(anchor_fragments@, frags, anchor_started_at_ms, timeline_end_ms, i as int),
                participant_user_id,
                anchor_started_at_ms,
                timeline_end_ms,
            ),
        decreases anchor_fragments.len() - i,
    {
        let anchor = &anchor_fragments[i];
        let ghost before = sources@;
        let ghost pairs_before = anchor_source_pairs(
            anchor_fragments@,
            frags,
            anchor_started_at_ms,
            timeline_end_ms,
            i as int,
        );
        let visit = MixInterval::new(
            max_of(anchor.start_ms, anchor_started_at_ms),
            min_of(
                match anchor.end_ms {
                    Some(e) => e,
                    None => timeline_end_ms,
                },
                timeline_end_ms,
            ),
        );
        let mut j: usize = 0;
        while j < source_fragments.len()
            invariant
                i < anchor_fragments@.len(),
                j <= frags.len(),
                frags == source_fragments@,
                *anchor == anchor_fragments@[i as int],
                visit == anchor_visit(*anchor, anchor_started_at_ms, timeline_end_ms),
                sources@.len() == before.len() + visit_pairs(
                    *anchor,
                    frags,
                    anchor_started_at_ms,
                    timeline_end_ms,
                    j as int,
                ).len(),
                sources@.take(before.len() as int) == before,
                forall|k: int|
                    0 <= k < visit_pairs(*anchor, frags, anchor_started_at_ms, timeline_end_ms, j as int).len()
                        ==> source_matches(
                        #[trigger] sources@[before.len() + k],
                        frags[visit_pairs(*anchor, frags, anchor_started_at_ms, timeline_end_ms, j as int)[k].0],
                        participant_user_id,
                        visit_pairs(*anchor, frags, anchor_started_at_ms, timeline_end_ms, j as int)[k].1,
                        anchor_started_at_ms,
                        timeline_end_ms,
                    ),
            decreases source_fragments.len() - j,
        {
            let src = &source_fragments[j];
            match visit {
                Some(v) => {
                    if src.channel_id == anchor.channel_id {
                        let end = match src.end_ms {
                            Some(e) => e,
                            None => v.end_ms,
                        };
                        if let Some(si) = MixInterval::new(src.start_ms, end) {
                            if let Some(overlap) = intersect_mix_intervals(v, si) {
                                let s = source_overlap(
                                    src,
                                    participant_user_id,
                                    overlap,
                                    anchor_started_at_ms,
                                    timeline_end_ms,
                                );
                                sources.push(s);
                                proof {
                                    assert(sources@.take(before.len() as int) =~= before);
                                    let vp = visit_pairs(
                                        *anchor,
                                        frags,
                                        anchor_started_at_ms,
                                        timeline_end_ms,
                                        j + 1,
                                    );
                                    assert(vp[vp.len() - 1] == (j as int, overlap));
                                }
                            }
                        }
                    }
                },
                None => {},
            }
            j = j + 1;
        }
        proof {
            let row = visit_pairs(*anchor, frags, anchor_started_at_ms, timeline_end_ms, frags.len() as int);
            let pairs = anchor_source_pairs(anchor_fragments@, frags, anchor_started_at_ms, timeline_end_ms, i + 1);
            assert(pairs == pairs_before + row);
            let added = sources@.skip(start.len() as int);
            let old_added = before.skip(start.len() as int);
            assert(sources@.take(start.len() as int) =~= start) by {
                assert(before.take(start.len() as int) == start);
                assert forall|k: int| 0 <= k < start.len() implies sources@[k] == start[k] by {
                    assert(sources@.take(before.len() as int)[k] == before[k]);
                    assert(before.take(start.len() as int)[k] == start[k]);
                }
            }
            assert forall|k: int| 0 <= k < pairs.len() implies source_matches(
                #[trigger] added[k],
                frags[pairs[k].0],
                participant_user_id,
                pairs[k].1,
                anchor_started_at_ms,
                timeline_end_ms,
            ) by {
                if k < pairs_before.len() {
                    assert(added[k] == old_added[k]) by {
                        assert(sources@.take(before.len() as int)[start.len() + k] == before[start.len() + k]);
                    }
                    assert(pairs[k] == pairs_before[k]);
                } else {
                    let m = k - pairs_before.len();
                    assert(pairs[k] == row[m]);
                    assert(added[k] == sources@[before.len() + m]);
                }
            }
        }
        i = i + 1;
    }
}

/// A source's stretch of audio as the mix status document describes it.
#[derive(Clone, Debug)]
pub struct ChannelMixSourceSegment {
    pub id: String,
    pub audio_file_id: String,
    pub recording_session_id: Option<String>,
    pub start_ms: i64,
    pub end_ms: i64,
    pub source_offset_ms: i64,
    pub source_duration_ms: i64,
    pub live: bool,
    pub media_url: String,
    pub hls_playlist_url: String,
    pub waveform_url: String,
}

/// `guild/channel/YYYY/MM/stem` of the recording a source comes from.
pub open spec fn source_key_text(src: MixSource) -> Seq<char> {
    crate::names::recording_key_text(
        src.guild_id as int,
        src.channel_id as int,
        src.year as int,
        (src.month as u32) as int,
        src.file_name@,
    )
}

pub open spec fn media_url_spec(src: MixSource) -> Seq<char> {
    match src.recording_session_id {
        Some(session) => "/api/audio/sessions/"@ + crate::text::dec_int(session as int)
            + "/segments/"@ + crate::text::dec_int(src.audio_file_id as int),
        None => "/api/audio/"@ + source_key_text(src),
    }
}

pub open spec fn hls_url_spec(src: MixSource) -> Seq<char> {
    match src.recording_session_id {
        Some(session) => "/api/audio/sessions/"@ + crate::text::dec_int(session as int) + "/live/"@
            + crate::text::dec_int(src.audio_file_id as int) + "/playlist.m3u8"@,
        None => "/api/audio/live/"@ + source_key_text(src) + "/playlist.m3u8"@,
    }
}

/// `seg` describes `src` on a timeline that starts at `anchor_started_at_ms`.
pub open spec fn segment_matches(
    seg: ChannelMixSourceSegment,
    src: MixSource,
    anchor_started_at_ms: i64,
) -> bool {
    &&& seg.id@ == crate::text::dec_int(src.audio_file_id as int) + ":"@ + crate::text::dec_int(
        src.overlap_start_ms as int,
    )
    &&& seg.audio_file_id@ == crate::text::dec_int(src.audio_file_id as int)
    &&& match src.recording_session_id {
        Some(session) => seg.recording_session_id is Some && seg.recording_session_id->0@
            == crate::text::dec_int(session as int),
        None => seg.recording_session_id is None,
    }
    &&& seg.start_ms == crate::text::clamp_i64(src.overlap_start_ms - anchor_started_at_ms)
    &&& seg.end_ms == crate::text::clamp_i64(src.overlap_end_ms - anchor_started_at_ms)
    &&& seg.source_offset_ms == crate::text::clamp_i64(src.overlap_start_ms - src.source_start_ms)
    &&& seg.source_duration_ms == crate::text::clamp_i64(
        src.fragment_end_ms - src.fragment_start_ms,
    )
    &&& seg.live == src.live
    &&& seg.media_url@ == media_url_spec(src)
    &&& seg.hls_playlist_url@ == hls_url_spec(src)
    &&& seg.waveform_url@ == "/api/audio/waveform/"@ + source_key_text(src)
}

fn source_key(source: &MixSource) -> (v: Vec<char>)
    ensures
        v@ == source_key_text(*source),
{
    let k = crate::names::recording_key(
        source.guild_id,
        source.channel_id,
        source.year,
        (source.month as u32) as i64,
        source.file_name.as_str(),
    );
    crate::text::chars_of(k.as_str())
}

/// Describes a source for the status document, its times relative to
/// `anchor_started_at_ms`.
pub fn source_segment(source: &MixSource, anchor_started_at_ms: i64) -> (seg: ChannelMixSourceSegment)
    ensures
        segment_matches(seg, *source, anchor_started_at_ms),
{
    let mut id: Vec<char> = Vec::new();
    push_dec_i64(&mut id, source.audio_file_id);
    let mut file_id: Vec<char> = Vec::new();
    push_dec_i64(&mut file_id, source.audio_file_id);
    push_str(&mut id, ":");
    push_dec_i64(&mut id, source.overlap_start_ms);
    let key = source_key(source);
    let mut media: Vec<char> = Vec::new();
    let mut hls: Vec<char> = Vec::new();
    let session_text = match source.recording_session_id {
        Some(session_id) => {
            let mut st: Vec<char> = Vec::new();
            push_dec_i64(&mut st, session_id);
            push_str(&mut media, "/api/audio/sessions/");
            push_all(&mut media, &st);
            push_str(&mut media, "/segments/");
            push_all(&mut media, &file_id);
            push_str(&mut hls, "/api/audio/sessions/");
            push_all(&mut hls, &st);
            push_str(&mut hls, "/live/");
            push_all(&mut hls, &file_id);
            push_str(&mut hls, "/playlist.m3u8");
            Some(string_of(&st))
        },
        None => {
            push_str(&mut media, "/api/audio/");
            push_all(&mut media, &key);
            push_str(&mut hls, "/api/audio/live/");
            push_all(&mut hls, &key);
            push_str(&mut hls, "/playlist.m3u8");
            None
        },
    };
    let mut waveform: Vec<char> = Vec::new();
    push_str(&mut waveform, "/api/audio/waveform/");
    push_all(&mut waveform, &key);
    let seg = ChannelMixSourceSegment {
        id: string_of(&id),
        audio_file_id: string_of(&file_id),
        recording_session_id: session_text,
        start_ms: crate::text::sat_sub(source.overlap_start_ms, anchor_started_at_ms),
        end_ms: crate::text::sat_sub(source.overlap_end_ms, anchor_started_at_ms),
        source_offset_ms: crate::text::sat_sub(source.overlap_start_ms, source.source_start_ms),
        source_duration_ms: crate::text::sat_sub(source.fragment_end_ms, source.fragment_start_ms),
        live: source.live,
        media_url: string_of(&media),
        hls_playlist_url: string_of(&hls),
        waveform_url: string_of(&waveform),
    };
    proof {
        match source.recording_session_id {
            Some(session) => {
                assert(media@ =~= media_url_spec(*source));
                assert(hls@ =~= hls_url_spec(*source));
            },
            None => {
                assert(media@ =~= media_url_spec(*source));
                assert(hls@ =~= hls_url_spec(*source));
            },
        }
        assert(id@ =~= crate::text::dec_int(source.audio_file_id as int) + ":"@
            + crate::text::dec_int(source.overlap_start_ms as int));
        assert(waveform@ =~= "/api/audio/waveform/"@ + source_key_text(*source));
    }
    seg
}

/// Someone whose recordings take part in a mix.
#[derive(Clone, Debug)]
pub struct ChannelMixParticipant {
    pub user_id: String,
    pub display_name: Option<String>,
    pub session_ids: Vec<String>,
    pub source_count: i32,
}

/// One participant's lane of a mix.
#[derive(Clone, Debug)]
pub struct ChannelMixTrack {
    pub user_id: String,
    pub display_name: Option<String>,
    pub is_anchor: bool,
    pub segments: Vec<ChannelMixSourceSegment>,
}

pub open spec fn opt_view(o: Option<String>) -> Option<Seq<char>> {
    match o {
        Some(s) => Some(s@),
        None => None,
    }
}

/// The order of segments in a lane: by start, then end, then file id text.
pub open spec fn seg_key(src: MixSource, anchor: i64) -> (int, int, Seq<char>) {
    (
        crate::text::clamp_i64(src.overlap_start_ms - anchor) as int,
        crate::text::clamp_i64(src.overlap_end_ms - anchor) as int,
        crate::text::dec_int(src.audio_file_id as int),
    )
}

pub open spec fn key3_le(a: (int, int, Seq<char>), b: (int, int, Seq<char>)) -> bool {
    a.0 < b.0 || (a.0 == b.0 && (a.1 < b.1 || (a.1 == b.1 && crate::order::lex_le(a.2, b.2))))
}

proof fn lemma_key3_total(a: (int, int, Seq<char>), b: (int, int, Seq<char>))
    ensures
        key3_le(a, b) || key3_le(b, a),
{
    crate::order::lemma_lex_total(a.2, b.2);
}

proof fn lemma_key3_trans(a: (int, int, Seq<char>), b: (int, int, Seq<char>), c: (int, int, Seq<char>))
    requires
        key3_le(a, b),
        key3_le(b, c),
    ensures
        key3_le(a, c),
{
    if a.0 == b.0 && b.0 == c.0 && a.1 == b.1 && b.1 == c.1 {
        crate::order::lemma_lex_trans(a.2, b.2, c.2);
    }
}

/// The indices of the sources of `user_id` among the first `n`, in order.
pub open spec fn user_source_indices(sources: Seq<MixSource>, user_id: i64, n: int) -> Seq<usize>
    decreases n,
{
    if n <= 0 {
        Seq::empty()
    } else {
        let prev = user_source_indices(sources, user_id, n - 1);
        if sources[n - 1].participant_user_id == user_id {
            prev.push((n - 1) as usize)
        } else {
            prev
        }
    }
}

/// `order` lists indices of `sources` by lane order.
pub open spec fn sorted_by_seg_key(sources: Seq<MixSource>, order: Seq<usize>, anchor: i64) -> bool {
    forall|a: int, b: int|
        0 <= a < b < order.len() ==> key3_le(
            #[trigger] seg_key(sources[order[a] as int], anchor),
            #[trigger] seg_key(sources[order[b] as int], anchor),
        )
}

/// `segments` is the lane of `user_id`: one segment per source of that user,
/// in lane order.
pub open spec fn lane_of(
    segments: Seq<ChannelMixSourceSegment>,
    sources: Seq<MixSource>,
    user_id: i64,
    anchor: i64,
) -> bool {
    exists|order: Seq<usize>|
        #![trigger order.to_multiset()]
        order.to_multiset() == user_source_indices(sources, user_id, sources.len() as int).to_multiset()
            && sorted_by_seg_key(sources, order, anchor) && segments.len() == order.len() && (
        forall|k: int|
            0 <= k < order.len() ==> segment_matches(
                #[trigger] segments[k],
                sources[order[k] as int],
                anchor,
            ))
}

/// The track `t` is participant `p`'s lane, `p`'s id reading as `user_id`.
pub open spec fn track_matches(
    t: ChannelMixTrack,
    p: ChannelMixParticipant,
    user_id: i64,
    anchor_user_id: Option<i64>,
    sources: Seq<MixSource>,
    timeline_start_ms: i64,
) -> bool {
    &&& t.user_id@ == p.user_id@
    &&& opt_view(t.display_name) == opt_view(p.display_name)
    &&& t.is_anchor == (anchor_user_id == Some(user_id))
    &&& lane_of(t.segments@, sources, user_id, timeline_start_ms)
}

/// The order of lanes: the anchor first, then by user id text.
pub open spec fn track_le(a: ChannelMixTrack, b: ChannelMixTrack) -> bool {
    let ra: int = if a.is_anchor { 0 } else { 1 };
    let rb: int = if b.is_anchor { 0 } else { 1 };
    ra < rb || (ra == rb && crate::order::lex_le(a.user_id@, b.user_id@))
}

proof fn lemma_track_total(a: ChannelMixTrack, b: ChannelMixTrack)
    ensures
        track_le(a, b) || track_le(b, a),
{
    crate::order::lemma_lex_total(a.user_id@, b.user_id@);
}

proof fn lemma_track_trans(a: ChannelMixTrack, b: ChannelMixTrack, c: ChannelMixTrack)
    requires
        track_le(a, b),
        track_le(b, c),
    ensures
        track_le(a, c),
{
    if a.is_anchor == b.is_anchor && b.is_anchor == c.is_anchor {
        crate::order::lemma_lex_trans(a.user_id@, b.user_id@, c.user_id@);
    }
}

fn seg_key_le(sources: &[MixSource], i: usize, j: usize, anchor: i64) -> (r: bool)
    requires
        i < sources@.len(),
        j < sources@.len(),
    ensures
        r == key3_le(seg_key(sources@[i as int], anchor), seg_key(sources@[j as int], anchor)),
{
    let a = &sources[i];
    let b = &sources[j];
    let as_ = crate::text::sat_sub(a.overlap_start_ms, anchor);
    let bs = crate::text::sat_sub(b.overlap_start_ms, anchor);
    if as_ != bs {
        return as_ < bs;
    }
    let ae = crate::text::sat_sub(a.overlap_end_ms, anchor);
    let be = crate::text::sat_sub(b.overlap_end_ms, anchor);
    if ae != be {
        return ae < be;
    }
    let mut ai: Vec<char> = Vec::new();
    push_dec_i64(&mut ai, a.audio_file_id);
    let mut bi: Vec<char> = Vec::new();
    push_dec_i64(&mut bi, b.audio_file_id);
    crate::order::lex_le_chars(&ai, &bi)
}

/// `idx` reordered by lane order; ties keep their order.
fn sort_by_seg_key(sources: &[MixSource], idx: &Vec<usize>, anchor: i64) -> (r: Vec<usize>)
    requires
        forall|k: int| 0 <= k < idx@.len() ==> #[trigger] idx@[k] < sources@.len(),
    ensures
        r@.to_multiset() == idx@.to_multiset(),
        sorted_by_seg_key(sources@, r@, anchor),
        forall|k: int| 0 <= k < r@.len() ==> #[trigger] r@[k] < sources@.len(),
{
    broadcast use vstd::seq_lib::group_to_multiset_ensures;

    let mut out: Vec<usize> = Vec::new();
    let mut k: usize = 0;
    while k < idx.len()
        invariant
            k <= idx@.len(),
            forall|q: int| 0 <= q < idx@.len() ==> #[trigger] idx@[q] < sources@.len(),
            out@.to_multiset() == idx@.take(k as int).to_multiset(),
            sorted_by_seg_key(sources@, out@, anchor),
            forall|q: int| 0 <= q < out@.len() ==> #[trigger] out@[q] < sources@.len(),
        decreases idx.len() - k,
    {
        let x = idx[k];
        let mut p: usize = 0;
        while p < out.len() && seg_key_le(sources, out[p], x, anchor)
            invariant
                p <= out@.len(),
                x < sources@.len(),
                forall|q: int| 0 <= q < out@.len() ==> #[trigger] out@[q] < sources@.len(),
                forall|q: int|
                    0 <= q < p ==> key3_le(
                        #[trigger] seg_key(sources@[out@[q] as int], anchor),
                        seg_key(sources@[x as int], anchor),
                    ),
            decreases out.len() - p,
        {
            p = p + 1;
        }
        let ghost old_out = out@;
        out.insert(p, x);
        proof {
            assert(out@ == old_out.insert(p as int, x));
            vstd::seq_lib::to_multiset_insert(old_out, p as int, x);
            assert(idx@.take(k + 1) =~= idx@.take(k as int).push(x));
            vstd::seq_lib::to_multiset_build(idx@.take(k as int), x);
            let kx = seg_key(sources@[x as int], anchor);
            if p < old_out.len() {
                lemma_key3_total(seg_key(sources@[old_out[p as int] as int], anchor), kx);
            }
            assert forall|a: int, b: int| 0 <= a < b < out@.len() implies key3_le(
                #[trigger] seg_key(sources@[out@[a] as int], anchor),
                #[trigger] seg_key(sources@[out@[b] as int], anchor),
            ) by {
                if b < p {
                    assert(out@[a] == old_out[a] && out@[b] == old_out[b]);
                } else if b == p {
                    assert(out@[a] == old_out[a]);
                } else if a == p {
                    assert(out@[b] == old_out[b - 1]);
                    if b - 1 > p {
                        lemma_key3_trans(
                            kx,
                            seg_key(sources@[old_out[p as int] as int], anchor),
                            seg_key(sources@[old_out[b - 1] as int], anchor),
                        );
                    }
                } else if a < p {
                    assert(out@[a] == old_out[a] && out@[b] == old_out[b - 1]);
                } else {
                    assert(out@[a] == old_out[a - 1] && out@[b] == old_out[b - 1]);
                }
            }
            assert forall|q: int| 0 <= q < out@.len() implies #[trigger] out@[q] < sources@.len() by {
                if q < p {
                    assert(out@[q] == old_out[q]);
                } else if q > p {
                    assert(out@[q] == old_out[q - 1]);
                }
            }
        }
        k = k + 1;
    }
    assert(idx@.take(idx@.len() as int) =~= idx@);
    out
}

pub fn clone_text(s: &String) -> (r: String)
    ensures
        r@ == s@,
{
    let v = chars_of(s.as_str());
    string_of(&v)
}

pub fn clone_opt_text(o: &Option<String>) -> (r: Option<String>)
    ensures
        opt_view(r) == opt_view(*o),
{
    match o {
        Some(s) => Some(clone_text(s)),
        None => None,
    }
}

/// The lane of `user_id` with its segments in lane order.
fn lane_segments(sources: &[MixSource], user_id: i64, timeline_start_ms: i64) -> (r: Vec<
    ChannelMixSourceSegment,
>)
    ensures
        lane_of(r@, sources@, user_id, timeline_start_ms),
{
    let mut idx: Vec<usize> = Vec::new();
    let mut i: usize = 0;
    while i < sources.len()
        invariant
            i <= sources@.len(),
            idx@ == user_source_indices(sources@, user_id, i as int),
            forall|k: int| 0 <= k < idx@.len() ==> #[trigger] idx@[k] < i,
        decreases sources.len() - i,
    {
        if sources[i].participant_user_id == user_id {
            idx.push(i);
        }
        i = i + 1;
    }
    let order = sort_by_seg_key(sources, &idx, timeline_start_ms);
    let mut segs: Vec<ChannelMixSourceSegment> = Vec::new();
    let mut k: usize = 0;
    while k < order.len()
        invariant
            k <= order@.len(),
            forall|q: int| 0 <= q < order@.len() ==> #[trigger] order@[q] < sources@.len(),
            segs@.len() == k,
            forall|q: int|
                0 <= q < k ==> segment_matches(
                    #[trigger] segs@[q],
                    sources@[order@[q] as int],
                    timeline_start_ms,
                ),
        decreases order.len() - k,
    {
        let seg = source_segment(&sources[order[k]], timeline_start_ms);
        segs.push(seg);
        k = k + 1;
    }
    assert(order@.to_multiset() == user_source_indices(
        sources@,
        user_id,
        sources@.len() as int,
    ).to_multiset());
    segs
}

fn track_before(t: &ChannelMixTrack, n: &ChannelMixTrack) -> (r: bool)
    ensures
        r == track_le(*t, *n),
{
    let rt: u8 = if t.is_anchor { 0 } else { 1 };
    let rn: u8 = if n.is_anchor { 0 } else { 1 };
    rt < rn || (rt == rn && crate::order::lex_le_chars(
        &chars_of(t.user_id.as_str()),
        &chars_of(n.user_id.as_str()),
    ))
}

/// Inserts `track` after every lane that sorts before or equal to it, and
/// returns where it went.
fn insert_track_sorted(tracks: &mut Vec<ChannelMixTrack>, track: ChannelMixTrack) -> (p: Ghost<int>)
    requires
        forall|a: int, b: int|
            0 <= a < b < old(tracks)@.len() ==> track_le(
                #[trigger] old(tracks)@[a],
                #[trigger] old(tracks)@[b],
            ),
    ensures
        0 <= p@ <= old(tracks)@.len(),
        final(tracks)@ == old(tracks)@.insert(p@, track),
        forall|a: int, b: int|
            0 <= a < b < final(tracks)@.len() ==> track_le(
                #[trigger] final(tracks)@[a],
                #[trigger] final(tracks)@[b],
            ),
{
    let mut p: usize = 0;
    while p < tracks.len() && track_before(&tracks[p], &track)
        invariant
            p <= tracks@.len(),
            forall|q: int| 0 <= q < p ==> track_le(#[trigger] tracks@[q], track),
        decreases tracks.len() - p,
    {
        p = p + 1;
    }
    let ghost old_tracks = tracks@;
    tracks.insert(p, track);
    proof {
        if p < old_tracks.len() {
            lemma_track_total(old_tracks[p as int], track);
        }
        assert forall|a: int, b: int| 0 <= a < b < tracks@.len() implies track_le(
            #[trigger] tracks@[a],
            #[trigger] tracks@[b],
        ) by {
            if b < p {
                assert(tracks@[a] == old_tracks[a] && tracks@[b] == old_tracks[b]);
            } else if b == p {
                assert(tracks@[a] == old_tracks[a]);
            } else if a == p {
                assert(tracks@[b] == old_tracks[b - 1]);
                if b - 1 > p {
                    lemma_track_trans(track, old_tracks[p as int], old_tracks[b - 1]);
                }
            } else if a < p {
                assert(tracks@[a] == old_tracks[a] && tracks@[b] == old_tracks[b - 1]);
            } else {
                assert(tracks@[a] == old_tracks[a - 1] && tracks@[b] == old_tracks[b - 1]);
            }
        }
    }
    Ghost(p as int)
}

proof fn lemma_tracks_after_insert(
    old_tracks: Seq<ChannelMixTrack>,
    tracks: Seq<ChannelMixTrack>,
    p: int,
    track: ChannelMixTrack,
    ps: Seq<ChannelMixParticipant>,
    i: int,
    anchor_user_id: Option<i64>,
    sources: Seq<MixSource>,
    timeline_start_ms: i64,
)
    requires
        0 <= i < ps.len(),
        0 <= p <= old_tracks.len(),
        tracks == old_tracks.insert(p, track),
        crate::text::parse_i64_spec(ps[i].user_id@) is Some,
        track_matches(
            track,
            ps[i],
            crate::text::parse_i64_spec(ps[i].user_id@)->0,
            anchor_user_id,
            sources,
            timeline_start_ms,
        ),
        forall|k: int|
            0 <= k < old_tracks.len() ==> track_of_some_participant(
                #[trigger] old_tracks[k],
                ps,
                i,
                anchor_user_id,
                sources,
                timeline_start_ms,
            ),
        forall|j: int|
            0 <= j < i && (crate::text::parse_i64_spec(#[trigger] ps[j].user_id@) is Some)
                ==> exists|k: int|
                0 <= k < old_tracks.len() && track_matches(
                    #[trigger] old_tracks[k],
                    ps[j],
                    crate::text::parse_i64_spec(ps[j].user_id@)->0,
                    anchor_user_id,
                    sources,
                    timeline_start_ms,
                ),
    ensures
        forall|k: int|
            0 <= k < tracks.len() ==> track_of_some_participant(
                #[trigger] tracks[k],
                ps,
                i + 1,
                anchor_user_id,
                sources,
                timeline_start_ms,
            ),
        forall|j: int|
            0 <= j < i + 1 && (crate::text::parse_i64_spec(#[trigger] ps[j].user_id@) is Some)
                ==> exists|k: int|
                0 <= k < tracks.len() && track_matches(
                    #[trigger] tracks[k],
                    ps[j],
                    crate::text::parse_i64_spec(ps[j].user_id@)->0,
                    anchor_user_id,
                    sources,
                    timeline_start_ms,
                ),
{
    assert forall|k: int| 0 <= k < tracks.len() implies track_of_some_participant(
        #[trigger] tracks[k],
        ps,
        i + 1,
        anchor_user_id,
        sources,
        timeline_start_ms,
    ) by {
        if k == p {
            assert(tracks[k] == track);
        } else {
            let kk = if k < p {
                k
            } else {
                k - 1
            };
            assert(tracks[k] == old_tracks[kk]);
            assert(track_of_some_participant(
                old_tracks[kk],
                ps,
                i,
                anchor_user_id,
                sources,
                timeline_start_ms,
            ));
        }
    }
    assert forall|j: int|
        0 <= j < i + 1 && (crate::text::parse_i64_spec(#[trigger] ps[j].user_id@)
            is Some) implies exists|k: int|
        0 <= k < tracks.len() && track_matches(
            #[trigger] tracks[k],
            ps[j],
            crate::text::parse_i64_spec(ps[j].user_id@)->0,
            anchor_user_id,
            sources,
            timeline_start_ms,
        ) by {
        if j == i {
            assert(tracks[p] == track);
        } else {
            let k = choose|k: int|
                0 <= k < old_tracks.len() && track_matches(
                    #[trigger] old_tracks[k],
                    ps[j],
                    crate::text::parse_i64_spec(ps[j].user_id@)->0,
                    anchor_user_id,
                    sources,
                    timeline_start_ms,
                );
            if k < p {
                assert(tracks[k] == old_tracks[k]);
            } else {
                assert(tracks[k + 1] == old_tracks[k]);
            }
        }
    }
}

/// The participants among the first `n` whose user id reads as a number.
pub open spec fn parseable_count(ps: Seq<ChannelMixParticipant>, n: int) -> nat
    decreases n,
{
    if n <= 0 {
        0
    } else {
        parseable_count(ps, n - 1) + if crate::text::parse_i64_spec(ps[n - 1].user_id@) is Some {
            1nat
        } else {
            0nat
        }
    }
}

/// `t` is the lane of one of the first `n` participants.
pub open spec fn track_of_some_participant(
    t: ChannelMixTrack,
    ps: Seq<ChannelMixParticipant>,
    n: int,
    anchor_user_id: Option<i64>,
    sources: Seq<MixSource>,
    timeline_start_ms: i64,
) -> bool {
    exists|j: int|
        0 <= j < n && crate::text::parse_i64_spec(#[trigger] ps[j].user_id@) is Some && track_matches(
            t,
            ps[j],
            crate::text::parse_i64_spec(ps[j].user_id@)->0,
            anchor_user_id,
            sources,
            timeline_start_ms,
        )
}

/// One lane per participant whose id reads as a number: the anchor's lane
/// first, then by user id text; each lane holds that participant's sources
/// as segments relative to `timeline_start_ms`, by start, end and file id.
pub fn build_tracks(
    participants: &[ChannelMixParticipant],
    sources: &[MixSource],
    anchor_user_id: Option<i64>,
    timeline_start_ms: i64,
) -> (r: Vec<ChannelMixTrack>)
    ensures
        r@.len() == parseable_count(participants@, participants@.len() as int),
        forall|a: int, b: int| 0 <= a < b < r@.len() ==> track_le(#[trigger] r@[a], #[trigger] r@[b]),
        forall|k: int|
            0 <= k < r@.len() ==> track_of_some_participant(
                #[trigger] r@[k],
                participants@,
                participants@.len() as int,
                anchor_user_id,
                sources@,
                timeline_start_ms,
            ),
        forall|j: int|
            0 <= j < participants@.len() && (crate::text::parse_i64_spec(
                #[trigger] participants@[j].user_id@,
            ) is Some) ==> exists|k: int|
                0 <= k < r@.len() && track_matches(
                    #[trigger] r@[k],
                    participants@[j],
                    crate::text::parse_i64_spec(participants@[j].user_id@)->0,
                    anchor_user_id,
                    sources@,
                    timeline_start_ms,
                ),
{
    let mut tracks: Vec<ChannelMixTrack> = Vec::new();
    let mut i: usize = 0;
    while i < participants.len()
        invariant
            i <= participants@.len(),
            tracks@.len() == parseable_count(participants@, i as int),
            forall|a: int, b: int|
                0 <= a < b < tracks@.len() ==> track_le(#[trigger] tracks@[a], #[trigger] tracks@[b]),
            forall|k: int|
                0 <= k < tracks@.len() ==> track_of_some_participant(
                    #[trigger] tracks@[k],
                    participants@,
                    i as int,
                    anchor_user_id,
                    sources@,
                    timeline_start_ms,
                ),
            forall|j: int|
                0 <= j < i && (crate::text::parse_i64_spec(#[trigger] participants@[j].user_id@)
                    is Some) ==> exists|k: int|
                    0 <= k < tracks@.len() && track_matches(
                        #[trigger] tracks@[k],
                        participants@[j],
                        crate::text::parse_i64_spec(participants@[j].user_id@)->0,
                        anchor_user_id,
                        sources@,
                        timeline_start_ms,
                    ),
        decreases participants.len() - i,
    {
        let participant = &participants[i];
        let id_chars = chars_of(participant.user_id.as_str());
        match crate::text::parse_i64(&id_chars) {
            None => {
                proof {
                    assert forall|k: int| 0 <= k < tracks@.len() implies track_of_some_participant(
                        #[trigger] tracks@[k],
                        participants@,
                        i + 1,
                        anchor_user_id,
                        sources@,
                        timeline_start_ms,
                    ) by {
                        let j = choose|j: int|
                            0 <= j < i && crate::text::parse_i64_spec(
                                #[trigger] participants@[j].user_id@,
                            ) is Some && track_matches(
                                tracks@[k],
                                participants@[j],
                                crate::text::parse_i64_spec(participants@[j].user_id@)->0,
                                anchor_user_id,
                                sources@,
                                timeline_start_ms,
                            );
                    }
                }
            },
            Some(user_id) => {
                let segments = lane_segments(sources, user_id, timeline_start_ms);
                let is_anchor = match anchor_user_id {
                    Some(a) => a == user_id,
                    None => false,
                };
                let track = ChannelMixTrack {
                    user_id: clone_text(&participant.user_id),
                    display_name: clone_opt_text(&participant.display_name),
                    is_anchor,
                    segments,
                };
                proof {
                    assert(track_matches(
                        track,
                        participants@[i as int],
                        user_id,
                        anchor_user_id,
                        sources@,
                        timeline_start_ms,
                    ));
                }
                let ghost old_tracks = tracks@;
                let Ghost(p) = insert_track_sorted(&mut tracks, track);
                proof {
                    lemma_tracks_after_insert(
                        old_tracks,
                        tracks@,
                        p,
                        track,
                        participants@,
                        i as int,
                        anchor_user_id,
                        sources@,
                        timeline_start_ms,
                    );
                }
            },
        }
        i = i + 1;
    }
    tracks
}

} // verus!
