//! Idempotent silence-removal requests: one render per recording at a
//! time, each client request key bound to the recording it first named,
//! and finished results replayed for a day.

use vstd::prelude::*;
use crate::errors::AppError;
use crate::mix_plan::kept;
use crate::text::{chars_equal, chars_of, string_of};

verus! {

/// How long a finished request's result is replayed, in milliseconds.
pub const IDEMPOTENCY_TTL_MS: u64 = 86_400_000;

/// Why a silence-removal render failed.
#[derive(Debug)]
pub enum SilenceJobFailure {
    Ffmpeg(String),
    Database,
    Io(String),
}

/// The kind of a failure, for stating what is replayed.
#[derive(Clone, Copy, Debug, PartialEq, Eq, Structural)]
pub enum FailureKind {
    Ffmpeg,
    Database,
    Io,
}

pub open spec fn failure_view(f: SilenceJobFailure) -> (FailureKind, Seq<char>) {
    match f {
        SilenceJobFailure::Ffmpeg(m) => (FailureKind::Ffmpeg, m@),
        SilenceJobFailure::Database => (FailureKind::Database, Seq::empty()),
        SilenceJobFailure::Io(m) => (FailureKind::Io, m@),
    }
}

/// The outcome of a render: `Ok(())` or why it failed.
pub type SilenceJobResult = Result<(), SilenceJobFailure>;

pub type ResultView = Option<(FailureKind, Seq<char>)>;

pub open spec fn result_view(r: SilenceJobResult) -> ResultView {
    match r {
        Ok(_) => None,
        Err(f) => Some(failure_view(f)),
    }
}

impl SilenceJobFailure {
    /// The error a client sees for this failure: FFmpeg's message, an
    /// internal error for the database, an I/O error with its text.
    pub fn into_app_error(self) -> (e: AppError)
        ensures
            match self {
                SilenceJobFailure::Ffmpeg(m) => e == AppError::FfmpegError(m),
                SilenceJobFailure::Database => e == AppError::InternalError,
                SilenceJobFailure::Io(m) => e == AppError::IoError(m),
            },
    {
        match self {
            SilenceJobFailure::Ffmpeg(m) => AppError::FfmpegError(m),
            SilenceJobFailure::Database => AppError::InternalError,
            SilenceJobFailure::Io(m) => AppError::IoError(m),
        }
    }
}

fn copy_text(s: &String) -> (r: String)
    ensures
        r@ == s@,
{
    string_of(&chars_of(s.as_str()))
}

/// A copy of a render outcome.
pub fn copy_result(r: &SilenceJobResult) -> (c: SilenceJobResult)
    ensures
        result_view(c) == result_view(*r),
{
    match r {
        Ok(()) => Ok(()),
        Err(SilenceJobFailure::Ffmpeg(m)) => Err(SilenceJobFailure::Ffmpeg(copy_text(m))),
        Err(SilenceJobFailure::Database) => Err(SilenceJobFailure::Database),
        Err(SilenceJobFailure::Io(m)) => Err(SilenceJobFailure::Io(copy_text(m))),
    }
}

/// What is known of one client request: the recording it named, and once
/// the render finished, its outcome and when (milliseconds on the
/// server's monotonic clock).
#[derive(Debug)]
pub enum IdempotencyRecord {
    InProgress { fingerprint: String },
    Completed { fingerprint: String, result: SilenceJobResult, completed_at_ms: u64 },
}

pub type RecordView = (Seq<char>, Option<(ResultView, u64)>);

pub open spec fn record_view(r: IdempotencyRecord) -> RecordView {
    match r {
        IdempotencyRecord::InProgress { fingerprint } => (fingerprint@, None),
        IdempotencyRecord::Completed { fingerprint, result, completed_at_ms } => (
            fingerprint@,
            Some((result_view(result), completed_at_ms)),
        ),
    }
}

impl IdempotencyRecord {
    /// The recording the request named.
    pub fn fingerprint(&self) -> (f: &str)
        ensures
            f@ == record_view(*self).0,
    {
        match self {
            IdempotencyRecord::InProgress { fingerprint } => fingerprint.as_str(),
            IdempotencyRecord::Completed { fingerprint, .. } => fingerprint.as_str(),
        }
    }
}

/// A client request: who sent it under which key, and its record.
#[derive(Debug)]
pub struct RequestEntry {
    pub user_id: i64,
    pub key: String,
    pub record: IdempotencyRecord,
}

pub type EntryView = (i64, Seq<char>, RecordView);

pub open spec fn entry_view(e: RequestEntry) -> EntryView {
    (e.user_id, e.key@, record_view(e.record))
}

pub open spec fn entries_view(s: Seq<RequestEntry>) -> Seq<EntryView> {
    s.map_values(|e: RequestEntry| entry_view(e))
}

pub open spec fn texts_view(s: Seq<String>) -> Seq<Seq<char>> {
    s.map_values(|t: String| t@)
}

/// The jobs state: the recordings being rendered, and the requests seen.
#[derive(Debug)]
pub struct SilenceJobState {
    active: Vec<String>,
    requests: Vec<RequestEntry>,
}

pub type StateView = (Seq<Seq<char>>, Seq<EntryView>);

/// No recording is active twice and no (user, key) pair is recorded twice.
pub open spec fn state_wf(s: StateView) -> bool {
    &&& s.0.no_duplicates()
    &&& forall|a: int, b: int|
        0 <= a < b < s.1.len() ==> !((#[trigger] s.1[a]).0 == (#[trigger] s.1[b]).0 && s.1[a].1 == s.1[b].1)
}

/// A finished request whose result is at least a day old at `now_ms`.
pub open spec fn expired(e: EntryView, now_ms: u64) -> bool {
    match e.2.1 {
        Some(done) => now_ms >= done.1 && now_ms - done.1 >= IDEMPOTENCY_TTL_MS,
        None => false,
    }
}

/// The requests left once the expired ones are forgotten.
pub open spec fn pruned(reqs: Seq<EntryView>, now_ms: u64) -> Seq<EntryView> {
    kept(reqs, |e: EntryView| !expired(e, now_ms))
}

/// The position of the request `(user, key)`, if recorded.
pub open spec fn find_request(reqs: Seq<EntryView>, user: i64, key: Seq<char>) -> Option<int> {
    if exists|i: int| 0 <= i < reqs.len() && (#[trigger] reqs[i]).0 == user && reqs[i].1 == key {
        Some(choose|i: int| 0 <= i < reqs.len() && (#[trigger] reqs[i]).0 == user && reqs[i].1 == key)
    } else {
        None
    }
}

/// What a claim leads to.
#[derive(Clone, Copy, Debug, PartialEq, Eq, Structural)]
pub enum ClaimKind {
    /// Render the recording.
    Start,
    /// A render of the recording is under way; wait for its result.
    Wait,
    /// The request already finished; answer with its result.
    Replay,
    /// The key was used for another recording.
    Conflict,
    /// The request is recorded as in progress but no render is active.
    Unavailable,
}

pub type ClaimView = (ClaimKind, ResultView);

/// A claim by `user` under `key` for recording `fp` at `now_ms`: expired
/// results are forgotten first; a known request must name the same
/// recording, and then waits on its render or replays its result; a new
/// request joins the active render of its recording or starts one.
pub open spec fn claim_spec(s: StateView, user: i64, key: Seq<char>, fp: Seq<char>, now_ms: u64) -> (
    StateView,
    ClaimView,
) {
    let reqs = pruned(s.1, now_ms);
    match find_request(reqs, user, key) {
        Some(i) => {
            let rec = reqs[i].2;
            let out = if rec.0 != fp {
                (ClaimKind::Conflict, None)
            } else {
                match rec.1 {
                    None => if s.0.contains(fp) {
                        (ClaimKind::Wait, None)
                    } else {
                        (ClaimKind::Unavailable, None)
                    },
                    Some(done) => (ClaimKind::Replay, done.0),
                }
            };
            ((s.0, reqs), out)
        },
        None => {
            let entry = (user, key, (fp, None));
            if s.0.contains(fp) {
                ((s.0, reqs.push(entry)), (ClaimKind::Wait, None))
            } else {
                ((s.0.push(fp), reqs.push(entry)), (ClaimKind::Start, None))
            }
        },
    }
}

/// The end of the render of `fp` with outcome `r` at `now_ms`: the
/// recording is no longer active, and every request waiting on it is
/// finished with `r`.
pub open spec fn finish_spec(s: StateView, fp: Seq<char>, r: ResultView, now_ms: u64) -> StateView {
    (
        kept(s.0, |a: Seq<char>| a != fp),
        s.1.map_values(
            |e: EntryView|
                if e.2.0 == fp && e.2.1 is None {
                    (e.0, e.1, (fp, Some((r, now_ms))))
                } else {
                    e
                },
        ),
    )
}

impl SilenceJobState {
    pub closed spec fn view(&self) -> StateView {
        (texts_view(self.active@), entries_view(self.requests@))
    }

    /// The state of a server that has seen nothing.
    pub fn new() -> (s: SilenceJobState)
        ensures
            s.view() == (Seq::<Seq<char>>::empty(), Seq::<EntryView>::empty()),
    {
        let s = SilenceJobState { active: Vec::new(), requests: Vec::new() };
        assert(s.view().0 =~= Seq::<Seq<char>>::empty());
        assert(s.view().1 =~= Seq::<EntryView>::empty());
        s
    }
}

/// Everything `kept` keeps comes from the sequence and passes the test.
pub proof fn lemma_kept_subset<T>(s: Seq<T>, keep: spec_fn(T) -> bool, x: T)
    requires
        kept(s, keep).contains(x),
    ensures
        s.contains(x),
        keep(x),
    decreases s.len(),
{
    if s.len() > 0 {
        let rest = kept(s.drop_first(), keep);
        if keep(s[0]) && x == s[0] {
            assert(s[0] == x);
        } else {
            if keep(s[0]) {
                let i = choose|i: int| 0 <= i < kept(s, keep).len() && kept(s, keep)[i] == x;
                assert(kept(s, keep) == seq![s[0]] + rest);
                assert(i > 0);
                assert(rest[i - 1] == x);
            }
            assert(rest.contains(x));
            lemma_kept_subset(s.drop_first(), keep, x);
            let j = choose|j: int| 0 <= j < s.drop_first().len() && s.drop_first()[j] == x;
            assert(s[j + 1] == x);
        }
    }
}

pub open spec fn keys_distinct(s: Seq<EntryView>) -> bool {
    forall|a: int, b: int|
        0 <= a < b < s.len() ==> !((#[trigger] s[a]).0 == (#[trigger] s[b]).0 && s[a].1 == s[b].1)
}

/// Forgetting requests keeps the keys distinct.
pub proof fn lemma_kept_keys_distinct(s: Seq<EntryView>, keep: spec_fn(EntryView) -> bool)
    requires
        keys_distinct(s),
    ensures
        keys_distinct(kept(s, keep)),
    decreases s.len(),
{
    if s.len() > 0 {
        let rest = s.drop_first();
        assert(keys_distinct(rest)) by {
            assert forall|a: int, b: int| 0 <= a < b < rest.len() implies !((#[trigger] rest[a]).0 == (#[trigger] rest[b]).0
                && rest[a].1 == rest[b].1) by {
                assert(rest[a] == s[a + 1] && rest[b] == s[b + 1]);
            }
        }
        lemma_kept_keys_distinct(rest, keep);
        let kr = kept(rest, keep);
        if keep(s[0]) {
            let k = kept(s, keep);
            assert(k == seq![s[0]] + kr);
            assert forall|a: int, b: int| 0 <= a < b < k.len() implies !((#[trigger] k[a]).0 == (#[trigger] k[b]).0
                && k[a].1 == k[b].1) by {
                if a == 0 {
                    assert(k[b] == kr[b - 1]);
                    assert(kr.contains(kr[b - 1]));
                    lemma_kept_subset(rest, keep, kr[b - 1]);
                    let j = choose|j: int| 0 <= j < rest.len() && rest[j] == kr[b - 1];
                    assert(s[j + 1] == k[b]);
                } else {
                    assert(k[a] == kr[a - 1] && k[b] == kr[b - 1]);
                }
            }
        }
    }
}

/// Forgetting values keeps a sequence free of duplicates.
pub proof fn lemma_kept_no_dup<T>(s: Seq<T>, keep: spec_fn(T) -> bool)
    requires
        s.no_duplicates(),
    ensures
        kept(s, keep).no_duplicates(),
    decreases s.len(),
{
    if s.len() > 0 {
        let rest = s.drop_first();
        assert(rest.no_duplicates()) by {
            assert forall|a: int, b: int| 0 <= a < rest.len() && 0 <= b < rest.len() && a != b implies rest[a] != rest[b] by {
                assert(rest[a] == s[a + 1] && rest[b] == s[b + 1]);
            }
        }
        lemma_kept_no_dup(rest, keep);
        let kr = kept(rest, keep);
        if keep(s[0]) {
            let k = kept(s, keep);
            assert(k == seq![s[0]] + kr);
            assert forall|a: int, b: int| 0 <= a < k.len() && 0 <= b < k.len() && a != b implies k[a] != k[b] by {
                if a == 0 || b == 0 {
                    let o = if a == 0 {
                        b
                    } else {
                        a
                    };
                    assert(k[o] == kr[o - 1]);
                    assert(kr.contains(kr[o - 1]));
                    lemma_kept_subset(rest, keep, kr[o - 1]);
                    let j = choose|j: int| 0 <= j < rest.len() && rest[j] == kr[o - 1];
                    assert(s[j + 1] == k[o]);
                } else {
                    assert(k[a] == kr[a - 1] && k[b] == kr[b - 1]);
                }
            }
        }
    }
}

/// A claim as the caller acts on it.
#[derive(Debug)]
pub enum SilenceJobClaim {
    Start,
    Wait,
    Replay(SilenceJobResult),
}

/// The view of a claim's answer; `None` for an error a claim never gives.
pub open spec fn claim_result_view(r: Result<SilenceJobClaim, AppError>) -> Option<ClaimView> {
    match r {
        Ok(SilenceJobClaim::Start) => Some((ClaimKind::Start, None)),
        Ok(SilenceJobClaim::Wait) => Some((ClaimKind::Wait, None)),
        Ok(SilenceJobClaim::Replay(res)) => Some((ClaimKind::Replay, result_view(res))),
        Err(AppError::Conflict(m)) => if m@ == "Idempotency key was already used for another request"@ {
            Some((ClaimKind::Conflict, None))
        } else {
            None
        },
        Err(AppError::ServiceUnavailable(m)) => if m@ == "processing state unavailable; retry"@ {
            Some((ClaimKind::Unavailable, None))
        } else {
            None
        },
        Err(_) => None,
    }
}

fn is_expired(e: &RequestEntry, now_ms: u64) -> (b: bool)
    ensures
        b == expired(entry_view(*e), now_ms),
{
    match &e.record {
        IdempotencyRecord::Completed { completed_at_ms, .. } => now_ms >= *completed_at_ms && now_ms
            - *completed_at_ms >= IDEMPOTENCY_TTL_MS,
        IdempotencyRecord::InProgress { .. } => false,
    }
}

fn active_has(active: &Vec<String>, fp: &str) -> (b: bool)
    ensures
        b == texts_view(active@).contains(fp@),
{
    let f = chars_of(fp);
    let mut i: usize = 0;
    while i < active.len()
        invariant
            i <= active@.len(),
            f@ == fp@,
            forall|j: int| 0 <= j < i ==> texts_view(active@)[j] != fp@,
        decreases active.len() - i,
    {
        if chars_equal(&chars_of(active[i].as_str()), &f) {
            assert(texts_view(active@)[i as int] == fp@);
            return true;
        }
        i = i + 1;
    }
    false
}

fn find_entry(reqs: &Vec<RequestEntry>, user_id: i64, key: &Vec<char>) -> (r: Option<usize>)
    ensures
        match r {
            Some(i) => i < reqs@.len() && entries_view(reqs@)[i as int].0 == user_id && entries_view(reqs@)[i as int].1
                == key@,
            None => forall|j: int|
                0 <= j < reqs@.len() ==> !((#[trigger] entries_view(reqs@)[j]).0 == user_id
                    && entries_view(reqs@)[j].1 == key@),
        },
{
    let mut i: usize = 0;
    while i < reqs.len()
        invariant
            i <= reqs@.len(),
            forall|j: int|
                0 <= j < i ==> !((#[trigger] entries_view(reqs@)[j]).0 == user_id && entries_view(reqs@)[j].1 == key@),
        decreases reqs.len() - i,
    {
        if reqs[i].user_id == user_id && chars_equal(&chars_of(reqs[i].key.as_str()), key) {
            return Some(i);
        }
        i = i + 1;
    }
    None
}

impl SilenceJobState {
    fn prune(&mut self, now_ms: u64)
        ensures
            final(self).view() == (old(self).view().0, pruned(old(self).view().1, now_ms)),
    {
        let ghost keep = |e: EntryView| !expired(e, now_ms);
        let ghost all = entries_view(self.requests@);
        let mut rest: Vec<RequestEntry> = Vec::new();
        std::mem::swap(&mut rest, &mut self.requests);
        let mut out: Vec<RequestEntry> = Vec::new();
        while rest.len() > 0
            invariant
                entries_view(out@) + kept(entries_view(rest@), keep) == kept(all, keep),
                keep == (|e: EntryView| !expired(e, now_ms)),
            decreases rest@.len(),
        {
            let ghost before = rest@;
            let e = rest.remove(0);
            assert(entries_view(before).drop_first() =~= entries_view(rest@));
            assert(entries_view(before)[0] == entry_view(e));
            let ghost prev = out@;
            if !is_expired(&e, now_ms) {
                out.push(e);
                assert(entries_view(out@) =~= entries_view(prev) + seq![entry_view(e)]);
                assert(entries_view(out@) + kept(entries_view(rest@), keep) =~= kept(all, keep));
            }
        }
        assert(kept(entries_view(rest@), keep) =~= Seq::<EntryView>::empty()) by {
            assert(entries_view(rest@).len() == 0);
        }
        assert(entries_view(out@) =~= kept(all, keep));
        self.requests = out;
    }

    /// Claims the render of recording `fingerprint` for the request `key`
    /// of `user_id` at `now_ms`.
    pub fn claim(&mut self, user_id: i64, key: String, fingerprint: &str, now_ms: u64) -> (r: Result<
        SilenceJobClaim,
        AppError,
    >)
        requires
            state_wf(old(self).view()),
        ensures
            state_wf(final(self).view()),
            final(self).view() == claim_spec(old(self).view(), user_id, key@, fingerprint@, now_ms).0,
            claim_result_view(r) == Some(claim_spec(old(self).view(), user_id, key@, fingerprint@, now_ms).1),
    {
        let ghost s0 = self.view();
        self.prune(now_ms);
        proof {
            lemma_kept_keys_distinct(s0.1, |e: EntryView| !expired(e, now_ms));
        }
        let kc = chars_of(key.as_str());
        let found = find_entry(&self.requests, user_id, &kc);
        let ghost reqs = entries_view(self.requests@);
        match found {
            Some(idx) => {
                proof {
                    assert(reqs[idx as int].0 == user_id && reqs[idx as int].1 == key@);
                    let c = find_request(reqs, user_id, key@)->0;
                    assert(c == idx) by {
                        if c != idx {
                            if c < idx {
                                assert(!(reqs[c].0 == reqs[idx as int].0 && reqs[c].1 == reqs[idx as int].1));
                            } else {
                                assert(!(reqs[idx as int].0 == reqs[c].0 && reqs[idx as int].1 == reqs[c].1));
                            }
                        }
                    }
                }
                let rec = &self.requests[idx].record;
                if !chars_equal(&chars_of(rec.fingerprint()), &chars_of(fingerprint)) {
                    return Err(AppError::Conflict(
                        string_of(&chars_of("Idempotency key was already used for another request")),
                    ));
                }
                match rec {
                    IdempotencyRecord::InProgress { .. } => {
                        if active_has(&self.active, fingerprint) {
                            Ok(SilenceJobClaim::Wait)
                        } else {
                            Err(AppError::ServiceUnavailable(
                                string_of(&chars_of("processing state unavailable; retry")),
                            ))
                        }
                    },
                    IdempotencyRecord::Completed { result, .. } => Ok(SilenceJobClaim::Replay(copy_result(result))),
                }
            },
            None => {
                proof {
                    assert(find_request(reqs, user_id, key@) is None);
                }
                let entry = RequestEntry {
                    user_id,
                    key,
                    record: IdempotencyRecord::InProgress { fingerprint: string_of(&chars_of(fingerprint)) },
                };
                let ghost prev_reqs = self.requests@;
                let ghost prev_active = self.active@;
                let has = active_has(&self.active, fingerprint);
                self.requests.push(entry);
                proof {
                    assert(entries_view(self.requests@) =~= reqs.push((user_id, key@, (fingerprint@, None))));
                    assert(keys_distinct(entries_view(self.requests@))) by {
                        let n = entries_view(self.requests@);
                        assert forall|a: int, b: int| 0 <= a < b < n.len() implies !((#[trigger] n[a]).0
                            == (#[trigger] n[b]).0 && n[a].1 == n[b].1) by {
                            if b == reqs.len() {
                                assert(n[a] == reqs[a]);
                            } else {
                                assert(n[a] == reqs[a] && n[b] == reqs[b]);
                            }
                        }
                    }
                }
                if has {
                    Ok(SilenceJobClaim::Wait)
                } else {
                    self.active.push(string_of(&chars_of(fingerprint)));
                    proof {
                        assert(texts_view(self.active@) =~= texts_view(prev_active).push(fingerprint@));
                        let a = texts_view(self.active@);
                        assert forall|x: int, y: int| 0 <= x < a.len() && 0 <= y < a.len() && x != y implies a[x]
                            != a[y] by {
                            if x == a.len() - 1 {
                                assert(a[y] == texts_view(prev_active)[y]);
                                if texts_view(prev_active)[y] == fingerprint@ {
                                    assert(texts_view(prev_active).contains(fingerprint@));
                                }
                            } else if y == a.len() - 1 {
                                assert(a[x] == texts_view(prev_active)[x]);
                                if texts_view(prev_active)[x] == fingerprint@ {
                                    assert(texts_view(prev_active).contains(fingerprint@));
                                }
                            } else {
                                assert(a[x] == texts_view(prev_active)[x] && a[y] == texts_view(prev_active)[y]);
                            }
                        }
                    }
                    Ok(SilenceJobClaim::Start)
                }
            },
        }
    }

    /// Ends the render of `fingerprint` with `result` at `now_ms`.
    pub fn finish(&mut self, fingerprint: &str, result: &SilenceJobResult, now_ms: u64)
        requires
            state_wf(old(self).view()),
        ensures
            state_wf(final(self).view()),
            final(self).view() == finish_spec(old(self).view(), fingerprint@, result_view(*result), now_ms),
    {
        let ghost s0 = self.view();
        let ghost keep = |a: Seq<char>| a != fingerprint@;
        let fc = chars_of(fingerprint);
        // The recording is no longer active.
        let mut rest: Vec<String> = Vec::new();
        std::mem::swap(&mut rest, &mut self.active);
        let mut active: Vec<String> = Vec::new();
        while rest.len() > 0
            invariant
                texts_view(active@) + kept(texts_view(rest@), keep) == kept(s0.0, keep),
                keep == (|a: Seq<char>| a != fingerprint@),
                fc@ == fingerprint@,
            decreases rest@.len(),
        {
            let ghost before = rest@;
            let a = rest.remove(0);
            assert(texts_view(before).drop_first() =~= texts_view(rest@));
            assert(texts_view(before)[0] == a@);
            let ghost prev = active@;
            if !chars_equal(&chars_of(a.as_str()), &fc) {
                active.push(a);
                assert(texts_view(active@) =~= texts_view(prev) + seq![a@]);
                assert(texts_view(active@) + kept(texts_view(rest@), keep) =~= kept(s0.0, keep));
            }
        }
        assert(texts_view(rest@).len() == 0);
        assert(texts_view(active@) =~= kept(s0.0, keep));
        self.active = active;
        proof {
            lemma_kept_no_dup(s0.0, keep);
        }
        // Every request waiting on it is finished.
        let ghost f = |e: EntryView|
            if e.2.0 == fingerprint@ && e.2.1 is None {
                (e.0, e.1, (fingerprint@, Some((result_view(*result), now_ms))))
            } else {
                e
            };
        let mut pending: Vec<RequestEntry> = Vec::new();
        std::mem::swap(&mut pending, &mut self.requests);
        let ghost all = entries_view(pending@);
        assert(all == s0.1);
        let mut done: Vec<RequestEntry> = Vec::new();
        while pending.len() > 0
            invariant
                entries_view(done@) + entries_view(pending@) .map_values(f) == all.map_values(f),
                f == (|e: EntryView|
                    if e.2.0 == fingerprint@ && e.2.1 is None {
                        (e.0, e.1, (fingerprint@, Some((result_view(*result), now_ms))))
                    } else {
                        e
                    }),
                fc@ == fingerprint@,
            decreases pending@.len(),
        {
            let ghost before = pending@;
            let e = pending.remove(0);
            assert(entries_view(before).drop_first() =~= entries_view(pending@));
            let ghost ev = entry_view(e);
            let RequestEntry { user_id, key, record } = e;
            let waiting = match &record {
                IdempotencyRecord::InProgress { fingerprint: g } => chars_equal(&chars_of(g.as_str()), &fc),
                IdempotencyRecord::Completed { .. } => false,
            };
            let next = if waiting {
                RequestEntry {
                    user_id,
                    key,
                    record: IdempotencyRecord::Completed {
                        fingerprint: string_of(&chars_of(fingerprint)),
                        result: copy_result(result),
                        completed_at_ms: now_ms,
                    },
                }
            } else {
                RequestEntry { user_id, key, record }
            };
            assert(entry_view(next) == f(ev));
            let ghost prev = done@;
            done.push(next);
            proof {
                assert(entries_view(done@) =~= entries_view(prev).push(f(ev)));
                assert(entries_view(before).map_values(f) =~= seq![f(ev)] + entries_view(pending@).map_values(f));
                assert(entries_view(done@) + entries_view(pending@).map_values(f) =~= all.map_values(f));
            }
        }
        assert(entries_view(pending@).map_values(f) =~= Seq::<EntryView>::empty()) by {
            assert(entries_view(pending@).len() == 0);
        }
        assert(entries_view(done@) =~= all.map_values(f));
        self.requests = done;
        proof {
            let n = entries_view(self.requests@);
            assert forall|a: int, b: int| 0 <= a < b < n.len() implies !((#[trigger] n[a]).0 == (#[trigger] n[b]).0
                && n[a].1 == n[b].1) by {
                assert(n[a] == f(all[a]) && n[b] == f(all[b]));
                assert(n[a].0 == all[a].0 && n[a].1 == all[a].1);
                assert(n[b].0 == all[b].0 && n[b].1 == all[b].1);
            }
            assert(self.view() == finish_spec(s0, fingerprint@, result_view(*result), now_ms));
        }
    }
}

/// What `kept` keeps includes every element that passes the test.
pub proof fn lemma_kept_contains<T>(s: Seq<T>, keep: spec_fn(T) -> bool, i: int)
    requires
        0 <= i < s.len(),
        keep(s[i]),
    ensures
        kept(s, keep).contains(s[i]),
    decreases s.len(),
{
    if i == 0 {
        assert(kept(s, keep)[0] == s[0]);
    } else {
        assert(s.drop_first()[i - 1] == s[i]);
        lemma_kept_contains(s.drop_first(), keep, i - 1);
        let rest = kept(s.drop_first(), keep);
        let j = choose|j: int| 0 <= j < rest.len() && rest[j] == s[i];
        if keep(s[0]) {
            assert(kept(s, keep)[j + 1] == s[i]);
        } else {
            assert(kept(s, keep)[j] == s[i]);
        }
    }
}

/// In requests with distinct keys, the request found for a key is any
/// request with that key.
pub proof fn lemma_find_is_unique(reqs: Seq<EntryView>, i: int)
    requires
        keys_distinct(reqs),
        0 <= i < reqs.len(),
    ensures
        find_request(reqs, reqs[i].0, reqs[i].1) == Some(i),
{
    let c = find_request(reqs, reqs[i].0, reqs[i].1)->0;
    if c < i {
        assert(!(reqs[c].0 == reqs[i].0 && reqs[c].1 == reqs[i].1));
    } else if c > i {
        assert(!(reqs[i].0 == reqs[c].0 && reqs[i].1 == reqs[c].1));
    }
}

/// A claim that starts or joins a render records the request under its
/// key, bound to the recording it named; one that starts a render makes
/// that recording active.
pub proof fn law_claim_records_the_request(s: StateView, user: i64, key: Seq<char>, fp: Seq<char>, now_ms: u64)
    requires
        state_wf(s),
        claim_spec(s, user, key, fp, now_ms).1.0 == ClaimKind::Start || claim_spec(s, user, key, fp, now_ms).1.0
            == ClaimKind::Wait,
    ensures
        ({
            let s1 = claim_spec(s, user, key, fp, now_ms).0;
            &&& find_request(s1.1, user, key) matches Some(i) && s1.1[i].2.0 == fp
            &&& claim_spec(s, user, key, fp, now_ms).1.0 == ClaimKind::Start ==> s1.0.contains(fp)
        }),
{
    let reqs = pruned(s.1, now_ms);
    lemma_kept_keys_distinct(s.1, |e: EntryView| !expired(e, now_ms));
    let s1 = claim_spec(s, user, key, fp, now_ms).0;
    match find_request(reqs, user, key) {
        Some(i) => {
            lemma_find_is_unique(reqs, i);
        },
        None => {
            let n = s1.1;
            assert(n == reqs.push((user, key, (fp, None))));
            assert(keys_distinct(n)) by {
                assert forall|a: int, b: int| 0 <= a < b < n.len() implies !((#[trigger] n[a]).0 == (#[trigger] n[b]).0
                    && n[a].1 == n[b].1) by {
                    if b == reqs.len() {
                        assert(n[a] == reqs[a]);
                    } else {
                        assert(n[a] == reqs[a] && n[b] == reqs[b]);
                    }
                }
            }
            lemma_find_is_unique(n, reqs.len() as int);
            if !s.0.contains(fp) {
                assert(s1.0[s.0.len() as int] == fp);
            }
        },
    }
}

/// A request key stays bound to the recording it first named: while its
/// request is remembered, a claim under the same key for another recording
/// is refused.
pub proof fn law_key_reuse_conflicts(s: StateView, user: i64, key: Seq<char>, other: Seq<char>, now_ms: u64, i: int)
    requires
        state_wf(s),
        find_request(s.1, user, key) == Some(i),
        !expired(s.1[i], now_ms),
        s.1[i].2.0 != other,
    ensures
        claim_spec(s, user, key, other, now_ms).1 == (ClaimKind::Conflict, None::<(FailureKind, Seq<char>)>),
{
    let keep = |e: EntryView| !expired(e, now_ms);
    let reqs = pruned(s.1, now_ms);
    lemma_find_is_unique(s.1, i);
    let c0 = find_request(s.1, user, key)->0;
    assert(c0 == i);
    assert(s.1[i].0 == user && s.1[i].1 == key);
    lemma_kept_contains(s.1, keep, i);
    lemma_kept_keys_distinct(s.1, keep);
    let j = choose|j: int| 0 <= j < reqs.len() && reqs[j] == s.1[i];
    lemma_find_is_unique(reqs, j);
}

/// A new request for a recording that is being rendered waits for that
/// render rather than starting another.
pub proof fn law_new_request_joins_active_render(s: StateView, user: i64, key: Seq<char>, fp: Seq<char>, now_ms: u64)
    requires
        s.0.contains(fp),
        find_request(pruned(s.1, now_ms), user, key) is None,
    ensures
        claim_spec(s, user, key, fp, now_ms).1 == (ClaimKind::Wait, None::<(FailureKind, Seq<char>)>),
{
}

/// A finished request's result is replayed to the same request for a day:
/// after a claim starts a render and the render finishes with `r` at
/// `finished_ms`, the same claim within the day replays `r`.
pub proof fn law_finished_result_is_replayed(
    s: StateView,
    user: i64,
    key: Seq<char>,
    fp: Seq<char>,
    r: ResultView,
    claimed_ms: u64,
    finished_ms: u64,
    replay_ms: u64,
)
    requires
        state_wf(s),
        claim_spec(s, user, key, fp, claimed_ms).1.0 == ClaimKind::Start,
        replay_ms >= finished_ms,
        replay_ms - finished_ms < IDEMPOTENCY_TTL_MS,
    ensures
        ({
            let s1 = claim_spec(s, user, key, fp, claimed_ms).0;
            let s2 = finish_spec(s1, fp, r, finished_ms);
            claim_spec(s2, user, key, fp, replay_ms).1 == (ClaimKind::Replay, r)
        }),
{
    let s1 = claim_spec(s, user, key, fp, claimed_ms).0;
    law_claim_records_the_request(s, user, key, fp, claimed_ms);
    let i = find_request(s1.1, user, key)->0;
    assert(s1.1[i].2.0 == fp);
    assert(s1.1[i].2.1 is None) by {
        let reqs = pruned(s.1, claimed_ms);
        assert(find_request(reqs, user, key) is None);
        assert(s1.1 == reqs.push((user, key, (fp, None))));
        if i < reqs.len() {
            assert(s1.1[i] == reqs[i]);
            assert(reqs[i].0 == user && reqs[i].1 == key);
        }
    }
    let s2 = finish_spec(s1, fp, r, finished_ms);
    assert(s2.1[i] == (user, key, (fp, Some((r, finished_ms)))));
    // The requests after the render keep their keys, so they stay distinct.
    assert(keys_distinct(s1.1)) by {
        let reqs = pruned(s.1, claimed_ms);
        lemma_kept_keys_distinct(s.1, |e: EntryView| !expired(e, claimed_ms));
        let n = s1.1;
        assert(n == reqs.push((user, key, (fp, None))));
        assert forall|a: int, b: int| 0 <= a < b < n.len() implies !((#[trigger] n[a]).0 == (#[trigger] n[b]).0
            && n[a].1 == n[b].1) by {
            if b == reqs.len() {
                assert(n[a] == reqs[a]);
            } else {
                assert(n[a] == reqs[a] && n[b] == reqs[b]);
            }
        }
    }
    assert(keys_distinct(s2.1)) by {
        assert forall|a: int, b: int| 0 <= a < b < s2.1.len() implies !((#[trigger] s2.1[a]).0 == (#[trigger] s2.1[b]).0
            && s2.1[a].1 == s2.1[b].1) by {
            assert(s2.1[a].0 == s1.1[a].0 && s2.1[a].1 == s1.1[a].1);
            assert(s2.1[b].0 == s1.1[b].0 && s2.1[b].1 == s1.1[b].1);
        }
    }
    let keep = |e: EntryView| !expired(e, replay_ms);
    assert(keep(s2.1[i]));
    lemma_kept_contains(s2.1, keep, i);
    lemma_kept_keys_distinct(s2.1, keep);
    let reqs2 = pruned(s2.1, replay_ms);
    let j = choose|j: int| 0 <= j < reqs2.len() && reqs2[j] == s2.1[i];
    lemma_find_is_unique(reqs2, j);
}

/// One claim request: the user, the key, the recording and the time.
pub type ClaimCall = (i64, Seq<char>, Seq<char>, u64);

/// The state after a run of claims (and no render finishing), in order.
pub open spec fn after_claims(s: StateView, calls: Seq<ClaimCall>) -> StateView
    decreases calls.len(),
{
    if calls.len() == 0 {
        s
    } else {
        let c = calls.last();
        claim_spec(after_claims(s, calls.drop_last()), c.0, c.1, c.2, c.3).0
    }
}

/// Claims never end a render: an active recording stays active.
proof fn lemma_claims_keep_active(s: StateView, calls: Seq<ClaimCall>, fp: Seq<char>)
    requires
        s.0.contains(fp),
    ensures
        after_claims(s, calls).0.contains(fp),
    decreases calls.len(),
{
    if calls.len() > 0 {
        lemma_claims_keep_active(s, calls.drop_last(), fp);
        let prev = after_claims(s, calls.drop_last());
        let c = calls.last();
        let next = claim_spec(prev, c.0, c.1, c.2, c.3).0;
        let j = choose|j: int| 0 <= j < prev.0.len() && prev.0[j] == fp;
        assert(next.0[j] == fp);
    }
}

/// A recording is rendered once at a time: once a claim starts its render,
/// no later claim for it starts another until the render finishes,
/// whatever claims come between; a new request for it waits on the render.
pub proof fn law_no_second_render_start(
    s: StateView,
    user: i64,
    key: Seq<char>,
    fp: Seq<char>,
    now_ms: u64,
    calls: Seq<ClaimCall>,
    later_user: i64,
    later_key: Seq<char>,
    later_ms: u64,
)
    requires
        state_wf(s),
        claim_spec(s, user, key, fp, now_ms).1.0 == ClaimKind::Start,
    ensures
        ({
            let s2 = after_claims(claim_spec(s, user, key, fp, now_ms).0, calls);
            let out = claim_spec(s2, later_user, later_key, fp, later_ms).1;
            &&& out.0 != ClaimKind::Start
            &&& find_request(pruned(s2.1, later_ms), later_user, later_key) is None ==> out == (
                ClaimKind::Wait,
                None::<(FailureKind, Seq<char>)>,
            )
        }),
{
    law_claim_records_the_request(s, user, key, fp, now_ms);
    let s1 = claim_spec(s, user, key, fp, now_ms).0;
    lemma_claims_keep_active(s1, calls, fp);
}

} // verus!
