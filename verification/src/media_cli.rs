//! The operator commands of the media archive (`media status`, `media
//! migrate`, `media verify`, `media restore`): how their arguments are read
//! and what they report.

use vstd::prelude::*;
use crate::mix_plan::{increasing, insert_distinct, lemma_to_set_push};
use crate::text::{chars_equal, chars_of, dec, dec_int, parse_i64_spec, push_dec, push_dec_i64, push_str, string_of};

verus! {

/// A media command.
#[derive(Clone, Debug, PartialEq, Eq)]
pub enum MediaCommand {
    Status,
    MigrateDryRun,
    MigrateWait,
    Verify,
    RestoreAll,
    /// Restore the recordings named by this comma-separated id list.
    RestoreIds(String),
}

pub open spec fn usage_text() -> Seq<char> {
    "usage: web_server media status | media migrate --dry-run | media migrate --wait | media verify | media restore --all"@
}

/// The usage line printed for anything else.
pub fn usage() -> (s: &'static str)
    ensures
        s@ == usage_text(),
{
    "usage: web_server media status | media migrate --dry-run | media migrate --wait | media verify | media restore --all"
}

pub open spec fn command_spec(args: Seq<Seq<char>>) -> Option<MediaCommand> {
    if args.len() == 1 && args[0] == "status"@ {
        Some(MediaCommand::Status)
    } else if args.len() == 2 && args[0] == "migrate"@ && args[1] == "--dry-run"@ {
        Some(MediaCommand::MigrateDryRun)
    } else if args.len() == 2 && args[0] == "migrate"@ && args[1] == "--wait"@ {
        Some(MediaCommand::MigrateWait)
    } else if args.len() == 1 && args[0] == "verify"@ {
        Some(MediaCommand::Verify)
    } else if args.len() == 2 && args[0] == "restore"@ && args[1] == "--all"@ {
        Some(MediaCommand::RestoreAll)
    } else {
        None
    }
}

fn is(s: &String, word: &str) -> (b: bool)
    ensures
        b == (s@ == word@),
{
    chars_equal(&chars_of(s.as_str()), &chars_of(word))
}

/// The command the arguments name, or the usage line.
pub fn parse_media_command(arguments: &[String]) -> (r: Result<MediaCommand, String>)
    ensures
        match command_spec(arguments@.map_values(|a: String| a@)) {
            Some(c) => r == Ok::<MediaCommand, String>(c),
            None => if arguments@.len() == 3 && arguments@[0]@ == "restore"@ && arguments@[1]@
                == "--audio-file-ids"@ {
                r matches Ok(MediaCommand::RestoreIds(ids)) && ids@ == arguments@[2]@
            } else {
                r matches Err(m) && m@ == usage_text()
            },
        },
{
    let ghost args = arguments@.map_values(|a: String| a@);
    let n = arguments.len();
    if n >= 1 {
        assert(args[0] == arguments@[0]@);
    }
    if n >= 2 {
        assert(args[1] == arguments@[1]@);
    }
    if n == 1 && is(&arguments[0], "status") {
        return Ok(MediaCommand::Status);
    }
    if n == 2 && is(&arguments[0], "migrate") && is(&arguments[1], "--dry-run") {
        return Ok(MediaCommand::MigrateDryRun);
    }
    if n == 2 && is(&arguments[0], "migrate") && is(&arguments[1], "--wait") {
        return Ok(MediaCommand::MigrateWait);
    }
    if n == 1 && is(&arguments[0], "verify") {
        return Ok(MediaCommand::Verify);
    }
    if n == 2 && is(&arguments[0], "restore") && is(&arguments[1], "--all") {
        return Ok(MediaCommand::RestoreAll);
    }
    if n == 3 && is(&arguments[0], "restore") && is(&arguments[1], "--audio-file-ids") {
        return Ok(MediaCommand::RestoreIds(string_of(&chars_of(arguments[2].as_str()))));
    }
    Err(string_of(&chars_of(usage())))
}

/// The parts of a text between its commas (one part when there is none).
pub open spec fn split_commas(s: Seq<char>) -> Seq<Seq<char>>
    decreases s.len(),
{
    if s.len() == 0 {
        seq![Seq::empty()]
    } else {
        let prev = split_commas(s.drop_last());
        if s.last() == ',' {
            prev.push(Seq::empty())
        } else {
            prev.update(prev.len() - 1, prev.last().push(s.last()))
        }
    }
}

pub proof fn lemma_split_nonempty(s: Seq<char>)
    ensures
        split_commas(s).len() >= 1,
    decreases s.len(),
{
    if s.len() > 0 {
        lemma_split_nonempty(s.drop_last());
    }
}

pub open spec fn all_parse(parts: Seq<Seq<char>>) -> bool {
    forall|i: int| 0 <= i < parts.len() ==> (#[trigger] parse_i64_spec(parts[i])) is Some
}

pub open spec fn parsed_values(parts: Seq<Seq<char>>) -> Seq<i64> {
    parts.map_values(|p: Seq<char>| parse_i64_spec(p)->0)
}

/// Why an id list was refused.
#[derive(Clone, Debug, PartialEq, Eq)]
pub enum IdsError {
    /// A part is not an integer; std's message for it.
    Invalid(String),
    /// The list holds an id that is not positive.
    NotPositive,
}

impl IdsError {
    /// The message the command reports.
    pub fn message(&self) -> (s: String)
        ensures
            match self {
                IdsError::Invalid(m) => s@ == m@,
                IdsError::NotPositive => s@ == "--audio-file-ids requires positive comma-separated ids"@,
            },
    {
        match self {
            IdsError::Invalid(m) => string_of(&chars_of(m.as_str())),
            IdsError::NotPositive => string_of(&chars_of("--audio-file-ids requires positive comma-separated ids")),
        }
    }
}

/// `str::parse::<i64>`. std documents the accepted text as an optional
/// `+` or `-` followed by ASCII digits, in the range of `i64`; the text of
/// its error is not stated.
#[verifier::external_body]
fn parse_i64_text(s: &str) -> (r: Result<i64, String>)
    ensures
        match r {
            Ok(v) => parse_i64_spec(s@) == Some(v),
            Err(_) => parse_i64_spec(s@) is None,
        },
{
    match s.parse::<i64>() {
        Ok(v) => Ok(v),
        Err(e) => Err(e.to_string()),
    }
}

pub open spec fn any_not_positive(values: Seq<i64>) -> bool {
    exists|k: int| 0 <= k < values.len() && #[trigger] values[k] <= 0
}

proof fn lemma_any_not_positive_push(values: Seq<i64>, v: i64)
    ensures
        any_not_positive(values.push(v)) == (any_not_positive(values) || v <= 0),
{
    let pushed = values.push(v);
    if v <= 0 {
        assert(pushed[values.len() as int] <= 0);
    }
    if any_not_positive(values) {
        let k = choose|k: int| 0 <= k < values.len() && #[trigger] values[k] <= 0;
        assert(pushed[k] == values[k]);
    }
    if any_not_positive(pushed) {
        let k = choose|k: int| 0 <= k < pushed.len() && #[trigger] pushed[k] <= 0;
        if k < values.len() {
            assert(values[k] == pushed[k]);
        }
    }
}

/// Parses one part and adds its id; `Err` with std's message when it is
/// not an integer.
fn close_part(ids: &mut Vec<i64>, not_positive: &mut bool, part: &[char]) -> (r: Result<(), String>)
    requires
        increasing(old(ids)@),
    ensures
        match r {
            Err(_) => parse_i64_spec(part@) is None,
            Ok(()) => parse_i64_spec(part@) matches Some(v) && increasing(final(ids)@) && final(ids)@.to_set()
                == old(ids)@.to_set().insert(v) && *final(not_positive) == (*old(not_positive) || v <= 0),
        },
{
    let text = string_of(part);
    match parse_i64_text(text.as_str()) {
        Ok(v) => {
            insert_distinct(ids, v);
            if v <= 0 {
                *not_positive = true;
            }
            Ok(())
        },
        Err(m) => Err(m),
    }
}

/// The ids of `--audio-file-ids`: every comma-separated part an integer,
/// all positive, returned increasing and without repeats.
pub fn parse_ids(value: &str) -> (r: Result<Vec<i64>, IdsError>)
    ensures
        !all_parse(split_commas(value@)) <==> r matches Err(IdsError::Invalid(_)),
        all_parse(split_commas(value@)) ==> (if any_not_positive(parsed_values(split_commas(value@))) {
            r == Err::<Vec<i64>, IdsError>(IdsError::NotPositive)
        } else {
            r matches Ok(ids) && increasing(ids@) && ids@.to_set() == parsed_values(split_commas(value@)).to_set()
        }),
{
    let cs = chars_of(value);
    let ghost s = value@;
    let mut ids: Vec<i64> = Vec::new();
    let mut current: Vec<char> = Vec::new();
    let mut not_positive = false;
    let mut i: usize = 0;
    while i < cs.len()
        invariant
            i <= cs@.len(),
            cs@ == s,
            s == value@,
            split_commas(s.take(i as int)).len() >= 1,
            current@ == split_commas(s.take(i as int)).last(),
            all_parse(split_commas(s.take(i as int)).drop_last()),
            increasing(ids@),
            ids@.to_set() == parsed_values(split_commas(s.take(i as int)).drop_last()).to_set(),
            not_positive == any_not_positive(parsed_values(split_commas(s.take(i as int)).drop_last())),
        decreases cs.len() - i,
    {
        let ghost done = split_commas(s.take(i as int));
        let ghost closed = done.drop_last();
        proof {
            assert(s.take(i + 1).drop_last() =~= s.take(i as int));
            assert(s.take(i + 1).last() == cs@[i as int]);
            lemma_split_nonempty(s.take(i + 1));
        }
        if cs[i] == ',' {
            let ghost before = ids@;
            let ghost was = not_positive;
            match close_part(&mut ids, &mut not_positive, &current) {
                Ok(()) => {},
                Err(m) => {
                    proof {
                        lemma_prefix_part_fails(s, i as int, done);
                    }
                    return Err(IdsError::Invalid(m));
                },
            }
            proof {
                let v = parse_i64_spec(current@)->0;
                let closed2 = closed.push(done.last());
                assert(split_commas(s.take(i + 1)) == done.push(Seq::empty()));
                assert(split_commas(s.take(i + 1)).drop_last() =~= closed2);
                assert(parsed_values(closed2) =~= parsed_values(closed).push(v));
                lemma_to_set_push(parsed_values(closed), v);
                lemma_any_not_positive_push(parsed_values(closed), v);
            }
            current = Vec::new();
        } else {
            current.push(cs[i]);
            proof {
                let d2 = split_commas(s.take(i + 1));
                assert(d2 == done.update(done.len() - 1, done.last().push(cs@[i as int])));
                assert(d2.drop_last() =~= closed);
                assert(current@ =~= d2.last());
            }
        }
        i = i + 1;
    }
    let ghost done = split_commas(s.take(i as int));
    let ghost closed = done.drop_last();
    proof {
        assert(s.take(i as int) =~= s);
    }
    match close_part(&mut ids, &mut not_positive, &current) {
        Ok(()) => {},
        Err(m) => {
            proof {
                lemma_prefix_part_fails(s, i as int, done);
            }
            return Err(IdsError::Invalid(m));
        },
    }
    proof {
        let v = parse_i64_spec(current@)->0;
        assert(done =~= closed.push(done.last()));
        assert(parsed_values(done) =~= parsed_values(closed).push(v));
        lemma_to_set_push(parsed_values(closed), v);
        lemma_any_not_positive_push(parsed_values(closed), v);
        assert(all_parse(done));
    }
    if not_positive {
        return Err(IdsError::NotPositive);
    }
    Ok(ids)
}

/// A part that fails to parse makes the whole list fail.
proof fn lemma_prefix_part_fails(s: Seq<char>, i: int, done: Seq<Seq<char>>)
    requires
        0 <= i <= s.len(),
        done == split_commas(s.take(i)),
        done.len() >= 1,
        parse_i64_spec(done.last()) is None,
        i == s.len() || s[i] == ',',
    ensures
        !all_parse(split_commas(s)),
{
    lemma_closed_part_stays(s, i, done.len() - 1);
    assert(parse_i64_spec(split_commas(s)[done.len() - 1]) is None);
}

/// Once a comma (or the end) follows it, a part stays as it is in the
/// split of the whole text.
proof fn lemma_closed_part_stays(s: Seq<char>, i: int, k: int)
    requires
        0 <= i <= s.len(),
        0 <= k < split_commas(s.take(i)).len(),
        k < split_commas(s.take(i)).len() - 1 || i == s.len() || s[i] == ',',
    ensures
        k < split_commas(s).len(),
        split_commas(s)[k] == split_commas(s.take(i))[k],
    decreases s.len() - i,
{
    if i == s.len() {
        assert(s.take(i) =~= s);
    } else {
        let t = s.take(i + 1);
        assert(t.drop_last() =~= s.take(i));
        assert(t.last() == s[i]);
        lemma_split_nonempty(s.take(i));
        assert(split_commas(t)[k] == split_commas(s.take(i))[k]);
        assert(split_commas(t).len() >= split_commas(s.take(i)).len());
        if s[i] == ',' {
            assert(k < split_commas(t).len() - 1);
        }
        lemma_closed_part_stays(s, i + 1, k);
    }
}

/// What the archive ledger counts.
#[derive(Clone, Copy, Debug, Default)]
pub struct ArchiveStatus {
    pub pending_objects: i64,
    pub pending_bytes: i64,
    pub uploading_objects: i64,
    pub available_objects: i64,
    pub available_bytes: i64,
    pub missing_objects: i64,
    pub conflict_objects: i64,
    pub oldest_backlog_seconds: i64,
}

/// What could be archived, and how many objects the ledger holds.
#[derive(Clone, Copy, Debug, Default)]
pub struct EligibleStatus {
    pub recordings: i64,
    pub clips: i64,
    pub in_ledger: i64,
}

pub open spec fn d(n: i64) -> Seq<char> {
    dec_int(n as int)
}

/// The three lines of `media status`.
pub open spec fn status_lines_spec(e: EligibleStatus, s: ArchiveStatus) -> Seq<Seq<char>> {
    seq![
        "eligible: "@ + d(e.recordings) + " recording(s), "@ + d(e.clips) + " clip(s); track"@ + "ed: "@ + d(e.in_ledger),
        "pending: "@ + d(s.pending_objects) + " object(s), "@ + d(s.pending_bytes) + " byte(s); uploading: "@ + d(
            s.uploading_objects,
        ) + "; oldest backlog: "@ + d(s.oldest_backlog_seconds) + "s"@,
        "available: "@ + d(s.available_objects) + " object(s), "@ + d(s.available_bytes) + " byte(s); missing: "@
            + d(s.missing_objects) + "; conflict: "@ + d(s.conflict_objects),
    ]
}

pub open spec fn line_texts(v: Seq<String>) -> Seq<Seq<char>> {
    v.map_values(|l: String| l@)
}

/// The report of `media status`.
pub fn status_lines(e: &EligibleStatus, s: &ArchiveStatus) -> (r: Vec<String>)
    ensures
        line_texts(r@) == status_lines_spec(*e, *s),
{
    let mut a: Vec<char> = Vec::new();
    push_str(&mut a, "eligible: ");
    push_dec_i64(&mut a, e.recordings);
    push_str(&mut a, " recording(s), ");
    push_dec_i64(&mut a, e.clips);
    push_str(&mut a, " clip(s); track");
    push_str(&mut a, "ed: ");
    push_dec_i64(&mut a, e.in_ledger);
    let mut b: Vec<char> = Vec::new();
    push_str(&mut b, "pending: ");
    push_dec_i64(&mut b, s.pending_objects);
    push_str(&mut b, " object(s), ");
    push_dec_i64(&mut b, s.pending_bytes);
    push_str(&mut b, " byte(s); uploading: ");
    push_dec_i64(&mut b, s.uploading_objects);
    push_str(&mut b, "; oldest backlog: ");
    push_dec_i64(&mut b, s.oldest_backlog_seconds);
    push_str(&mut b, "s");
    let mut c: Vec<char> = Vec::new();
    push_str(&mut c, "available: ");
    push_dec_i64(&mut c, s.available_objects);
    push_str(&mut c, " object(s), ");
    push_dec_i64(&mut c, s.available_bytes);
    push_str(&mut c, " byte(s); missing: ");
    push_dec_i64(&mut c, s.missing_objects);
    push_str(&mut c, "; conflict: ");
    push_dec_i64(&mut c, s.conflict_objects);
    let r = vec![string_of(&a), string_of(&b), string_of(&c)];
    assert(line_texts(r@) =~= status_lines_spec(*e, *s));
    r
}

/// The first line of `media migrate --dry-run`.
pub fn dry_run_line(e: &EligibleStatus) -> (r: String)
    requires
        i64::MIN <= e.recordings + e.clips <= i64::MAX,
    ensures
        r@ == "dry run: "@ + d(e.recordings) + " finalized recording(s) + "@ + d(e.clips) + " saved clip(s) = "@
            + dec_int(e.recordings + e.clips) + " eligible object(s); "@ + d(e.in_ledger) + " already track"@ + "ed"@,
{
    let mut v: Vec<char> = Vec::new();
    push_str(&mut v, "dry run: ");
    push_dec_i64(&mut v, e.recordings);
    push_str(&mut v, " finalized recording(s) + ");
    push_dec_i64(&mut v, e.clips);
    push_str(&mut v, " saved clip(s) = ");
    push_dec_i64(&mut v, e.recordings + e.clips);
    push_str(&mut v, " eligible object(s); ");
    push_dec_i64(&mut v, e.in_ledger);
    push_str(&mut v, " already track");
    push_str(&mut v, "ed");
    string_of(&v)
}

/// A migration or verification ends cleanly only with nothing missing and
/// nothing in conflict.
pub fn terminal_state(s: &ArchiveStatus) -> (r: Result<(), String>)
    ensures
        r is Ok <==> (s.missing_objects <= 0 && s.conflict_objects <= 0),
        r matches Err(m) ==> m@ == "archive incomplete: "@ + d(s.missing_objects) + " missing object(s), "@ + d(
            s.conflict_objects,
        ) + " conflict object(s)"@,
{
    if s.missing_objects > 0 || s.conflict_objects > 0 {
        let mut v: Vec<char> = Vec::new();
        push_str(&mut v, "archive incomplete: ");
        push_dec_i64(&mut v, s.missing_objects);
        push_str(&mut v, " missing object(s), ");
        push_dec_i64(&mut v, s.conflict_objects);
        push_str(&mut v, " conflict object(s)");
        return Err(string_of(&v));
    }
    Ok(())
}

/// The summary of a restore: how many objects were downloaded, how many
/// already matched locally, how many were checked.
pub fn restore_summary(restored: u64, total: u64) -> (r: String)
    requires
        restored <= total,
    ensures
        r@ == "restore complete: "@ + dec(restored as nat) + " downloaded, "@ + dec((total - restored) as nat)
            + " already matched, "@ + dec(total as nat) + " verified"@,
{
    let mut v: Vec<char> = Vec::new();
    push_str(&mut v, "restore complete: ");
    push_dec(&mut v, restored);
    push_str(&mut v, " downloaded, ");
    push_dec(&mut v, total - restored);
    push_str(&mut v, " already matched, ");
    push_dec(&mut v, total);
    push_str(&mut v, " verified");
    string_of(&v)
}

/// The summary of a full verification.
pub fn verification_summary(verified: u64) -> (r: String)
    ensures
        r@ == "full verification complete for "@ + dec(verified as nat) + " available object(s)"@,
{
    let mut v: Vec<char> = Vec::new();
    push_str(&mut v, "full verification complete for ");
    push_dec(&mut v, verified);
    push_str(&mut v, " available object(s)");
    string_of(&v)
}

/// `[a, b, c]`, as a list of integers is debug-printed.
pub open spec fn id_list(ids: Seq<i64>) -> Seq<char>
    decreases ids.len(),
{
    if ids.len() == 0 {
        Seq::empty()
    } else if ids.len() == 1 {
        d(ids[0])
    } else {
        id_list(ids.drop_last()) + ", "@ + d(ids.last())
    }
}

/// Restoring named recordings fails when some are neither local nor
/// archived.
pub fn unavailable_message(ids: &[i64]) -> (r: String)
    ensures
        r@ == "selected recording(s) are neither local nor available in the archive: ["@ + id_list(ids@) + "]"@,
{
    let mut v: Vec<char> = Vec::new();
    push_str(&mut v, "selected recording(s) are neither local nor available in the archive: [");
    let ghost head = v@;
    let mut i: usize = 0;
    while i < ids.len()
        invariant
            i <= ids@.len(),
            v@ == head + id_list(ids@.take(i as int)),
        decreases ids.len() - i,
    {
        if i > 0 {
            push_str(&mut v, ", ");
        }
        push_dec_i64(&mut v, ids[i]);
        proof {
            assert(ids@.take(i + 1).drop_last() =~= ids@.take(i as int));
            if i == 0 {
                assert(id_list(ids@.take(0)) =~= Seq::<char>::empty());
            }
        }
        assert(v@ =~= head + id_list(ids@.take(i + 1)));
        i = i + 1;
    }
    push_str(&mut v, "]");
    assert(ids@.take(ids@.len() as int) =~= ids@);
    string_of(&v)
}

/// How long the migration waits for the next retry: until it is due
/// (`retry_in_ms`), between 100 ms and 15 s; 100 ms when it is already due;
/// one second when nothing waits.
pub fn queue_poll_delay_ms(retry_in_ms: Option<i64>) -> (r: u64)
    ensures
        r == match retry_in_ms {
            None => 1000,
            Some(ms) => if ms < 100 {
                100
            } else if ms > 15_000 {
                15_000
            } else {
                ms as u64
            },
        },
{
    match retry_in_ms {
        None => 1000,
        Some(ms) => if ms < 100 {
            100
        } else if ms > 15_000 {
            15_000
        } else {
            ms as u64
        },
    }
}

pub open spec fn nonnegative_spec(value: i64) -> u64 {
    if value < 0 {
        0
    } else {
        value as u64
    }
}

/// A count as a gauge reads it: negative values read as zero.
pub fn nonnegative(value: i64) -> (r: u64)
    ensures
        r == nonnegative_spec(value),
{
    if value < 0 {
        0
    } else {
        value as u64
    }
}

/// What the archive's gauges report: the objects still to archive
/// (pending or uploading), their bytes, and the backlog's age.
pub fn archive_gauges(status: &ArchiveStatus) -> (r: (u64, u64, u64))
    requires
        i64::MIN <= status.pending_objects + status.uploading_objects <= i64::MAX,
    ensures
        r == (
            nonnegative_spec((status.pending_objects + status.uploading_objects) as i64),
            nonnegative_spec(status.pending_bytes),
            nonnegative_spec(status.oldest_backlog_seconds),
        ),
{
    (
        nonnegative(status.pending_objects + status.uploading_objects),
        nonnegative(status.pending_bytes),
        nonnegative(status.oldest_backlog_seconds),
    )
}

} // verus!
