//! Parses the edge-manager coordinator.log into first-seen-ordered raw jobs.
//!
//! Every fact arrives on one self-contained line carrying the full proof uuid, so each field is a
//! single pattern with no cross-line state. The capture that produced these logs drops lines under
//! load, therefore a job may miss any subset of its lifecycle and unknown lines are skipped rather
//! than fatal. The guard against silent format drift is per anchor phrase instead of zisk's tag
//! routing, because the manager has no bounded tag namespace. A line carrying a known anchor that
//! fails its full pattern is fatal, so a reworded field forces a parser update rather than quietly
//! zeroing the data.

use vstd::prelude::*;

use crate::error::{Failure, ParseError, Result};
use crate::log::{ts_read, us_of, LogStatus, Reading, Ts};
use crate::pattern::{first_matched, found_view, group_text, Found, Rules};
use crate::text::{
    all_digits, contains_piece, holds, i64_read, is_digit, lines, lines_of, read_i64, read_unsigned,
    same, to_chars, to_text, trim, trimmed, unsigned_read, views,
};
use crate::zkvm::{strip_ansi, without_ansi};

verus! {

/// Matches the proof start line, the job's begin marker, capturing the timestamp and job id.
pub const RE_START: &'static str =
    r"^(?P<ts>\S+)\s+INFO edge_manager::handlers: Starting Edge proof: proof_uuid=(?P<job>[^,]+), program=\S+$";

/// Matches the fan-out completion line whose elapsed span back-computes the fan-out start, both on
/// the manager clock. Captures the timestamp, job id, byte count, and elapsed milliseconds.
pub const RE_FANOUT: &'static str =
    r"^(?P<ts>\S+)\s+INFO edge_manager::handlers: Input fan-out complete for proof (?P<job>\S+): workers=\d+, bytes=(?P<bytes>\d+), elapsed=(?P<elapsed>\d+)ms$";

/// Matches the tree-shape line fired once per proof when the segment count is learned. Captures the
/// timestamp, job id, segment count, and leaf arity.
pub const RE_TAIL: &'static str =
    r"^(?P<ts>\S+)\s+INFO edge_manager::proof_state::result_handler: trigger_tail_proofs for proof (?P<job>\S+): num_segments=(?P<segments>\d+), leaf_arity=(?P<arity>\d+), internal_arity=\d+, num_leaf_proofs=\d+, num_internal_layers=\d+, effective_final_layer=\d+$";

/// Matches the per-proof metrics summary whose e2e span is the authoritative duration. Captures the
/// timestamp, job id, and e2e milliseconds.
pub const RE_METRICS: &'static str =
    r"^(?P<ts>\S+)\s+INFO edge_manager::proof_state::metrics_report: Emitted metrics for proof (?P<job>\S+): e2e=(?P<e2e>\d+)ms, proving=\d+ms, app=\d+ms, leaf=\d+ms, internal=\d+ms, compress=\d+ms$";

/// Matches the proof completion line, the job's success marker and end time, capturing the
/// timestamp and job id.
pub const RE_COMPLETED: &'static str =
    r"^(?P<ts>\S+)\s+INFO edge_manager::proof_state::result_handler: Proof (?P<job>\S+) is completed$";

/// Matches the proof failure line at any level, the job's failure marker and end time, capturing
/// the timestamp and job id.
pub const RE_FAILED: &'static str =
    r"^(?P<ts>\S+)\s+(?:INFO|WARN|ERROR) edge_manager::\S+: Proof (?P<job>\S+) failed at step \S+";

/// The coordinator patterns in the order in which a line is tried against them.
pub open spec fn coordinator_patterns() -> Seq<Seq<char>> {
    seq![RE_START@, RE_FANOUT@, RE_TAIL@, RE_METRICS@, RE_COMPLETED@, RE_FAILED@]
}

/// Whether a line carries an anchor phrase of the lines the parser extracts. One that its full
/// pattern then fails to match is fatal, so a manager format change cannot silently drop data.
pub open spec fn anchored(line: Seq<char>) -> bool {
    ||| contains_piece(line, "Starting Edge proof"@)
    ||| contains_piece(line, "Input fan-out complete"@)
    ||| contains_piece(line, "trigger_tail_proofs for proof"@)
    ||| contains_piece(line, "Emitted metrics for proof"@)
    ||| contains_piece(line, " is completed"@)
    ||| contains_piece(line, " failed at step "@)
}

fn has_anchor(line: &str) -> (yes: bool)
    ensures
        yes == anchored(line@),
{
    let line: Vec<char> = to_chars(line);
    let line = line.as_slice();
    holds(line, "Starting Edge proof") || holds(line, "Input fan-out complete") || holds(
        line,
        "trigger_tail_proofs for proof",
    ) || holds(line, "Emitted metrics for proof") || holds(line, " is completed") || holds(
        line,
        " failed at step ",
    )
}

/// An openvm proving job as read from the coordinator log, before translation to the generic
/// model.
pub struct RawJob {
    pub id: String,
    pub status: LogStatus,
    pub t_start: Option<Ts>,
    pub t_end: Option<Ts>,
    /// When the manager began the input fan-out in epoch microseconds, the completion line's
    /// timestamp minus its elapsed span, on the manager clock. Microsecond precision keeps a
    /// sub-millisecond fan-out, whose elapsed prints as zero, from collapsing the input window.
    pub fanout_start_us: Option<i64>,
    pub input_bytes: Option<u64>,
    pub num_segments: Option<u64>,
    /// How many app segments feed one leaf proof, the divisor turning a leaf's start segment into
    /// its leaf index.
    pub leaf_arity: Option<i64>,
    pub duration_s: Option<Reading>,
}

/// A raw job by the values it holds.
#[verifier::ext_equal]
pub struct JobModel {
    pub id: Seq<char>,
    pub status: LogStatus,
    pub t_start: Option<int>,
    pub t_end: Option<int>,
    pub fanout_start_us: Option<i64>,
    pub input_bytes: Option<u64>,
    pub num_segments: Option<u64>,
    pub leaf_arity: Option<i64>,
    pub duration_s: Option<(Seq<char>, u32)>,
}

impl DeepView for RawJob {
    type V = JobModel;

    open spec fn deep_view(&self) -> JobModel {
        JobModel {
            id: self.id@,
            status: self.status,
            t_start: self.t_start.deep_view(),
            t_end: self.t_end.deep_view(),
            fanout_start_us: self.fanout_start_us,
            input_bytes: self.input_bytes,
            num_segments: self.num_segments,
            leaf_arity: self.leaf_arity,
            duration_s: self.duration_s.deep_view(),
        }
    }
}

/// A job of which nothing but its id was read.
pub open spec fn new_job(id: Seq<char>) -> JobModel {
    JobModel {
        id,
        status: LogStatus::Unknown,
        t_start: None,
        t_end: None,
        fanout_start_us: None,
        input_bytes: None,
        num_segments: None,
        leaf_arity: None,
        duration_s: None,
    }
}

impl RawJob {
    /// Creates an empty raw job for the given id.
    pub fn new(id: &str) -> (job: RawJob)
        ensures
            job.deep_view() == new_job(id@),
    {
        RawJob {
            id: id.to_string(),
            status: LogStatus::Unknown,
            t_start: None,
            t_end: None,
            fanout_start_us: None,
            input_bytes: None,
            num_segments: None,
            leaf_arity: None,
            duration_s: None,
        }
    }
}

/// The place of the first job, from `from` on, with the given id, the length where there is none.
pub open spec fn job_place(jobs: Seq<JobModel>, id: Seq<char>, from: int) -> int
    decreases jobs.len() - from,
{
    if from >= jobs.len() {
        jobs.len() as int
    } else if jobs[from].id == id {
        from
    } else {
        job_place(jobs, id, from + 1)
    }
}

/// The jobs with one of the given id among them, put last where it is new.
pub open spec fn ensured(jobs: Seq<JobModel>, id: Seq<char>) -> Seq<JobModel> {
    if job_place(jobs, id, 0) < jobs.len() {
        jobs
    } else {
        jobs.push(new_job(id))
    }
}

/// The job of the given id, a new one where there is none.
pub open spec fn job_of(jobs: Seq<JobModel>, id: Seq<char>) -> JobModel {
    ensured(jobs, id)[job_place(jobs, id, 0)]
}

/// The jobs with the one of the given id replaced, or put last where it is new.
pub open spec fn with_job(jobs: Seq<JobModel>, id: Seq<char>, job: JobModel) -> Seq<JobModel> {
    ensured(jobs, id).update(job_place(jobs, id, 0), job)
}

/// The error for an anchored line that matched no known pattern.
pub open spec fn unrecognized_line(line: Seq<char>) -> Failure {
    Failure::UnrecognizedCoordinatorLine(trimmed(line))
}

/// A 64-bit unsigned number that a text writes.
pub open spec fn u64_read(text: Seq<char>) -> Option<u64> {
    match unsigned_read(text, u64::MAX as int) {
        Some(value) => Some(value as u64),
        None => None,
    }
}

/// A 64-bit signed number that a text writes.
pub open spec fn signed_read(text: Seq<char>) -> Option<i64> {
    match i64_read(text) {
        Some(value) => Some(value as i64),
        None => None,
    }
}

/// A 64-bit signed number that a text writes, zero where it writes none.
pub open spec fn signed_or_zero(text: Seq<char>) -> i64 {
    match i64_read(text) {
        Some(value) => value as i64,
        None => 0,
    }
}

/// A duration in milliseconds printed as digits.
pub open spec fn ms_reading(text: Seq<char>) -> Option<(Seq<char>, u32)> {
    if text.len() > 0 && all_digits(text) {
        Some((text, 1000u32))
    } else {
        None
    }
}

/// What one event does to its job.
pub open spec fn event_applied(
    job: JobModel,
    rule: int,
    groups: Seq<Option<Seq<char>>>,
) -> core::result::Result<JobModel, Failure> {
    let ts = ts_read(group_text(groups, 1));
    if rule == 2 {
        Ok(
            JobModel {
                num_segments: u64_read(group_text(groups, 3)),
                leaf_arity: signed_read(group_text(groups, 4)),
                ..job
            },
        )
    } else if rule == 3 {
        Ok(JobModel { duration_s: ms_reading(group_text(groups, 3)), ..job })
    } else {
        match ts {
            Err(failure) => Err(failure),
            Ok(ns) => Ok(
                if rule == 0 {
                    JobModel { t_start: Some(ns), ..job }
                } else if rule == 1 {
                    let elapsed = signed_or_zero(group_text(groups, 4));
                    JobModel {
                        fanout_start_us: Some(us_of(ns).wrapping_sub(elapsed.wrapping_mul(1000))),
                        input_bytes: u64_read(group_text(groups, 3)),
                        ..job
                    }
                } else if rule == 4 {
                    JobModel { status: LogStatus::Success, t_end: Some(ns), ..job }
                } else if job.status == LogStatus::Success {
                    // A failure line never demotes a completed proof.
                    job
                } else {
                    JobModel { status: LogStatus::Failed, t_end: Some(ns), ..job }
                },
            ),
        }
    }
}

/// The jobs after a line, by what the patterns found in it. An unknown line is skipped and an
/// anchored one that no pattern covers is fatal.
pub open spec fn line_applied(
    jobs: Seq<JobModel>,
    found: Option<(int, Seq<Option<Seq<char>>>)>,
    line: Seq<char>,
) -> core::result::Result<Seq<JobModel>, Failure> {
    match found {
        None => if anchored(line) {
            Err(unrecognized_line(line))
        } else {
            Ok(jobs)
        },
        Some((rule, groups)) => {
            let id = group_text(groups, 2);
            match event_applied(job_of(jobs, id), rule, groups) {
                Ok(job) => Ok(with_job(jobs, id, job)),
                Err(failure) => Err(failure),
            }
        },
    }
}

/// The jobs after one line of the log.
pub open spec fn consumed(jobs: Seq<JobModel>, line: Seq<char>) -> core::result::Result<
    Seq<JobModel>,
    Failure,
> {
    line_applied(jobs, first_matched(coordinator_patterns(), line, 0), line)
}

/// The jobs after the given lines, or the error that ends the parse.
pub open spec fn consumed_all(
    jobs: Seq<JobModel>,
    lines: Seq<Seq<char>>,
) -> core::result::Result<Seq<JobModel>, Failure>
    decreases lines.len(),
{
    if lines.len() == 0 {
        Ok(jobs)
    } else {
        match consumed(jobs, lines[0]) {
            Ok(jobs) => consumed_all(jobs, lines.skip(1)),
            Err(failure) => Err(failure),
        }
    }
}

/// Builds the fatal error for an anchored line that matched no known pattern.
fn unrecognized(line: &str) -> (error: ParseError)
    ensures
        error@ == unrecognized_line(line@),
{
    ParseError::UnrecognizedCoordinatorLine(to_text(trim(to_chars(line).as_slice())))
}

/// A 64-bit unsigned number that a text writes.
pub fn parse_u64(text: &str) -> (value: Option<u64>)
    ensures
        value == u64_read(text@),
{
    read_unsigned(to_chars(text).as_slice(), u64::MAX)
}

/// A 64-bit signed number that a text writes.
pub fn parse_i64(text: &str) -> (value: Option<i64>)
    ensures
        value == signed_read(text@),
{
    read_i64(to_chars(text).as_slice())
}

/// A 64-bit signed number that a text writes, zero where it writes none.
pub fn i64_or_zero(text: &str) -> (value: i64)
    ensures
        value == signed_or_zero(text@),
{
    match read_i64(to_chars(text).as_slice()) {
        Some(value) => value,
        None => 0,
    }
}

/// A duration in milliseconds printed as digits.
fn milliseconds(text: String) -> (reading: Option<Reading>)
    ensures
        reading.deep_view() == ms_reading(text@),
{
    let chars: Vec<char> = to_chars(text.as_str());
    if chars.len() == 0 {
        return None;
    }
    for i in 0..chars.len()
        invariant
            chars@ == text@,
            forall|k: int| 0 <= k < i ==> is_digit(#[trigger] chars@[k]),
    {
        if !('0' <= chars[i] && chars[i] <= '9') {
            assert(!is_digit(text@[i as int]));
            return None;
        }
    }
    Some(Reading { text, per_second: 1000 })
}

/// Accumulates jobs in first-seen order while parsing the coordinator log line by line.
pub struct Coordinator {
    pub jobs: Vec<RawJob>,
}

impl Coordinator {
    /// Adds a job on first sight and returns its place.
    fn ensure(&mut self, id: &str) -> (place: usize)
        ensures
            final(self).jobs.deep_view() == ensured(old(self).jobs.deep_view(), id@),
            place == job_place(old(self).jobs.deep_view(), id@, 0),
            place < final(self).jobs@.len(),
            final(self).jobs@[place as int].deep_view() == job_of(
                old(self).jobs.deep_view(),
                id@,
            ),
    {
        let ghost before = self.jobs.deep_view();
        let key: Vec<char> = to_chars(id);
        for i in 0..self.jobs.len()
            invariant
                key@ == id@,
                before == self.jobs.deep_view(),
                *self == *old(self),
                job_place(before, id@, 0) == job_place(before, id@, i as int),
        {
            let other: Vec<char> = to_chars(self.jobs[i].id.as_str());
            assert(before[i as int].id == other@);
            if same(other.as_slice(), key.as_slice()) {
                return i;
            }
        }
        let place: usize = self.jobs.len();
        self.jobs.push(RawJob::new(id));
        assert(self.jobs.deep_view() =~= ensured(before, id@));
        place
    }

    /// Adds what a line says, by what the patterns found in it, skipping unknown lines and failing
    /// on an anchored line no pattern covers.
    pub fn apply(&mut self, found: Found, line: &str) -> (done: Result<()>)
        ensures
            match line_applied(old(self).jobs.deep_view(), found_view(found), line@) {
                Ok(jobs) => done is Ok && final(self).jobs.deep_view() == jobs,
                Err(failure) => done is Err && done->Err_0@ == failure,
            },
    {
        let (rule, groups) = match found {
            Some(found) => found,
            None => {
                return if has_anchor(line) {
                    Err(unrecognized(line))
                } else {
                    Ok(())
                };
            },
        };
        let ghost before = self.jobs.deep_view();
        let ghost id = group_text(groups@, 2);
        let place: usize = self.ensure(groups.text(2).as_str());
        if rule == 2 {
            self.jobs[place].num_segments = parse_u64(groups.text(3).as_str());
            self.jobs[place].leaf_arity = parse_i64(groups.text(4).as_str());
        } else if rule == 3 {
            self.jobs[place].duration_s = milliseconds(groups.text(3));
        } else {
            let ts: Ts = match Ts::parse(groups.text(1).as_str()) {
                Ok(ts) => ts,
                Err(error) => {
                    return Err(error);
                },
            };
            if rule == 0 {
                self.jobs[place].t_start = Some(ts);
            } else if rule == 1 {
                let elapsed: i64 = i64_or_zero(groups.text(4).as_str());
                self.jobs[place].fanout_start_us = Some(
                    ts.epoch_us().wrapping_sub(elapsed.wrapping_mul(1000)),
                );
                self.jobs[place].input_bytes = parse_u64(groups.text(3).as_str());
            } else if rule == 4 {
                self.jobs[place].status = LogStatus::Success;
                self.jobs[place].t_end = Some(ts);
            } else if self.jobs[place].status != LogStatus::Success {
                // A failure line never demotes a completed proof.
                self.jobs[place].status = LogStatus::Failed;
                self.jobs[place].t_end = Some(ts);
            }
        }
        proof {
            let next = event_applied(job_of(before, id), rule as int, groups@)->Ok_0;
            assert(self.jobs@[place as int].deep_view() =~= next);
            assert(self.jobs.deep_view() =~= with_job(before, id, next));
        }
        Ok(())
    }

    /// Routes one log line through the known patterns, skipping unknown lines and failing on an
    /// anchored line no pattern covers.
    pub fn consume(&mut self, rules: &Rules, line: &str) -> (done: Result<()>)
        requires
            rules@ == coordinator_patterns(),
        ensures
            match consumed(old(self).jobs.deep_view(), line@) {
                Ok(jobs) => done is Ok && final(self).jobs.deep_view() == jobs,
                Err(failure) => done is Err && done->Err_0@ == failure,
            },
    {
        let found: Found = rules.first_match(line);
        self.apply(found, line)
    }
}

/// Compiles the coordinator patterns.
pub fn coordinator_rules() -> (rules: Rules)
    ensures
        rules@ == coordinator_patterns(),
{
    let rules: Rules = Rules::new().with(RE_START).with(RE_FANOUT).with(RE_TAIL).with(
        RE_METRICS,
    ).with(RE_COMPLETED).with(RE_FAILED);
    assert(rules@ =~= coordinator_patterns());
    rules
}

/// Parses coordinator log text into first-seen-ordered raw jobs. Unknown lines are skipped because
/// the capture is lossy and the manager's line vocabulary is unbounded, while an anchored line that
/// fails its full pattern is fatal.
pub fn parse(text: &str) -> (jobs: Result<Vec<RawJob>>)
    ensures
        match consumed_all(seq![], lines_of(without_ansi(text@))) {
            Ok(expected) => jobs is Ok && jobs->Ok_0.deep_view() == expected,
            Err(failure) => jobs is Err && jobs->Err_0@ == failure,
        },
{
    let rules: Rules = coordinator_rules();
    let clean: String = strip_ansi(text);
    let chars: Vec<char> = to_chars(clean.as_str());
    let lines: Vec<Vec<char>> = lines(chars.as_slice());
    let ghost all = lines_of(clean@);
    let mut state = Coordinator { jobs: Vec::new() };
    assert(all.skip(0) =~= all);
    assert(state.jobs.deep_view() =~= seq![]);
    for i in 0..lines.len()
        invariant
            rules@ == coordinator_patterns(),
            all == views(lines@),
            all == lines_of(without_ansi(text@)),
            consumed_all(seq![], all) == consumed_all(
                state.jobs.deep_view(),
                all.skip(i as int),
            ),
    {
        assert(all.skip(i as int)[0] == lines@[i as int]@);
        assert(all.skip(i as int).skip(1) =~= all.skip(i + 1));
        let line: String = to_text(lines[i].as_slice());
        match state.consume(&rules, line.as_str()) {
            Ok(()) => {},
            Err(error) => {
                return Err(error);
            },
        }
    }
    Ok(state.jobs)
}

} // verus!
