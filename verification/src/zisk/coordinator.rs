//! Parses the zisk coordinator.log into first-seen-ordered raw jobs.
//!
//! Each INFO event line is routed by its leading bracket tag and matched against only that tag's
//! patterns. A line carrying a data tag ([Phase1], [Phase2], [Phase3], [Job]) or a brand-new tag
//! that matches no pattern is fatal, so a zisk log-format change forces a parser update rather than
//! dropping data in silence. Missing lines are tolerated because absent data leaves fields unset.
//! Recognized non-data tags and untagged informational lines are skipped.

use vstd::prelude::*;

use crate::error::{Failure, ParseError, Result};
use crate::log::{ts_read, LogStatus, NodeEndKind, Reading, Ts};
use crate::pattern::{first_matched, found_view, group_text, matched, Found, Groups, Pattern, Rules};
use crate::text::{
    contains_piece, holds, is, lines, lines_of, read_unsigned, replace, replaced, same, to_chars,
    to_text, trim, trimmed, unsigned_read, views,
};
use crate::zkvm::{strip_ansi, without_ansi};

verus! {

/// Matches the leading bracket tag of an INFO-level coordinator event line.
pub const TAG_RE: &'static str = r"^\S+ INFO: \[(?P<tag>[A-Za-z0-9_]+)\]";

/// Matches the coordinator job-started line, capturing the timestamp and job id.
pub const RE_JOB_STARTED: &'static str =
    r"^(?P<ts>\S+) INFO: \[Job\] Started JobId\((?P<job>[^)]*)\) successfully Capacity: \d+CU Workers: \d+";

/// Matches the inline-input-data line, capturing the timestamp, job id, and input byte count.
pub const RE_INPUT: &'static str =
    r"^(?P<ts>\S+) INFO: Job JobId\((?P<job>[^)]*)\) using inline input data \((?P<bytes>\d+) bytes\)";

/// Matches the phase1 start line, capturing the timestamp and job id.
pub const RE_P1_START: &'static str =
    r"^(?P<ts>\S+) INFO: \[Phase1\] Started with \d+ workers for JobId\((?P<job>[^)]*)\)";

/// Matches a phase1 per-worker finish line, capturing the finishing worker and job id.
pub const RE_P1_DONE: &'static str =
    r"^\S+ INFO: \[Phase1\] WorkerId\((?P<worker>[^)]*)\) finished phase 1 for JobId\((?P<job>[^)]*)\) \(\d+\s*/\s*\d+ workers done, Phase: [\d.]+s, Delay: [\d.]+s, Witness: [\d.]+s, Asm Execution: [\d.]+s at [\d.]+ MHz\)";

/// Matches the phase2 start line, capturing the timestamp and job id.
pub const RE_P2_START: &'static str =
    r"^(?P<ts>\S+) INFO: \[Phase2\] Started with \d+ workers for JobId\((?P<job>[^)]*)\)";

/// Matches a phase2 per-worker finish line, capturing the finishing worker and job id.
pub const RE_P2_DONE: &'static str =
    r"^\S+ INFO: \[Phase2\] WorkerId\((?P<worker>[^)]*)\) finished phase 2 for JobId\((?P<job>[^)]*)\) \(\d+\s*/\s*\d+ workers done, [\d.]+s\)";

/// Matches the phase3 aggregator assignment line, capturing the timestamp, worker, and job id. zisk
/// 1.1.0 renamed the assigned role from aggregator to recurser, so both spellings name the same
/// node.
pub const RE_P3_ASSIGN: &'static str =
    r"^(?P<ts>\S+) INFO: \[Phase3\] Assigned worker WorkerId\((?P<worker>[^)]*)\) as (?:aggregator|recurser) for job JobId\((?P<job>[^)]*)\)";

/// Matches the phase3 completion line, capturing the timestamp and job id.
pub const RE_P3_DONE: &'static str =
    r"^(?P<ts>\S+) INFO: \[Phase3\] WorkerId WorkerId\([^)]*\) done, phase 3 completed for JobId\((?P<job>[^)]*)\) \([\d.]+s\)";

/// Matches the job-finished line, capturing the timestamp, job id, total duration, step count, and
/// instance count.
pub const RE_JOB_DONE: &'static str =
    r"^(?P<ts>\S+) INFO: \[Job\] Finished JobId\((?P<job>[^)]*)\) successfully.*?Duration: (?P<dur>[\d.]+)s \([\d.]+s\+[\d.]+s\+[\d.]+s\) Steps: (?P<steps>[\d.]+) Instances: (?P<inst>[\d.]+) Capacity: \d+CU";

/// Matches an ERROR or WARN job failure line carrying a timeout or failure keyword, capturing the
/// timestamp and job id. The caller reads the keyword from the line itself to tell the two apart.
pub const RE_JOB_FAILED: &'static str =
    r"^(?P<ts>\S+) (?:ERROR|WARN): .*?JobId\((?P<job>[^)]*)\).*?(?:timed out|Failed)";

/// Matches the coordinator's terminal `ERROR: Failed job JobId(<job>)` line, the canonical crash
/// time, capturing the timestamp and job id. The keyword precedes the id here, so
/// [`RE_JOB_FAILED`], which expects it after, misses it.
pub const RE_JOB_FAILED_LINE: &'static str =
    r"^(?P<ts>\S+) ERROR: Failed job JobId\((?P<job>[^)]*)\)";

/// Matches a worker's connection drop mid-job, the crashed node and the moment the cluster lost it,
/// the end point its in-progress phase is clipped to. Captures the timestamp, worker, and job id.
pub const RE_CONN_DROP: &'static str =
    r"^(?P<ts>\S+) ERROR: Worker WorkerId\((?P<worker>[^)]+)\) connection dropped while computing for job JobId\((?P<job>[^)]*)\)";

/// Matches a worker acknowledging cancellation after a sibling crashed. The acknowledgement time is
/// where its in-progress phase is clipped, marked as a cancellation rather than a crash. Captures
/// the timestamp, worker, and job id.
pub const RE_CANCEL_ACK: &'static str =
    r"^(?P<ts>\S+) INFO: Worker WorkerId\((?P<worker>[^)]+)\) acknowledged cancellation of job JobId\((?P<job>[^)]*)\)";

/// Matches the [Job] contribution and prove-performance summary lines the benchmark extracts
/// nothing from, so these recognized non-data lines do not fail the parse as uncovered [Job] lines.
pub const RE_JOB_INFO: &'static str =
    r"^\S+ INFO: \[Job\] (?:Contributions|Prove Performance)\b";

/// A zisk proving job as read from the coordinator log, before translation to the generic model.
pub struct RawJob {
    pub id: String,
    pub status: LogStatus,
    pub t_start: Option<Ts>,
    pub t_end: Option<Ts>,
    pub t_p3_start: Option<Ts>,
    pub t_p3_end: Option<Ts>,
    pub input_bytes: Option<u64>,
    pub instances: Option<u64>,
    pub steps: Option<u64>,
    pub duration_s: Option<Reading>,
    pub aggregator: Option<String>,
    /// The workers that finished phase 1, each a node that took part in the job.
    pub p1: Vec<String>,
    /// The workers that finished phase 2, each a node that took part in the job.
    pub p2: Vec<String>,
    /// Per-worker crash or cancel moments on an incomplete job, the end point each node's
    /// in-progress phase is clipped to. Empty on a clean job.
    pub node_ends: Vec<(String, Ts, NodeEndKind)>,
}

/// A raw job by the values it holds.
#[verifier::ext_equal]
pub struct JobModel {
    pub id: Seq<char>,
    pub status: LogStatus,
    pub t_start: Option<int>,
    pub t_end: Option<int>,
    pub t_p3_start: Option<int>,
    pub t_p3_end: Option<int>,
    pub input_bytes: Option<u64>,
    pub instances: Option<u64>,
    pub steps: Option<u64>,
    pub duration_s: Option<(Seq<char>, u32)>,
    pub aggregator: Option<Seq<char>>,
    pub p1: Seq<Seq<char>>,
    pub p2: Seq<Seq<char>>,
    pub node_ends: Seq<(Seq<char>, int, NodeEndKind)>,
}

impl DeepView for RawJob {
    type V = JobModel;

    open spec fn deep_view(&self) -> JobModel {
        JobModel {
            id: self.id@,
            status: self.status,
            t_start: self.t_start.deep_view(),
            t_end: self.t_end.deep_view(),
            t_p3_start: self.t_p3_start.deep_view(),
            t_p3_end: self.t_p3_end.deep_view(),
            input_bytes: self.input_bytes,
            instances: self.instances,
            steps: self.steps,
            duration_s: self.duration_s.deep_view(),
            aggregator: self.aggregator.deep_view(),
            p1: self.p1.deep_view(),
            p2: self.p2.deep_view(),
            node_ends: self.node_ends.deep_view(),
        }
    }
}

/// A job of which nothing but its id was read.
pub open spec fn new_job(id: Seq<char>) -> JobModel {
    JobModel {
        id,
        status: LogStatus::Unknown,
        t_start: None,
        t_end: None,
        t_p3_start: None,
        t_p3_end: None,
        input_bytes: None,
        instances: None,
        steps: None,
        duration_s: None,
        aggregator: None,
        p1: seq![],
        p2: seq![],
        node_ends: seq![],
    }
}

impl RawJob {
    /// Creates an empty raw job for the given id.
    pub fn new(id: &str) -> (job: RawJob)
        ensures
            job.deep_view() == new_job(id@),
    {
        let job = RawJob {
            id: id.to_string(),
            status: LogStatus::Unknown,
            t_start: None,
            t_end: None,
            t_p3_start: None,
            t_p3_end: None,
            input_bytes: None,
            instances: None,
            steps: None,
            duration_s: None,
            aggregator: None,
            p1: Vec::new(),
            p2: Vec::new(),
            node_ends: Vec::new(),
        };
        assert(job.deep_view() =~= new_job(id@));
        job
    }
}

/// The place of the first job, from `from` on, with the given id, the length where there is none.
pub open spec fn job_place(jobs: Seq<JobModel>, id: Seq<char>, from: int) -> int
    decreases jobs.len() - from,
{
    if from >= jobs.len() {
        jobs.len() as int
    } else if jobs[from].id == id {
        from
    } else {
        job_place(jobs, id, from + 1)
    }
}

/// The jobs with one of the given id among them, put last where it is new.
pub open spec fn ensured(jobs: Seq<JobModel>, id: Seq<char>) -> Seq<JobModel> {
    if job_place(jobs, id, 0) < jobs.len() {
        jobs
    } else {
        jobs.push(new_job(id))
    }
}

/// The job of the given id, a new one where there is none.
pub open spec fn job_of(jobs: Seq<JobModel>, id: Seq<char>) -> JobModel {
    ensured(jobs, id)[job_place(jobs, id, 0)]
}

/// The jobs with the one of the given id replaced, or put last where it is new.
pub open spec fn with_job(jobs: Seq<JobModel>, id: Seq<char>, job: JobModel) -> Seq<JobModel> {
    ensured(jobs, id).update(job_place(jobs, id, 0), job)
}

/// The error for a tagged event line that matched no known pattern.
pub open spec fn unrecognized_line(line: Seq<char>) -> Failure {
    Failure::UnrecognizedCoordinatorLine(trimmed(line))
}

/// Builds the fatal error for a tagged event line that matched no known pattern.
fn unrecognized(line: &str) -> (error: ParseError)
    ensures
        error@ == unrecognized_line(line@),
{
    ParseError::UnrecognizedCoordinatorLine(to_text(trim(to_chars(line).as_slice())))
}

/// The [Phase1] patterns in the order in which a line is tried against them.
pub open spec fn phase1_patterns() -> Seq<Seq<char>> {
    seq![RE_P1_START@, RE_P1_DONE@]
}

/// The [Phase2] patterns in the order in which a line is tried against them.
pub open spec fn phase2_patterns() -> Seq<Seq<char>> {
    seq![RE_P2_START@, RE_P2_DONE@]
}

/// The [Phase3] patterns in the order in which a line is tried against them.
pub open spec fn phase3_patterns() -> Seq<Seq<char>> {
    seq![RE_P3_ASSIGN@, RE_P3_DONE@]
}

/// The [Job] patterns in the order in which a line is tried against them.
pub open spec fn job_patterns() -> Seq<Seq<char>> {
    seq![RE_JOB_STARTED@, RE_JOB_DONE@, RE_JOB_INFO@]
}

/// The untagged patterns in the order in which a line is tried against them.
pub open spec fn untagged_patterns() -> Seq<Seq<char>> {
    seq![RE_INPUT@, RE_CONN_DROP@, RE_CANCEL_ACK@, RE_JOB_FAILED@, RE_JOB_FAILED_LINE@]
}

/// What a line says, by the pattern that it matched and the groups that it captured.
pub type Matched = Option<(int, Seq<Option<Seq<char>>>)>;

/// The jobs that an event leaves, or the error that it ends the parse with.
pub type Jobs = core::result::Result<Seq<JobModel>, Failure>;

/// The jobs after a [Phase1] line. A start marks the job seen, a finish adds the worker.
pub open spec fn phase1_applied(jobs: Seq<JobModel>, found: Matched, line: Seq<char>) -> Jobs {
    match found {
        None => Err(unrecognized_line(line)),
        Some((rule, groups)) => if rule == 0 {
            Ok(ensured(jobs, group_text(groups, 2)))
        } else {
            let id = group_text(groups, 2);
            let job = job_of(jobs, id);
            Ok(with_job(jobs, id, JobModel { p1: job.p1.push(group_text(groups, 1)), ..job }))
        },
    }
}

/// The jobs after a [Phase2] line. A start marks the job seen, a finish adds the worker.
pub open spec fn phase2_applied(jobs: Seq<JobModel>, found: Matched, line: Seq<char>) -> Jobs {
    match found {
        None => Err(unrecognized_line(line)),
        Some((rule, groups)) => if rule == 0 {
            Ok(ensured(jobs, group_text(groups, 2)))
        } else {
            let id = group_text(groups, 2);
            let job = job_of(jobs, id);
            Ok(with_job(jobs, id, JobModel { p2: job.p2.push(group_text(groups, 1)), ..job }))
        },
    }
}

/// The jobs after a [Phase3] line, an aggregator assignment or a completion.
pub open spec fn phase3_applied(jobs: Seq<JobModel>, found: Matched, line: Seq<char>) -> Jobs {
    match found {
        None => Err(unrecognized_line(line)),
        Some((rule, groups)) => match ts_read(group_text(groups, 1)) {
            Err(failure) => Err(failure),
            Ok(ns) => if rule == 0 {
                let id = group_text(groups, 3);
                let job = job_of(jobs, id);
                Ok(
                    with_job(
                        jobs,
                        id,
                        JobModel {
                            aggregator: Some(group_text(groups, 2)),
                            t_p3_start: Some(ns),
                            ..job
                        },
                    ),
                )
            } else {
                let id = group_text(groups, 2);
                let job = job_of(jobs, id);
                Ok(with_job(jobs, id, JobModel { t_p3_end: Some(ns), ..job }))
            },
        },
    }
}

/// A count printed with dots between its groups of digits.
pub open spec fn dotted_count(text: Seq<char>) -> Option<u64> {
    match unsigned_read(replaced(text, "."@, ""@), u64::MAX as int) {
        Some(value) => Some(value as u64),
        None => None,
    }
}

/// The jobs after a [Job] line, a start, a finish, or an informational line.
pub open spec fn job_applied(jobs: Seq<JobModel>, found: Matched, line: Seq<char>) -> Jobs {
    match found {
        None => Err(unrecognized_line(line)),
        Some((rule, groups)) => if rule == 2 {
            Ok(jobs)
        } else {
            match ts_read(group_text(groups, 1)) {
                Err(failure) => Err(failure),
                Ok(ns) => {
                    let id = group_text(groups, 2);
                    let job = job_of(jobs, id);
                    Ok(
                        with_job(
                            jobs,
                            id,
                            if rule == 0 {
                                JobModel { t_start: Some(ns), ..job }
                            } else {
                                JobModel {
                                    status: LogStatus::Success,
                                    t_end: Some(ns),
                                    duration_s: Some((group_text(groups, 3), 1u32)),
                                    steps: dotted_count(group_text(groups, 4)),
                                    instances: dotted_count(group_text(groups, 5)),
                                    ..job
                                }
                            },
                        ),
                    )
                },
            }
        },
    }
}

/// The jobs after a failure line. A job that already succeeded keeps its status and end, and the
/// end time is parsed only when the status is recorded.
pub open spec fn failure_applied(
    jobs: Seq<JobModel>,
    id: Seq<char>,
    ts: Seq<char>,
    status: LogStatus,
) -> Jobs {
    let job = job_of(jobs, id);
    if job.status == LogStatus::Success {
        Ok(ensured(jobs, id))
    } else {
        match ts_read(ts) {
            Err(failure) => Err(failure),
            Ok(ns) => Ok(with_job(jobs, id, JobModel { status, t_end: Some(ns), ..job })),
        }
    }
}

/// The jobs after a line that marks where a worker's part in a job ended.
pub open spec fn node_end_applied(
    jobs: Seq<JobModel>,
    groups: Seq<Option<Seq<char>>>,
    kind: NodeEndKind,
) -> Jobs {
    match ts_read(group_text(groups, 1)) {
        Err(failure) => Err(failure),
        Ok(ns) => {
            let id = group_text(groups, 3);
            let job = job_of(jobs, id);
            Ok(
                with_job(
                    jobs,
                    id,
                    JobModel {
                        node_ends: job.node_ends.push((group_text(groups, 2), ns, kind)),
                        ..job
                    },
                ),
            )
        },
    }
}

/// The jobs after an untagged line, the inline-input and failure lines. Any other is skipped.
pub open spec fn untagged_applied(jobs: Seq<JobModel>, found: Matched, line: Seq<char>) -> Jobs {
    match found {
        None => Ok(jobs),
        Some((rule, groups)) => if rule == 0 {
            let id = group_text(groups, 2);
            let job = job_of(jobs, id);
            let bytes = match unsigned_read(group_text(groups, 3), u64::MAX as int) {
                Some(value) => Some(value as u64),
                None => None,
            };
            Ok(with_job(jobs, id, JobModel { input_bytes: bytes, ..job }))
        } else if rule == 1 {
            node_end_applied(jobs, groups, NodeEndKind::Crashed)
        } else if rule == 2 {
            node_end_applied(jobs, groups, NodeEndKind::Cancelled)
        } else {
            failure_applied(
                jobs,
                group_text(groups, 2),
                group_text(groups, 1),
                if rule == 3 && contains_piece(line, "timed out"@) {
                    LogStatus::Timeout
                } else {
                    LogStatus::Failed
                },
            )
        },
    }
}

/// The parts of the coordinator log that have patterns of their own.
#[derive(Clone, Copy, PartialEq, Eq, Debug, Structural)]
pub enum Section {
    Phase1,
    Phase2,
    Phase3,
    Job,
    /// A tag whose lines carry no data the benchmark extracts.
    Ignored,
    /// A tag that no part of the log is known to carry.
    New,
    Untagged,
}

/// The part of the log that a line's leading tag names. Recovery lines trace a worker leaving and
/// re-registering after a crash, already captured by the per-node crash marker.
pub open spec fn section_of(tag: Option<Seq<char>>) -> Section {
    match tag {
        None => Section::Untagged,
        Some(tag) => if tag == "Phase1"@ {
            Section::Phase1
        } else if tag == "Phase2"@ {
            Section::Phase2
        } else if tag == "Phase3"@ {
            Section::Phase3
        } else if tag == "Job"@ {
            Section::Job
        } else if tag == "Coordinator"@ || tag == "Setup"@ || tag == "Recovery"@ {
            Section::Ignored
        } else {
            Section::New
        },
    }
}

/// The patterns that a line of a section is tried against.
pub open spec fn section_patterns(section: Section) -> Seq<Seq<char>> {
    match section {
        Section::Phase1 => phase1_patterns(),
        Section::Phase2 => phase2_patterns(),
        Section::Phase3 => phase3_patterns(),
        Section::Job => job_patterns(),
        Section::Untagged => untagged_patterns(),
        Section::Ignored | Section::New => seq![],
    }
}

/// The jobs after a line of a section, by what its patterns found in it.
pub open spec fn line_applied(
    jobs: Seq<JobModel>,
    section: Section,
    found: Matched,
    line: Seq<char>,
) -> Jobs {
    match section {
        Section::Phase1 => phase1_applied(jobs, found, line),
        Section::Phase2 => phase2_applied(jobs, found, line),
        Section::Phase3 => phase3_applied(jobs, found, line),
        Section::Job => job_applied(jobs, found, line),
        Section::Untagged => untagged_applied(jobs, found, line),
        Section::Ignored => Ok(jobs),
        Section::New => Err(unrecognized_line(line)),
    }
}

/// The tag that a match of the tag pattern captured.
pub open spec fn tag_of(groups: Option<Seq<Option<Seq<char>>>>) -> Option<Seq<char>> {
    match groups {
        Some(groups) => if 1 < groups.len() {
            groups[1]
        } else {
            None
        },
        None => None,
    }
}

/// The jobs after one line of the log.
pub open spec fn consumed(jobs: Seq<JobModel>, line: Seq<char>) -> Jobs {
    let section = section_of(tag_of(matched(TAG_RE@, line)));
    line_applied(jobs, section, first_matched(section_patterns(section), line, 0), line)
}

/// The jobs after the given lines, or the error that ends the parse.
pub open spec fn consumed_all(jobs: Seq<JobModel>, lines: Seq<Seq<char>>) -> Jobs
    decreases lines.len(),
{
    if lines.len() == 0 {
        Ok(jobs)
    } else {
        match consumed(jobs, lines[0]) {
            Ok(jobs) => consumed_all(jobs, lines.skip(1)),
            Err(failure) => Err(failure),
        }
    }
}

/// Accumulates jobs in first-seen order while parsing the coordinator log line by line.
pub struct Coordinator {
    pub jobs: Vec<RawJob>,
}

impl Coordinator {
    /// Adds a job on first sight and returns its place.
    fn ensure(&mut self, id: &str) -> (place: usize)
        ensures
            final(self).jobs.deep_view() == ensured(old(self).jobs.deep_view(), id@),
            place == job_place(old(self).jobs.deep_view(), id@, 0),
            place < final(self).jobs@.len(),
            final(self).jobs@[place as int].deep_view() == job_of(
                old(self).jobs.deep_view(),
                id@,
            ),
    {
        let ghost before = self.jobs.deep_view();
        let key: Vec<char> = to_chars(id);
        for i in 0..self.jobs.len()
            invariant
                key@ == id@,
                before == self.jobs.deep_view(),
                *self == *old(self),
                job_place(before, id@, 0) == job_place(before, id@, i as int),
        {
            let other: Vec<char> = to_chars(self.jobs[i].id.as_str());
            assert(before[i as int].id == other@);
            if same(other.as_slice(), key.as_slice()) {
                return i;
            }
        }
        let place: usize = self.jobs.len();
        self.jobs.push(RawJob::new(id));
        assert(self.jobs.deep_view() =~= ensured(before, id@));
        place
    }

    /// Handles the [Phase1] start and per-worker finish lines, failing on any other [Phase1] line.
    pub fn phase1(&mut self, found: Found, line: &str) -> (done: Result<()>)
        ensures
            match phase1_applied(old(self).jobs.deep_view(), found_view(found), line@) {
                Ok(jobs) => done is Ok && final(self).jobs.deep_view() == jobs,
                Err(failure) => done is Err && done->Err_0@ == failure,
            },
    {
        match found {
            None => Err(unrecognized(line)),
            Some((rule, groups)) => {
                let ghost before = self.jobs.deep_view();
                let place: usize = self.ensure(groups.text(2).as_str());
                if rule != 0 {
                    let worker: String = groups.text(1);
                    self.jobs[place].p1.push(worker);
                    proof {
                        let id = group_text(groups@, 2);
                        let job = job_of(before, id);
                        let next = JobModel { p1: job.p1.push(worker@), ..job };
                        assert(self.jobs@[place as int].deep_view() =~= next);
                        assert(self.jobs.deep_view() =~= with_job(before, id, next));
                    }
                }
                Ok(())
            },
        }
    }

    /// Handles the [Phase2] start and per-worker finish lines, failing on any other [Phase2] line.
    pub fn phase2(&mut self, found: Found, line: &str) -> (done: Result<()>)
        ensures
            match phase2_applied(old(self).jobs.deep_view(), found_view(found), line@) {
                Ok(jobs) => done is Ok && final(self).jobs.deep_view() == jobs,
                Err(failure) => done is Err && done->Err_0@ == failure,
            },
    {
        match found {
            None => Err(unrecognized(line)),
            Some((rule, groups)) => {
                let ghost before = self.jobs.deep_view();
                let place: usize = self.ensure(groups.text(2).as_str());
                if rule != 0 {
                    let worker: String = groups.text(1);
                    self.jobs[place].p2.push(worker);
                    proof {
                        let id = group_text(groups@, 2);
                        let job = job_of(before, id);
                        let next = JobModel { p2: job.p2.push(worker@), ..job };
                        assert(self.jobs@[place as int].deep_view() =~= next);
                        assert(self.jobs.deep_view() =~= with_job(before, id, next));
                    }
                }
                Ok(())
            },
        }
    }

    /// Handles the [Phase3] aggregator assignment and completion lines, failing on any other one.
    pub fn phase3(&mut self, found: Found, line: &str) -> (done: Result<()>)
        ensures
            match phase3_applied(old(self).jobs.deep_view(), found_view(found), line@) {
                Ok(jobs) => done is Ok && final(self).jobs.deep_view() == jobs,
                Err(failure) => done is Err && done->Err_0@ == failure,
            },
    {
        match found {
            None => Err(unrecognized(line)),
            Some((rule, groups)) => {
                let ghost before = self.jobs.deep_view();
                let ts: Ts = match Ts::parse(groups.text(1).as_str()) {
                    Ok(ts) => ts,
                    Err(error) => {
                        return Err(error);
                    },
                };
                if rule == 0 {
                    let place: usize = self.ensure(groups.text(3).as_str());
                    self.jobs[place].aggregator = Some(groups.text(2));
                    self.jobs[place].t_p3_start = Some(ts);
                    proof {
                        let id = group_text(groups@, 3);
                        let next = JobModel {
                            aggregator: Some(group_text(groups@, 2)),
                            t_p3_start: Some(ts@),
                            ..job_of(before, id)
                        };
                        assert(self.jobs@[place as int].deep_view() =~= next);
                        assert(self.jobs.deep_view() =~= with_job(before, id, next));
                    }
                } else {
                    let place: usize = self.ensure(groups.text(2).as_str());
                    self.jobs[place].t_p3_end = Some(ts);
                    proof {
                        let id = group_text(groups@, 2);
                        let next = JobModel { t_p3_end: Some(ts@), ..job_of(before, id) };
                        assert(self.jobs@[place as int].deep_view() =~= next);
                        assert(self.jobs.deep_view() =~= with_job(before, id, next));
                    }
                }
                Ok(())
            },
        }
    }

    /// Handles the [Job] start and finish lines, skips the recognized informational ones, and fails
    /// on any other [Job] line.
    pub fn job(&mut self, found: Found, line: &str) -> (done: Result<()>)
        ensures
            match job_applied(old(self).jobs.deep_view(), found_view(found), line@) {
                Ok(jobs) => done is Ok && final(self).jobs.deep_view() == jobs,
                Err(failure) => done is Err && done->Err_0@ == failure,
            },
    {
        match found {
            None => Err(unrecognized(line)),
            Some((rule, groups)) => {
                if rule == 2 {
                    return Ok(());
                }
                let ghost before = self.jobs.deep_view();
                let ts: Ts = match Ts::parse(groups.text(1).as_str()) {
                    Ok(ts) => ts,
                    Err(error) => {
                        return Err(error);
                    },
                };
                let place: usize = self.ensure(groups.text(2).as_str());
                if rule == 0 {
                    self.jobs[place].t_start = Some(ts);
                } else {
                    self.jobs[place].status = LogStatus::Success;
                    self.jobs[place].t_end = Some(ts);
                    self.jobs[place].duration_s = Some(
                        Reading { text: groups.text(3), per_second: 1 },
                    );
                    self.jobs[place].steps = count(groups.text(4).as_str());
                    self.jobs[place].instances = count(groups.text(5).as_str());
                }
                proof {
                    let id = group_text(groups@, 2);
                    let job = job_of(before, id);
                    let next = if rule == 0 {
                        JobModel { t_start: Some(ts@), ..job }
                    } else {
                        JobModel {
                            status: LogStatus::Success,
                            t_end: Some(ts@),
                            duration_s: Some((group_text(groups@, 3), 1u32)),
                            steps: dotted_count(group_text(groups@, 4)),
                            instances: dotted_count(group_text(groups@, 5)),
                            ..job
                        }
                    };
                    assert(self.jobs@[place as int].deep_view() =~= next);
                    assert(self.jobs.deep_view() =~= with_job(before, id, next));
                }
                Ok(())
            },
        }
    }

    /// Handles untagged lines, the inline-input and failure lines. Because the tag pattern matches
    /// only INFO lines, non-INFO failure lines route here too, and an unrecognized one is skipped
    /// rather than failing the parse because these lines are too varied and carry no data.
    pub fn untagged(&mut self, found: Found, line: &str) -> (done: Result<()>)
        ensures
            match untagged_applied(old(self).jobs.deep_view(), found_view(found), line@) {
                Ok(jobs) => done is Ok && final(self).jobs.deep_view() == jobs,
                Err(failure) => done is Err && done->Err_0@ == failure,
            },
    {
        match found {
            None => Ok(()),
            Some((rule, groups)) => {
                if rule == 0 {
                    let ghost before = self.jobs.deep_view();
                    let place: usize = self.ensure(groups.text(2).as_str());
                    let bytes: Vec<char> = to_chars(groups.text(3).as_str());
                    self.jobs[place].input_bytes = read_unsigned(bytes.as_slice(), u64::MAX);
                    proof {
                        let id = group_text(groups@, 2);
                        let next = JobModel {
                            input_bytes: match unsigned_read(bytes@, u64::MAX as int) {
                                Some(value) => Some(value as u64),
                                None => None,
                            },
                            ..job_of(before, id)
                        };
                        assert(self.jobs@[place as int].deep_view() =~= next);
                        assert(self.jobs.deep_view() =~= with_job(before, id, next));
                    }
                    Ok(())
                } else if rule == 1 {
                    self.node_end(&groups, NodeEndKind::Crashed)
                } else if rule == 2 {
                    self.node_end(&groups, NodeEndKind::Cancelled)
                } else {
                    // A timeout keyword anywhere wins, so "Failed ... timed out" stays a timeout.
                    let status: LogStatus = if rule == 3 && holds(
                        to_chars(line).as_slice(),
                        "timed out",
                    ) {
                        LogStatus::Timeout
                    } else {
                        LogStatus::Failed
                    };
                    self.record_failure(
                        groups.text(2).as_str(),
                        groups.text(1).as_str(),
                        status,
                    )
                }
            },
        }
    }

    /// Records where a worker's part in a job ended.
    fn node_end(&mut self, groups: &Groups, kind: NodeEndKind) -> (done: Result<()>)
        ensures
            match node_end_applied(old(self).jobs.deep_view(), groups@, kind) {
                Ok(jobs) => done is Ok && final(self).jobs.deep_view() == jobs,
                Err(failure) => done is Err && done->Err_0@ == failure,
            },
    {
        let ghost before = self.jobs.deep_view();
        let ts: Ts = match Ts::parse(groups.text(1).as_str()) {
            Ok(ts) => ts,
            Err(error) => {
                return Err(error);
            },
        };
        let place: usize = self.ensure(groups.text(3).as_str());
        let worker: String = groups.text(2);
        self.jobs[place].node_ends.push((worker, ts, kind));
        proof {
            let id = group_text(groups@, 3);
            let job = job_of(before, id);
            let next = JobModel {
                node_ends: job.node_ends.push((group_text(groups@, 2), ts@, kind)),
                ..job
            };
            assert(self.jobs@[place as int].deep_view() =~= next);
            assert(self.jobs.deep_view() =~= with_job(before, id, next));
        }
        Ok(())
    }

    /// Records a job's terminal failure status and end time unless it already succeeded. The end
    /// time is parsed only when the status is recorded.
    pub fn record_failure(&mut self, id: &str, ts: &str, status: LogStatus) -> (done: Result<()>)
        ensures
            match failure_applied(old(self).jobs.deep_view(), id@, ts@, status) {
                Ok(jobs) => done is Ok && final(self).jobs.deep_view() == jobs,
                Err(failure) => done is Err && done->Err_0@ == failure,
            },
    {
        let ghost before = self.jobs.deep_view();
        let place: usize = self.ensure(id);
        if self.jobs[place].status == LogStatus::Success {
            return Ok(());
        }
        let ts: Ts = match Ts::parse(ts) {
            Ok(ts) => ts,
            Err(error) => {
                return Err(error);
            },
        };
        self.jobs[place].status = status;
        self.jobs[place].t_end = Some(ts);
        proof {
            let next = JobModel { status, t_end: Some(ts@), ..job_of(before, id@) };
            assert(self.jobs@[place as int].deep_view() =~= next);
            assert(self.jobs.deep_view() =~= with_job(before, id@, next));
        }
        Ok(())
    }

    /// Routes what a section's patterns found in a line.
    pub fn apply(&mut self, section: Section, found: Found, line: &str) -> (done: Result<()>)
        ensures
            match line_applied(old(self).jobs.deep_view(), section, found_view(found), line@) {
                Ok(jobs) => done is Ok && final(self).jobs.deep_view() == jobs,
                Err(failure) => done is Err && done->Err_0@ == failure,
            },
    {
        match section {
            Section::Phase1 => self.phase1(found, line),
            Section::Phase2 => self.phase2(found, line),
            Section::Phase3 => self.phase3(found, line),
            Section::Job => self.job(found, line),
            Section::Untagged => self.untagged(found, line),
            Section::Ignored => Ok(()),
            Section::New => Err(unrecognized(line)),
        }
    }

    /// Routes one log line to the precise patterns for its tag, failing on an uncovered line.
    pub fn consume(&mut self, patterns: &Patterns, line: &str) -> (done: Result<()>)
        requires
            patterns.compiled(),
        ensures
            match consumed(old(self).jobs.deep_view(), line@) {
                Ok(jobs) => done is Ok && final(self).jobs.deep_view() == jobs,
                Err(failure) => done is Err && done->Err_0@ == failure,
            },
    {
        let section: Section = patterns.section(line);
        let found: Found = patterns.find(section, line);
        self.apply(section, found, line)
    }
}

/// A count printed with dots between its groups of digits.
fn count(text: &str) -> (value: Option<u64>)
    ensures
        value == dotted_count(text@),
{
    proof {
        reveal_strlit(".");
    }
    let text: Vec<char> = to_chars(text);
    let digits: Vec<char> = replace(
        text.as_slice(),
        to_chars(".").as_slice(),
        to_chars("").as_slice(),
    );
    read_unsigned(digits.as_slice(), u64::MAX)
}

/// The part of the log that a line's leading tag names.
pub fn section(tag: &Option<String>) -> (section: Section)
    ensures
        section == section_of(tag.deep_view()),
{
    match tag {
        None => Section::Untagged,
        Some(tag) => {
            let tag: Vec<char> = to_chars(tag.as_str());
            let tag = tag.as_slice();
            if is(tag, "Phase1") {
                Section::Phase1
            } else if is(tag, "Phase2") {
                Section::Phase2
            } else if is(tag, "Phase3") {
                Section::Phase3
            } else if is(tag, "Job") {
                Section::Job
            } else if is(tag, "Coordinator") || is(tag, "Setup") || is(tag, "Recovery") {
                Section::Ignored
            } else {
                Section::New
            }
        },
    }
}

fn tag_in(pattern: &Pattern, line: &str) -> (tag: Option<String>)
    requires
        pattern@ == TAG_RE@,
    ensures
        tag.deep_view() == tag_of(matched(TAG_RE@, line@)),
{
    match pattern.captures(line) {
        Some(groups) => if groups.took_part(1) {
            Some(groups.text(1))
        } else {
            None
        },
        None => None,
    }
}

/// The leading bracket tag of an INFO-level coordinator event line, the first bracketed token after
/// the INFO level. Lines at other levels, untagged INFO lines, and the container preamble return
/// None, so only data-bearing INFO lines are routed by tag and checked for being unparsed.
pub fn leading_tag(line: &str) -> (tag: Option<String>)
    ensures
        tag.deep_view() == tag_of(matched(TAG_RE@, line@)),
{
    tag_in(&Pattern::new(TAG_RE), line)
}

/// The coordinator patterns, compiled.
pub struct Patterns {
    tag: Pattern,
    phase1: Rules,
    phase2: Rules,
    phase3: Rules,
    job: Rules,
    untagged: Rules,
}

impl Patterns {
    /// Whether the patterns are those of the coordinator log.
    pub closed spec fn compiled(&self) -> bool {
        &&& self.tag@ == TAG_RE@
        &&& self.phase1@ == phase1_patterns()
        &&& self.phase2@ == phase2_patterns()
        &&& self.phase3@ == phase3_patterns()
        &&& self.job@ == job_patterns()
        &&& self.untagged@ == untagged_patterns()
    }

    /// Compiles the coordinator patterns.
    pub fn new() -> (patterns: Patterns)
        ensures
            patterns.compiled(),
    {
        let patterns = Patterns {
            tag: Pattern::new(TAG_RE),
            phase1: Rules::new().with(RE_P1_START).with(RE_P1_DONE),
            phase2: Rules::new().with(RE_P2_START).with(RE_P2_DONE),
            phase3: Rules::new().with(RE_P3_ASSIGN).with(RE_P3_DONE),
            job: Rules::new().with(RE_JOB_STARTED).with(RE_JOB_DONE).with(RE_JOB_INFO),
            untagged: Rules::new().with(RE_INPUT).with(RE_CONN_DROP).with(RE_CANCEL_ACK).with(
                RE_JOB_FAILED,
            ).with(RE_JOB_FAILED_LINE),
        };
        assert(patterns.phase1@ =~= phase1_patterns());
        assert(patterns.phase2@ =~= phase2_patterns());
        assert(patterns.phase3@ =~= phase3_patterns());
        assert(patterns.job@ =~= job_patterns());
        assert(patterns.untagged@ =~= untagged_patterns());
        patterns
    }

    /// The part of the log that a line belongs to, by its leading tag.
    fn section(&self, line: &str) -> (part: Section)
        requires
            self.compiled(),
        ensures
            part == section_of(tag_of(matched(TAG_RE@, line@))),
    {
        section(&tag_in(&self.tag, line))
    }

    /// What a section's patterns find in a line.
    fn find(&self, section: Section, line: &str) -> (found: Found)
        requires
            self.compiled(),
        ensures
            found_view(found) == first_matched(section_patterns(section), line@, 0),
    {
        match section {
            Section::Phase1 => self.phase1.first_match(line),
            Section::Phase2 => self.phase2.first_match(line),
            Section::Phase3 => self.phase3.first_match(line),
            Section::Job => self.job.first_match(line),
            Section::Untagged => self.untagged.first_match(line),
            Section::Ignored | Section::New => None,
        }
    }
}

/// Parses coordinator log text into first-seen-ordered raw jobs. An INFO line with a data tag or
/// brand-new tag matching no pattern is fatal, so a zisk log-format change is a fixable error
/// rather than dropped data.
pub fn parse(text: &str) -> (jobs: Result<Vec<RawJob>>)
    ensures
        match consumed_all(seq![], lines_of(without_ansi(text@))) {
            Ok(expected) => jobs is Ok && jobs->Ok_0.deep_view() == expected,
            Err(failure) => jobs is Err && jobs->Err_0@ == failure,
        },
{
    let patterns: Patterns = Patterns::new();
    let clean: String = strip_ansi(text);
    let chars: Vec<char> = to_chars(clean.as_str());
    let lines: Vec<Vec<char>> = lines(chars.as_slice());
    let ghost all = lines_of(clean@);
    let mut state = Coordinator { jobs: Vec::new() };
    assert(all.skip(0) =~= all);
    assert(state.jobs.deep_view() =~= seq![]);
    for i in 0..lines.len()
        invariant
            patterns.compiled(),
            all == views(lines@),
            all == lines_of(without_ansi(text@)),
            consumed_all(seq![], all) == consumed_all(
                state.jobs.deep_view(),
                all.skip(i as int),
            ),
    {
        assert(all.skip(i as int)[0] == lines@[i as int]@);
        assert(all.skip(i as int).skip(1) =~= all.skip(i + 1));
        let line: String = to_text(lines[i].as_slice());
        match state.consume(&patterns, line.as_str()) {
            Ok(()) => {},
            Err(error) => {
                return Err(error);
            },
        }
    }
    Ok(state.jobs)
}

} // verus!
