//! What every line of a zisk coordinator log does to the jobs.

use vstd::prelude::*;

use crate::error::Failure;
use crate::log::{ts_read, LogStatus, NodeEndKind};
use crate::pattern::group_text;
use crate::text::{contains_piece, replaced, unsigned_read};
use crate::zisk::coordinator::{
    consumed_all, dotted_count, ensured, job_of, job_place, line_applied, section_of,
    section_patterns, tag_of, with_job, JobModel, Section, RE_CANCEL_ACK, RE_CONN_DROP, RE_INPUT,
    RE_JOB_DONE, RE_JOB_FAILED, RE_JOB_FAILED_LINE, RE_JOB_INFO, RE_JOB_STARTED, RE_P1_DONE,
    RE_P1_START, RE_P2_DONE, RE_P2_START, RE_P3_ASSIGN, RE_P3_DONE,
};

verus! {

/// A job of which nothing but its id is known.
pub open spec fn blank_job(id: Seq<char>) -> JobModel {
    JobModel {
        id,
        status: LogStatus::Unknown,
        t_start: None,
        t_end: None,
        t_p3_start: None,
        t_p3_end: None,
        input_bytes: None,
        instances: None,
        steps: None,
        duration_s: None,
        aggregator: None,
        p1: seq![],
        p2: seq![],
        node_ends: seq![],
    }
}

/// Whether an event changed one job and nothing else: the first job of the id, or where there is none
/// a blank one that is added behind the others.
pub open spec fn changes(
    jobs: Seq<JobModel>,
    after: Seq<JobModel>,
    id: Seq<char>,
    change: spec_fn(JobModel, JobModel) -> bool,
) -> bool {
    ||| exists|place: int|
        {
            &&& 0 <= place < jobs.len()
            &&& (#[trigger] jobs[place]).id == id
            &&& forall|i: int| 0 <= i < place ==> (#[trigger] jobs[i]).id != id
            &&& after.len() == jobs.len()
            &&& change(jobs[place], after[place])
            &&& forall|i: int| 0 <= i < jobs.len() && i != place ==> #[trigger] after[i] == jobs[i]
        }
    ||| {
        &&& forall|i: int| 0 <= i < jobs.len() ==> (#[trigger] jobs[i]).id != id
        &&& after.len() == jobs.len() + 1
        &&& change(blank_job(id), after.last())
        &&& after.drop_last() == jobs
    }
}

proof fn lemma_job_place(jobs: Seq<JobModel>, id: Seq<char>, from: int)
    requires
        0 <= from <= jobs.len(),
    ensures
        from <= job_place(jobs, id, from) <= jobs.len(),
        job_place(jobs, id, from) < jobs.len() ==> jobs[job_place(jobs, id, from)].id == id,
        forall|i: int|
            from <= i < job_place(jobs, id, from) && i < jobs.len() ==> (#[trigger] jobs[i]).id
                != id,
    decreases jobs.len() - from,
{
    if from < jobs.len() && jobs[from].id != id {
        lemma_job_place(jobs, id, from + 1);
    }
}

proof fn lemma_changes(
    jobs: Seq<JobModel>,
    id: Seq<char>,
    job: JobModel,
    change: spec_fn(JobModel, JobModel) -> bool,
)
    requires
        change(job_of(jobs, id), job),
    ensures
        changes(jobs, with_job(jobs, id, job), id, change),
{
    lemma_job_place(jobs, id, 0);
    let place = job_place(jobs, id, 0);
    let after = with_job(jobs, id, job);
    if place < jobs.len() {
        assert(jobs[place].id == id);
        assert(change(jobs[place], after[place]));
    } else {
        assert(after.drop_last() =~= jobs);
        assert(ensured(jobs, id)[place] =~= blank_job(id));
    }
}

proof fn lemma_ensured(jobs: Seq<JobModel>, id: Seq<char>)
    ensures
        changes(
            jobs,
            ensured(jobs, id),
            id,
            |before: JobModel, after: JobModel| after == before,
        ),
{
    lemma_job_place(jobs, id, 0);
    let place = job_place(jobs, id, 0);
    if place < jobs.len() {
        assert(jobs[place].id == id);
    } else {
        assert(ensured(jobs, id).drop_last() =~= jobs);
        assert(ensured(jobs, id)[place] =~= blank_job(id));
    }
}

/// A finished phase 1 or 2 adds its worker to that phase of the job it names; a started one only makes
/// the job known.
pub proof fn finished_phase_adds_its_worker(
    jobs: Seq<JobModel>,
    groups: Seq<Option<Seq<char>>>,
    line: Seq<char>,
)
    ensures
        ({
            let (worker, id) = (group_text(groups, 1), group_text(groups, 2));
            let started1 = line_applied(jobs, Section::Phase1, Some((0, groups)), line);
            let done1 = line_applied(jobs, Section::Phase1, Some((1, groups)), line);
            let started2 = line_applied(jobs, Section::Phase2, Some((0, groups)), line);
            let done2 = line_applied(jobs, Section::Phase2, Some((1, groups)), line);
            let same = |before: JobModel, after: JobModel| after == before;
            &&& started1 is Ok && changes(jobs, started1->Ok_0, id, same)
            &&& started2 is Ok && changes(jobs, started2->Ok_0, id, same)
            &&& done1 is Ok && changes(
                jobs,
                done1->Ok_0,
                id,
                |before: JobModel, after: JobModel|
                    after == (JobModel { p1: after.p1, ..before }) && after.p1.len()
                        == before.p1.len() + 1 && after.p1.drop_last() == before.p1
                        && after.p1.last() == worker,
            )
            &&& done2 is Ok && changes(
                jobs,
                done2->Ok_0,
                id,
                |before: JobModel, after: JobModel|
                    after == (JobModel { p2: after.p2, ..before }) && after.p2.len()
                        == before.p2.len() + 1 && after.p2.drop_last() == before.p2
                        && after.p2.last() == worker,
            )
        }),
{
    let (worker, id) = (group_text(groups, 1), group_text(groups, 2));
    let job = job_of(jobs, id);
    lemma_ensured(jobs, id);
    let p1 = job.p1.push(worker);
    let p2 = job.p2.push(worker);
    assert(p1.drop_last() =~= job.p1);
    assert(p2.drop_last() =~= job.p2);
    lemma_changes(
        jobs,
        id,
        JobModel { p1, ..job },
        |before: JobModel, after: JobModel|
            after == (JobModel { p1: after.p1, ..before }) && after.p1.len() == before.p1.len() + 1
                && after.p1.drop_last() == before.p1 && after.p1.last() == worker,
    );
    lemma_changes(
        jobs,
        id,
        JobModel { p2, ..job },
        |before: JobModel, after: JobModel|
            after == (JobModel { p2: after.p2, ..before }) && after.p2.len() == before.p2.len() + 1
                && after.p2.drop_last() == before.p2 && after.p2.last() == worker,
    );
}

/// The assignment of phase 3 names the aggregator of its job and when the phase began, and its end
/// when the phase ended.
pub proof fn phase_three_sets_its_bounds(
    jobs: Seq<JobModel>,
    groups: Seq<Option<Seq<char>>>,
    line: Seq<char>,
    ns: int,
)
    requires
        ts_read(group_text(groups, 1)) == Ok::<int, Failure>(ns),
    ensures
        ({
            let assigned = line_applied(jobs, Section::Phase3, Some((0, groups)), line);
            let done = line_applied(jobs, Section::Phase3, Some((1, groups)), line);
            let worker = group_text(groups, 2);
            &&& assigned is Ok && changes(
                jobs,
                assigned->Ok_0,
                group_text(groups, 3),
                |before: JobModel, after: JobModel|
                    after == (JobModel {
                        aggregator: Some(worker),
                        t_p3_start: Some(ns),
                        ..before
                    }),
            )
            &&& done is Ok && changes(
                jobs,
                done->Ok_0,
                group_text(groups, 2),
                |before: JobModel, after: JobModel|
                    after == (JobModel { t_p3_end: Some(ns), ..before }),
            )
        }),
{
    let worker = group_text(groups, 2);
    let (first, second) = (group_text(groups, 3), group_text(groups, 2));
    lemma_changes(
        jobs,
        first,
        JobModel { aggregator: Some(worker), t_p3_start: Some(ns), ..job_of(jobs, first) },
        |before: JobModel, after: JobModel|
            after == (JobModel { aggregator: Some(worker), t_p3_start: Some(ns), ..before }),
    );
    lemma_changes(
        jobs,
        second,
        JobModel { t_p3_end: Some(ns), ..job_of(jobs, second) },
        |before: JobModel, after: JobModel| after == (JobModel { t_p3_end: Some(ns), ..before }),
    );
}

/// A job's start sets when it started. Its finish makes it a success that ended then, with the
/// duration, the steps, and the instances that the line prints; the counts are read without the dots
/// that group their digits.
pub proof fn job_lines_set_start_and_finish(
    jobs: Seq<JobModel>,
    groups: Seq<Option<Seq<char>>>,
    line: Seq<char>,
    ns: int,
)
    requires
        ts_read(group_text(groups, 1)) == Ok::<int, Failure>(ns),
    ensures
        ({
            let id = group_text(groups, 2);
            let started = line_applied(jobs, Section::Job, Some((0, groups)), line);
            let done = line_applied(jobs, Section::Job, Some((1, groups)), line);
            let (duration, steps, instances) = (
                group_text(groups, 3),
                group_text(groups, 4),
                group_text(groups, 5),
            );
            &&& started is Ok && changes(
                jobs,
                started->Ok_0,
                id,
                |before: JobModel, after: JobModel|
                    after == (JobModel { t_start: Some(ns), ..before }),
            )
            &&& done is Ok && changes(
                jobs,
                done->Ok_0,
                id,
                |before: JobModel, after: JobModel|
                    {
                        &&& after == (JobModel {
                            status: LogStatus::Success,
                            t_end: Some(ns),
                            duration_s: Some((duration, 1u32)),
                            steps: after.steps,
                            instances: after.instances,
                            ..before
                        })
                        &&& after.steps is Some <==> unsigned_read(
                            replaced(steps, "."@, ""@),
                            u64::MAX as int,
                        ) is Some
                        &&& after.steps is Some ==> after.steps->0 == unsigned_read(
                            replaced(steps, "."@, ""@),
                            u64::MAX as int,
                        )->0
                        &&& after.instances is Some <==> unsigned_read(
                            replaced(instances, "."@, ""@),
                            u64::MAX as int,
                        ) is Some
                        &&& after.instances is Some ==> after.instances->0 == unsigned_read(
                            replaced(instances, "."@, ""@),
                            u64::MAX as int,
                        )->0
                    },
            )
            &&& line_applied(jobs, Section::Job, Some((2, groups)), line) == Ok::<
                Seq<JobModel>,
                Failure,
            >(jobs)
        }),
{
    let id = group_text(groups, 2);
    let job = job_of(jobs, id);
    let (duration, steps, instances) = (
        group_text(groups, 3),
        group_text(groups, 4),
        group_text(groups, 5),
    );
    lemma_changes(
        jobs,
        id,
        JobModel { t_start: Some(ns), ..job },
        |before: JobModel, after: JobModel| after == (JobModel { t_start: Some(ns), ..before }),
    );
    crate::laws::texts::unsigned_is_within(replaced(steps, "."@, ""@), u64::MAX as int);
    crate::laws::texts::unsigned_is_within(replaced(instances, "."@, ""@), u64::MAX as int);
    lemma_changes(
        jobs,
        id,
        JobModel {
            status: LogStatus::Success,
            t_end: Some(ns),
            duration_s: Some((duration, 1u32)),
            steps: dotted_count(steps),
            instances: dotted_count(instances),
            ..job
        },
        |before: JobModel, after: JobModel|
            {
                &&& after == (JobModel {
                    status: LogStatus::Success,
                    t_end: Some(ns),
                    duration_s: Some((duration, 1u32)),
                    steps: after.steps,
                    instances: after.instances,
                    ..before
                })
                &&& after.steps is Some <==> unsigned_read(
                    replaced(steps, "."@, ""@),
                    u64::MAX as int,
                ) is Some
                &&& after.steps is Some ==> after.steps->0 == unsigned_read(
                    replaced(steps, "."@, ""@),
                    u64::MAX as int,
                )->0
                &&& after.instances is Some <==> unsigned_read(
                    replaced(instances, "."@, ""@),
                    u64::MAX as int,
                ) is Some
                &&& after.instances is Some ==> after.instances->0 == unsigned_read(
                    replaced(instances, "."@, ""@),
                    u64::MAX as int,
                )->0
            },
    );
}

/// A line that tells the input's size sets it on its job; where the size does not fit it is unknown.
pub proof fn input_line_sets_the_size(
    jobs: Seq<JobModel>,
    groups: Seq<Option<Seq<char>>>,
    line: Seq<char>,
)
    ensures
        ({
            let read = unsigned_read(group_text(groups, 3), u64::MAX as int);
            let after = line_applied(jobs, Section::Untagged, Some((0, groups)), line);
            after is Ok && changes(
                jobs,
                after->Ok_0,
                group_text(groups, 2),
                |before: JobModel, after: JobModel|
                    {
                        &&& after == (JobModel { input_bytes: after.input_bytes, ..before })
                        &&& after.input_bytes is Some <==> read is Some
                        &&& after.input_bytes is Some ==> after.input_bytes->0 == read->0
                    },
            )
        }),
{
    let id = group_text(groups, 2);
    let read = unsigned_read(group_text(groups, 3), u64::MAX as int);
    crate::laws::texts::unsigned_is_within(group_text(groups, 3), u64::MAX as int);
    let bytes = match read {
        Some(value) => Some(value as u64),
        None => None,
    };
    lemma_changes(
        jobs,
        id,
        JobModel { input_bytes: bytes, ..job_of(jobs, id) },
        |before: JobModel, after: JobModel|
            {
                &&& after == (JobModel { input_bytes: after.input_bytes, ..before })
                &&& after.input_bytes is Some <==> read is Some
                &&& after.input_bytes is Some ==> after.input_bytes->0 == read->0
            },
    );
}

/// A dropped connection ends its worker crashed, and an acknowledged cancellation ends it cancelled,
/// at the line's moment on the job that the line names.
pub proof fn worker_lines_end_the_worker(
    jobs: Seq<JobModel>,
    groups: Seq<Option<Seq<char>>>,
    line: Seq<char>,
    ns: int,
)
    requires
        ts_read(group_text(groups, 1)) == Ok::<int, Failure>(ns),
    ensures
        ({
            let (worker, id) = (group_text(groups, 2), group_text(groups, 3));
            let dropped = line_applied(jobs, Section::Untagged, Some((1, groups)), line);
            let cancelled = line_applied(jobs, Section::Untagged, Some((2, groups)), line);
            &&& dropped is Ok && changes(
                jobs,
                dropped->Ok_0,
                id,
                |before: JobModel, after: JobModel|
                    after == (JobModel {
                        node_ends: before.node_ends.push((worker, ns, NodeEndKind::Crashed)),
                        ..before
                    }),
            )
            &&& cancelled is Ok && changes(
                jobs,
                cancelled->Ok_0,
                id,
                |before: JobModel, after: JobModel|
                    after == (JobModel {
                        node_ends: before.node_ends.push((worker, ns, NodeEndKind::Cancelled)),
                        ..before
                    }),
            )
        }),
{
    let (worker, id) = (group_text(groups, 2), group_text(groups, 3));
    let job = job_of(jobs, id);
    lemma_changes(
        jobs,
        id,
        JobModel { node_ends: job.node_ends.push((worker, ns, NodeEndKind::Crashed)), ..job },
        |before: JobModel, after: JobModel|
            after == (JobModel {
                node_ends: before.node_ends.push((worker, ns, NodeEndKind::Crashed)),
                ..before
            }),
    );
    lemma_changes(
        jobs,
        id,
        JobModel { node_ends: job.node_ends.push((worker, ns, NodeEndKind::Cancelled)), ..job },
        |before: JobModel, after: JobModel|
            after == (JobModel {
                node_ends: before.node_ends.push((worker, ns, NodeEndKind::Cancelled)),
                ..before
            }),
    );
}

/// A failure line ends its job at the line's moment: as a timeout where a line of that form says that
/// the job timed out, and as failed otherwise. A job that succeeded stays as it is.
pub proof fn failure_line_ends_the_job(
    jobs: Seq<JobModel>,
    rule: int,
    groups: Seq<Option<Seq<char>>>,
    line: Seq<char>,
    ns: int,
)
    requires
        rule == 3 || rule == 4,
        ts_read(group_text(groups, 1)) == Ok::<int, Failure>(ns),
    ensures
        ({
            let after = line_applied(jobs, Section::Untagged, Some((rule, groups)), line);
            after is Ok && changes(
                jobs,
                after->Ok_0,
                group_text(groups, 2),
                |before: JobModel, after: JobModel|
                    if before.status == LogStatus::Success {
                        after == before
                    } else {
                        &&& after == (JobModel {
                            status: after.status,
                            t_end: Some(ns),
                            ..before
                        })
                        &&& after.status == LogStatus::Timeout <==> rule == 3 && contains_piece(
                            line,
                            "timed out"@,
                        )
                        &&& after.status == LogStatus::Timeout || after.status == LogStatus::Failed
                    },
            )
        }),
{
    let id = group_text(groups, 2);
    let job = job_of(jobs, id);
    let status = if rule == 3 && contains_piece(line, "timed out"@) {
        LogStatus::Timeout
    } else {
        LogStatus::Failed
    };
    let change = |before: JobModel, after: JobModel|
        if before.status == LogStatus::Success {
            after == before
        } else {
            &&& after == (JobModel { status: after.status, t_end: Some(ns), ..before })
            &&& after.status == LogStatus::Timeout <==> rule == 3 && contains_piece(
                line,
                "timed out"@,
            )
            &&& after.status == LogStatus::Timeout || after.status == LogStatus::Failed
        };
    if job.status == LogStatus::Success {
        lemma_job_place(jobs, id, 0);
        let place = job_place(jobs, id, 0);
        lemma_changes(jobs, id, job, change);
        assert(with_job(jobs, id, job) =~= ensured(jobs, id));
    } else {
        lemma_changes(jobs, id, JobModel { status, t_end: Some(ns), ..job }, change);
    }
}

/// A line is read by the part of the log that its tag names: the three phases, the job lines, those
/// that carry nothing, and untagged ones. Any other tag is a new one.
pub proof fn tag_names_the_part(tag: Seq<char>)
    ensures
        section_of(None) == Section::Untagged,
        section_of(Some("Phase1"@)) == Section::Phase1,
        section_of(Some("Phase2"@)) == Section::Phase2,
        section_of(Some("Phase3"@)) == Section::Phase3,
        section_of(Some("Job"@)) == Section::Job,
        section_of(Some("Coordinator"@)) == Section::Ignored,
        section_of(Some("Setup"@)) == Section::Ignored,
        section_of(Some("Recovery"@)) == Section::Ignored,
        section_of(Some(tag)) == Section::New <==> tag != "Phase1"@ && tag != "Phase2"@ && tag
            != "Phase3"@ && tag != "Job"@ && tag != "Coordinator"@ && tag != "Setup"@ && tag
            != "Recovery"@,
{
    reveal_strlit("Phase1");
    reveal_strlit("Phase2");
    reveal_strlit("Phase3");
    reveal_strlit("Job");
    reveal_strlit("Coordinator");
    reveal_strlit("Setup");
    reveal_strlit("Recovery");
    assert("Phase1"@[5] == '1' && "Phase2"@[5] == '2' && "Phase3"@[5] == '3');
    assert("Job"@.len() == 3 && "Phase1"@.len() == 6 && "Phase2"@.len() == 6 && "Phase3"@.len() == 6);
    assert("Coordinator"@.len() == 11 && "Setup"@.len() == 5 && "Recovery"@.len() == 8);
}

/// The lines of a log are taken one after another: two parts of a log give what the second gives on
/// top of the first.
pub proof fn logs_are_read_in_order(
    jobs: Seq<JobModel>,
    first: Seq<Seq<char>>,
    second: Seq<Seq<char>>,
)
    ensures
        consumed_all(jobs, first + second) == match consumed_all(jobs, first) {
            Ok(between) => consumed_all(between, second),
            Err(failure) => Err(failure),
        },
    decreases first.len(),
{
    if first.len() == 0 {
        assert(first + second =~= second);
    } else {
        assert((first + second).skip(1) =~= first.skip(1) + second);
        match crate::zisk::coordinator::consumed(jobs, first[0]) {
            Ok(next) => logs_are_read_in_order(next, first.skip(1), second),
            Err(_) => {},
        }
    }
}

/// Each part of the log is read by its own patterns: a phase by those of its start and its finish, the
/// job lines by those of the start, the finish and the summary, and untagged lines by those of the
/// input, the two ends of a worker and the two failures, in this order.
pub proof fn each_part_has_its_own_patterns()
    ensures
        section_patterns(Section::Phase1) == seq![RE_P1_START@, RE_P1_DONE@],
        section_patterns(Section::Phase2) == seq![RE_P2_START@, RE_P2_DONE@],
        section_patterns(Section::Phase3) == seq![RE_P3_ASSIGN@, RE_P3_DONE@],
        section_patterns(Section::Job) == seq![RE_JOB_STARTED@, RE_JOB_DONE@, RE_JOB_INFO@],
        section_patterns(Section::Untagged) == seq![
            RE_INPUT@,
            RE_CONN_DROP@,
            RE_CANCEL_ACK@,
            RE_JOB_FAILED@,
            RE_JOB_FAILED_LINE@,
        ],
        section_patterns(Section::Ignored).len() == 0,
        section_patterns(Section::New).len() == 0,
{
}

/// The tag of a line is the first group of its match, where that group took part.
pub proof fn tag_is_the_first_group(groups: Seq<Option<Seq<char>>>)
    ensures
        tag_of(None) is None,
        groups.len() > 1 ==> tag_of(Some(groups)) == groups[1],
        groups.len() <= 1 ==> tag_of(Some(groups)) is None,
{
}

} // verus!
