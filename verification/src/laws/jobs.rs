//! What holds of every job that a coordinator log yields.

use vstd::prelude::*;

use crate::log::LogStatus;
use crate::openvm::coordinator as openvm;
use crate::zisk::coordinator as zisk;

verus! {

/// Whether no two zisk jobs have the same id.
pub open spec fn zisk_distinct(jobs: Seq<zisk::JobModel>) -> bool {
    forall|i: int, j: int|
        0 <= i < j < jobs.len() ==> (#[trigger] jobs[i]).id != (#[trigger] jobs[j]).id
}

/// Whether a list of zisk jobs carries another on: its jobs keep their places and ids, and a
/// success stays a success.
pub open spec fn zisk_carried_on(before: Seq<zisk::JobModel>, after: Seq<zisk::JobModel>) -> bool {
    &&& before.len() <= after.len()
    &&& forall|i: int|
        #![trigger before[i]]
        #![trigger after[i]]
        0 <= i < before.len() ==> {
            &&& after[i].id == before[i].id
            &&& before[i].status == LogStatus::Success ==> after[i].status == LogStatus::Success
        }
}

proof fn lemma_zisk_place(jobs: Seq<zisk::JobModel>, id: Seq<char>, from: int)
    requires
        0 <= from <= jobs.len(),
    ensures
        from <= zisk::job_place(jobs, id, from) <= jobs.len(),
        zisk::job_place(jobs, id, from) < jobs.len() ==> jobs[zisk::job_place(jobs, id, from)].id
            == id,
        forall|i: int|
            from <= i < zisk::job_place(jobs, id, from) ==> (#[trigger] jobs[i]).id != id,
    decreases jobs.len() - from,
{
    if from < jobs.len() && jobs[from].id != id {
        lemma_zisk_place(jobs, id, from + 1);
    }
}

proof fn lemma_zisk_with_job(jobs: Seq<zisk::JobModel>, id: Seq<char>, job: zisk::JobModel)
    requires
        zisk_distinct(jobs),
        job.id == id,
        zisk::job_of(jobs, id).status == LogStatus::Success ==> job.status == LogStatus::Success,
    ensures
        zisk_distinct(zisk::with_job(jobs, id, job)),
        zisk_carried_on(jobs, zisk::with_job(jobs, id, job)),
        zisk_distinct(zisk::ensured(jobs, id)),
        zisk_carried_on(jobs, zisk::ensured(jobs, id)),
        zisk::job_of(jobs, id).id == id,
{
    lemma_zisk_place(jobs, id, 0);
}

proof fn lemma_zisk_id(jobs: Seq<zisk::JobModel>, id: Seq<char>)
    ensures
        zisk::job_of(jobs, id).id == id,
{
    lemma_zisk_place(jobs, id, 0);
}

proof fn lemma_zisk_consumed(jobs: Seq<zisk::JobModel>, line: Seq<char>)
    requires
        zisk_distinct(jobs),
    ensures
        match zisk::consumed(jobs, line) {
            Ok(after) => zisk_distinct(after) && zisk_carried_on(jobs, after),
            Err(_) => true,
        },
{
    let section = zisk::section_of(
        zisk::tag_of(crate::pattern::matched(zisk::TAG_RE@, line)),
    );
    let found = crate::pattern::first_matched(zisk::section_patterns(section), line, 0);
    match found {
        Some((rule, groups)) => {
            let second = crate::pattern::group_text(groups, 2);
            let third = crate::pattern::group_text(groups, 3);
            lemma_zisk_id(jobs, second);
            lemma_zisk_id(jobs, third);
            assert forall|job: zisk::JobModel|
                job.id == second && (zisk::job_of(jobs, second).status == LogStatus::Success
                    ==> job.status == LogStatus::Success) implies zisk_distinct(
                #[trigger] zisk::with_job(jobs, second, job),
            ) && zisk_carried_on(jobs, zisk::with_job(jobs, second, job)) by {
                lemma_zisk_with_job(jobs, second, job);
            }
            assert forall|job: zisk::JobModel|
                job.id == third && (zisk::job_of(jobs, third).status == LogStatus::Success
                    ==> job.status == LogStatus::Success) implies zisk_distinct(
                #[trigger] zisk::with_job(jobs, third, job),
            ) && zisk_carried_on(jobs, zisk::with_job(jobs, third, job)) by {
                lemma_zisk_with_job(jobs, third, job);
            }
            lemma_zisk_with_job(jobs, second, zisk::job_of(jobs, second));
        },
        None => {},
    }
}

proof fn lemma_zisk_all(jobs: Seq<zisk::JobModel>, lines: Seq<Seq<char>>)
    requires
        zisk_distinct(jobs),
    ensures
        match zisk::consumed_all(jobs, lines) {
            Ok(after) => zisk_distinct(after) && zisk_carried_on(jobs, after),
            Err(_) => true,
        },
    decreases lines.len(),
{
    if lines.len() > 0 {
        lemma_zisk_consumed(jobs, lines[0]);
        match zisk::consumed(jobs, lines[0]) {
            Ok(next) => {
                lemma_zisk_all(next, lines.skip(1));
                match zisk::consumed_all(jobs, lines) {
                    Ok(after) => {
                        assert forall|i: int| 0 <= i < jobs.len() implies {
                            &&& (#[trigger] after[i]).id == jobs[i].id
                            &&& jobs[i].status == LogStatus::Success ==> after[i].status
                                == LogStatus::Success
                        } by {
                            assert(next[i].id == jobs[i].id);
                        }
                    },
                    Err(_) => {},
                }
            },
            Err(_) => {},
        }
    }
}

/// A zisk coordinator log yields each job once.
pub proof fn zisk_jobs_are_distinct(lines: Seq<Seq<char>>)
    ensures
        match zisk::consumed_all(seq![], lines) {
            Ok(jobs) => zisk_distinct(jobs),
            Err(_) => true,
        },
{
    lemma_zisk_all(seq![], lines);
}

/// Jobs keep their first-seen places, and no later line of a zisk coordinator log demotes a
/// success.
pub proof fn zisk_success_is_final(jobs: Seq<zisk::JobModel>, lines: Seq<Seq<char>>)
    requires
        zisk_distinct(jobs),
    ensures
        match zisk::consumed_all(jobs, lines) {
            Ok(after) => zisk_carried_on(jobs, after),
            Err(_) => true,
        },
{
    lemma_zisk_all(jobs, lines);
}

/// Whether no two openvm jobs have the same id.
pub open spec fn openvm_distinct(jobs: Seq<openvm::JobModel>) -> bool {
    forall|i: int, j: int|
        0 <= i < j < jobs.len() ==> (#[trigger] jobs[i]).id != (#[trigger] jobs[j]).id
}

/// Whether a list of openvm jobs carries another on: its jobs keep their places and ids, and a
/// success stays a success.
pub open spec fn openvm_carried_on(
    before: Seq<openvm::JobModel>,
    after: Seq<openvm::JobModel>,
) -> bool {
    &&& before.len() <= after.len()
    &&& forall|i: int|
        #![trigger before[i]]
        #![trigger after[i]]
        0 <= i < before.len() ==> {
            &&& after[i].id == before[i].id
            &&& before[i].status == LogStatus::Success ==> after[i].status == LogStatus::Success
        }
}

proof fn lemma_openvm_place(jobs: Seq<openvm::JobModel>, id: Seq<char>, from: int)
    requires
        0 <= from <= jobs.len(),
    ensures
        from <= openvm::job_place(jobs, id, from) <= jobs.len(),
        openvm::job_place(jobs, id, from) < jobs.len() ==> jobs[openvm::job_place(
            jobs,
            id,
            from,
        )].id == id,
        forall|i: int|
            from <= i < openvm::job_place(jobs, id, from) ==> (#[trigger] jobs[i]).id != id,
    decreases jobs.len() - from,
{
    if from < jobs.len() && jobs[from].id != id {
        lemma_openvm_place(jobs, id, from + 1);
    }
}

proof fn lemma_openvm_consumed(jobs: Seq<openvm::JobModel>, line: Seq<char>)
    requires
        openvm_distinct(jobs),
    ensures
        match openvm::consumed(jobs, line) {
            Ok(after) => openvm_distinct(after) && openvm_carried_on(jobs, after),
            Err(_) => true,
        },
{
    match crate::pattern::first_matched(openvm::coordinator_patterns(), line, 0) {
        Some((_, groups)) => {
            lemma_openvm_place(jobs, crate::pattern::group_text(groups, 2), 0);
        },
        None => {},
    }
}

proof fn lemma_openvm_all(jobs: Seq<openvm::JobModel>, lines: Seq<Seq<char>>)
    requires
        openvm_distinct(jobs),
    ensures
        match openvm::consumed_all(jobs, lines) {
            Ok(after) => openvm_distinct(after) && openvm_carried_on(jobs, after),
            Err(_) => true,
        },
    decreases lines.len(),
{
    if lines.len() > 0 {
        lemma_openvm_consumed(jobs, lines[0]);
        match openvm::consumed(jobs, lines[0]) {
            Ok(next) => {
                lemma_openvm_all(next, lines.skip(1));
                match openvm::consumed_all(jobs, lines) {
                    Ok(after) => {
                        assert forall|i: int| 0 <= i < jobs.len() implies {
                            &&& (#[trigger] after[i]).id == jobs[i].id
                            &&& jobs[i].status == LogStatus::Success ==> after[i].status
                                == LogStatus::Success
                        } by {
                            assert(next[i].id == jobs[i].id);
                        }
                    },
                    Err(_) => {},
                }
            },
            Err(_) => {},
        }
    }
}

/// An openvm coordinator log yields each job once.
pub proof fn openvm_jobs_are_distinct(lines: Seq<Seq<char>>)
    ensures
        match openvm::consumed_all(seq![], lines) {
            Ok(jobs) => openvm_distinct(jobs),
            Err(_) => true,
        },
{
    lemma_openvm_all(seq![], lines);
}

/// Jobs keep their first-seen places, and no later line of an openvm coordinator log demotes a
/// success.
pub proof fn openvm_success_is_final(jobs: Seq<openvm::JobModel>, lines: Seq<Seq<char>>)
    requires
        openvm_distinct(jobs),
    ensures
        match openvm::consumed_all(jobs, lines) {
            Ok(after) => openvm_carried_on(jobs, after),
            Err(_) => true,
        },
{
    lemma_openvm_all(jobs, lines);
}

/// Whether a zisk coordinator line carries a data tag or a brand-new tag and matches no pattern of
/// it.
pub open spec fn zisk_uncovered(line: Seq<char>) -> bool {
    let section = zisk::section_of(zisk::tag_of(crate::pattern::matched(zisk::TAG_RE@, line)));
    &&& section != zisk::Section::Untagged
    &&& section != zisk::Section::Ignored
    &&& crate::pattern::first_matched(zisk::section_patterns(section), line, 0) is None
}

/// A zisk log-format change is never dropped in silence: an uncovered line anywhere in the log ends
/// the parse in an error.
pub proof fn zisk_uncovered_line_is_fatal(
    jobs: Seq<zisk::JobModel>,
    lines: Seq<Seq<char>>,
    at: int,
)
    requires
        0 <= at < lines.len(),
        zisk_uncovered(lines[at]),
    ensures
        zisk::consumed_all(jobs, lines) is Err,
    decreases lines.len(),
{
    if at > 0 {
        match zisk::consumed(jobs, lines[0]) {
            Ok(next) => {
                assert(lines.skip(1)[at - 1] == lines[at]);
                zisk_uncovered_line_is_fatal(next, lines.skip(1), at - 1);
            },
            Err(_) => {},
        }
    }
}

/// An untagged line that no pattern knows is skipped, because these lines are too varied and carry
/// no data.
pub proof fn zisk_unknown_line_is_skipped(jobs: Seq<zisk::JobModel>, line: Seq<char>)
    requires
        crate::pattern::matched(zisk::TAG_RE@, line) is None,
        crate::pattern::first_matched(zisk::untagged_patterns(), line, 0) is None,
    ensures
        zisk::consumed(jobs, line) == Ok::<Seq<zisk::JobModel>, crate::error::Failure>(jobs),
{
}

/// Whether an openvm coordinator line carries an anchor phrase and matches no pattern.
pub open spec fn openvm_uncovered(line: Seq<char>) -> bool {
    openvm::anchored(line) && crate::pattern::first_matched(
        openvm::coordinator_patterns(),
        line,
        0,
    ) is None
}

/// A manager format change is never dropped in silence: an anchored line that no pattern covers
/// ends the parse in an error wherever it stands.
pub proof fn openvm_uncovered_line_is_fatal(
    jobs: Seq<openvm::JobModel>,
    lines: Seq<Seq<char>>,
    at: int,
)
    requires
        0 <= at < lines.len(),
        openvm_uncovered(lines[at]),
    ensures
        openvm::consumed_all(jobs, lines) is Err,
    decreases lines.len(),
{
    if at > 0 {
        match openvm::consumed(jobs, lines[0]) {
            Ok(next) => {
                assert(lines.skip(1)[at - 1] == lines[at]);
                openvm_uncovered_line_is_fatal(next, lines.skip(1), at - 1);
            },
            Err(_) => {},
        }
    }
}

} // verus!
