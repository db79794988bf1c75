//! What holds of every binding of proof results to logs.

use vstd::prelude::*;

use crate::binding::{
    bindings, crash_log, crashes_bound, finished_by, free_successes, same_job, seeks_success,
    successes_bound, taken, unfinished_from,
};
use crate::log::{ms_of, LogModel, LogStatus};
use crate::metrics::{MetricModel, MetricStatus};

verus! {

/// Whether no log is bound to two results.
pub open spec fn one_to_one(bound: Seq<Option<usize>>) -> bool {
    forall|i: int, j: int|
        0 <= i < j < bound.len() && (#[trigger] bound[i]) is Some ==> bound[i]
            != #[trigger] bound[j]
}

proof fn lemma_crash_log(
    logs: Seq<LogModel>,
    job: Seq<char>,
    bound: Seq<Option<usize>>,
    from: int,
)
    requires
        logs.len() <= usize::MAX,
        0 <= from,
    ensures
        match crash_log(logs, job, bound, from) {
            Some(log) => log < logs.len() && !taken(bound, log as int) && same_job(
                logs[log as int].id,
                job,
            ),
            None => true,
        },
    decreases logs.len() - from,
{
    if from < logs.len() && !(!taken(bound, from) && same_job(logs[from].id, job)) {
        lemma_crash_log(logs, job, bound, from + 1);
    }
}

proof fn lemma_crashes_bound(logs: Seq<LogModel>, blocks: Seq<MetricModel>, count: int)
    requires
        logs.len() <= usize::MAX,
        0 <= count <= blocks.len(),
    ensures
        crashes_bound(logs, blocks, count).len() == count,
        one_to_one(crashes_bound(logs, blocks, count)),
        forall|i: int|
            #![trigger crashes_bound(logs, blocks, count)[i]]
            0 <= i < count && crashes_bound(logs, blocks, count)[i] is Some ==> {
                let log = crashes_bound(logs, blocks, count)[i]->0;
                log < logs.len() && blocks[i].crashed_job is Some && same_job(
                    logs[log as int].id,
                    blocks[i].crashed_job->0,
                )
            },
    decreases count,
{
    if count > 0 {
        let before = crashes_bound(logs, blocks, count - 1);
        let after = crashes_bound(logs, blocks, count);
        lemma_crashes_bound(logs, blocks, count - 1);
        match blocks[count - 1].crashed_job {
            Some(job) => lemma_crash_log(logs, job, before, 0),
            None => {},
        }
        assert forall|i: int, j: int|
            0 <= i < j < after.len() && (#[trigger] after[i]) is Some implies after[i]
            != #[trigger] after[j] by {
            assert(after[i] == before[i]);
            if j == count - 1 && after[j] == after[i] {
                assert(before[i] == Some(after[j]->0 as int as usize));
                assert(taken(before, after[j]->0 as int));
            } else if j < count - 1 {
                assert(after[j] == before[j]);
            }
        }
        assert forall|i: int|
            #![trigger after[i]]
            0 <= i < count && after[i] is Some implies {
            let log = after[i]->0;
            log < logs.len() && blocks[i].crashed_job is Some && same_job(
                logs[log as int].id,
                blocks[i].crashed_job->0,
            )
        } by {
            if i < count - 1 {
                assert(after[i] == before[i]);
            }
        }
    }
}

proof fn lemma_free_successes(logs: Seq<LogModel>, bound: Seq<Option<usize>>, count: int)
    requires
        0 <= count <= logs.len() <= usize::MAX,
    ensures
        forall|i: int|
            #![trigger free_successes(logs, bound, count)[i]]
            0 <= i < free_successes(logs, bound, count).len() ==> {
                let log = free_successes(logs, bound, count)[i];
                log < count && !taken(bound, log as int) && logs[log as int].status
                    == LogStatus::Success
            },
        forall|i: int, j: int|
            0 <= i < j < free_successes(logs, bound, count).len() ==> (#[trigger] free_successes(
                logs,
                bound,
                count,
            )[i]) < #[trigger] free_successes(logs, bound, count)[j],
    decreases count,
{
    if count > 0 {
        let before = free_successes(logs, bound, count - 1);
        let after = free_successes(logs, bound, count);
        lemma_free_successes(logs, bound, count - 1);
        assert forall|i: int|
            #![trigger after[i]]
            0 <= i < after.len() implies {
            let log = after[i];
            log < count && !taken(bound, log as int) && logs[log as int].status
                == LogStatus::Success
        } by {
            if i < before.len() {
                assert(after[i] == before[i]);
            }
        }
        assert forall|i: int, j: int| 0 <= i < j < after.len() implies (#[trigger] after[i])
            < #[trigger] after[j] by {
            assert(after[i] == before[i]);
            if j < before.len() {
                assert(after[j] == before[j]);
            }
        }
    }
}

proof fn lemma_unfinished(logs: Seq<LogModel>, successes: Seq<usize>, at_ms: i64, from: int)
    requires
        0 <= from <= successes.len(),
    ensures
        from <= unfinished_from(logs, successes, at_ms, from) <= successes.len(),
        forall|k: int|
            from <= k < unfinished_from(logs, successes, at_ms, from) ==> finished_by(
                logs[#[trigger] successes[k] as int],
                at_ms,
            ),
    decreases successes.len() - from,
{
    if from < successes.len() && finished_by(logs[successes[from] as int], at_ms) {
        lemma_unfinished(logs, successes, at_ms, from + 1);
    }
}

/// What the scan over the successes keeps: each binding is the crash's, or a success log before the
/// scan's place that finished by the result's completion.
spec fn scan_kept(
    logs: Seq<LogModel>,
    blocks: Seq<MetricModel>,
    crashes: Seq<Option<usize>>,
    successes: Seq<usize>,
    bound: Seq<Option<usize>>,
    from: int,
    i: int,
) -> bool {
    if seeks_success(blocks[i], crashes[i]) {
        bound[i] is Some ==> exists|k: int|
            0 <= k < from && #[trigger] successes[k] == bound[i]->0 && finished_by(
                logs[successes[k] as int],
                ms_of(blocks[i].timestamp_completed->0),
            )
    } else {
        bound[i] == crashes[i]
    }
}

proof fn lemma_successes_bound(
    logs: Seq<LogModel>,
    blocks: Seq<MetricModel>,
    crashes: Seq<Option<usize>>,
    successes: Seq<usize>,
    count: int,
)
    requires
        0 <= count <= blocks.len(),
        crashes.len() == blocks.len(),
        one_to_one(crashes),
        forall|i: int|
            0 <= i < successes.len() ==> !taken(crashes, (#[trigger] successes[i]) as int),
        forall|i: int, j: int|
            0 <= i < j < successes.len() ==> (#[trigger] successes[i]) < #[trigger] successes[j],
    ensures
        ({
            let (bound, from) = successes_bound(logs, blocks, crashes, successes, count);
            &&& bound.len() == count
            &&& 0 <= from <= successes.len()
            &&& one_to_one(bound)
            &&& forall|i: int|
                #![trigger bound[i]]
                0 <= i < count ==> scan_kept(logs, blocks, crashes, successes, bound, from, i)
        }),
    decreases count,
{
    if count > 0 {
        lemma_successes_bound(logs, blocks, crashes, successes, count - 1);
        let (before, from) = successes_bound(logs, blocks, crashes, successes, count - 1);
        let (after, next) = successes_bound(logs, blocks, crashes, successes, count);
        let block = blocks[count - 1];
        if seeks_success(block, crashes[count - 1]) {
            lemma_unfinished(logs, successes, ms_of(block.timestamp_completed->0), from);
        }
        assert(from <= next);
        assert forall|i: int|
            #![trigger after[i]]
            0 <= i < count implies scan_kept(
            logs,
            blocks,
            crashes,
            successes,
            after,
            next,
            i,
        ) by {
            if i < count - 1 {
                assert(after[i] == before[i]);
                assert(scan_kept(logs, blocks, crashes, successes, before, from, i));
            } else if seeks_success(block, crashes[count - 1]) && after[i] is Some {
                assert(successes[next - 1] == after[i]->0);
            }
        }
        assert forall|i: int, j: int|
            0 <= i < j < after.len() && (#[trigger] after[i]) is Some implies after[i]
            != #[trigger] after[j] by {
            assert(after[i] == before[i]);
            assert(scan_kept(logs, blocks, crashes, successes, before, from, i));
            if j < count - 1 {
                assert(after[j] == before[j]);
            } else if after[j] == after[i] {
                if seeks_success(blocks[i], crashes[i]) {
                    let k = choose|k: int|
                        0 <= k < from && #[trigger] successes[k] == before[i]->0 && finished_by(
                            logs[successes[k] as int],
                            ms_of(blocks[i].timestamp_completed->0),
                        );
                    if seeks_success(block, crashes[count - 1]) {
                        assert(successes[k] < successes[next - 1]);
                    } else {
                        assert(crashes[count - 1] == Some(successes[k] as int as usize));
                        assert(taken(crashes, successes[k] as int));
                    }
                } else if seeks_success(block, crashes[count - 1]) {
                    assert(crashes[i] == Some(successes[next - 1] as int as usize));
                    assert(taken(crashes, successes[next - 1] as int));
                }
            }
        }
    }
}

/// What a binding is for a result.
pub open spec fn well_bound(logs: Seq<LogModel>, block: MetricModel, log: usize) -> bool {
    &&& log < logs.len()
    &&& ({
        ||| block.crashed_job is Some && same_job(logs[log as int].id, block.crashed_job->0)
        ||| block.status == MetricStatus::Success && logs[log as int].status == LogStatus::Success
            && block.timestamp_completed is Some && finished_by(
            logs[log as int],
            ms_of(block.timestamp_completed->0),
        )
    })
}

/// Bindings are one-to-one, and each is well founded: a crash's log carries the cluster job id of
/// its reason, and a success's log is a success that finished at or before its completion.
pub proof fn bindings_are_one_to_one(logs: Seq<LogModel>, blocks: Seq<MetricModel>)
    requires
        logs.len() <= usize::MAX,
    ensures
        bindings(logs, blocks).len() == blocks.len(),
        one_to_one(bindings(logs, blocks)),
        forall|i: int|
            #![trigger bindings(logs, blocks)[i]]
            0 <= i < blocks.len() && bindings(logs, blocks)[i] is Some ==> well_bound(
                logs,
                blocks[i],
                bindings(logs, blocks)[i]->0,
            ),
{
    let count = blocks.len() as int;
    let crashes = crashes_bound(logs, blocks, count);
    lemma_crashes_bound(logs, blocks, count);
    let successes = free_successes(logs, crashes, logs.len() as int);
    lemma_free_successes(logs, crashes, logs.len() as int);
    assert forall|i: int| 0 <= i < successes.len() implies !taken(
        crashes,
        (#[trigger] successes[i]) as int,
    ) by {
        assert(!taken(crashes, successes[i] as int));
    }
    lemma_successes_bound(logs, blocks, crashes, successes, count);
    let bound = bindings(logs, blocks);
    let from = successes_bound(logs, blocks, crashes, successes, count).1;
    assert forall|i: int|
        #![trigger bound[i]]
        0 <= i < blocks.len() && bound[i] is Some implies well_bound(
        logs,
        blocks[i],
        bound[i]->0,
    ) by {
        assert(scan_kept(logs, blocks, crashes, successes, bound, from, i));
        if seeks_success(blocks[i], crashes[i]) {
            let k = choose|k: int|
                0 <= k < from && #[trigger] successes[k] == bound[i]->0 && finished_by(
                    logs[successes[k] as int],
                    ms_of(blocks[i].timestamp_completed->0),
                );
            assert(successes[k] < logs.len());
        } else {
            assert(crashes[i] == bound[i]);
        }
    }
}

proof fn lemma_forward(
    logs: Seq<LogModel>,
    blocks: Seq<MetricModel>,
    crashes: Seq<Option<usize>>,
    successes: Seq<usize>,
    count: int,
)
    requires
        0 <= count <= blocks.len(),
        crashes.len() == blocks.len(),
        forall|i: int, j: int|
            0 <= i < j < successes.len() ==> (#[trigger] successes[i]) < #[trigger] successes[j],
    ensures
        ({
            let (bound, from) = successes_bound(logs, blocks, crashes, successes, count);
            &&& bound.len() == count
            &&& 0 <= from <= successes.len()
            &&& forall|i: int|
                #![trigger bound[i]]
                0 <= i < count && seeks_success(blocks[i], crashes[i]) && bound[i] is Some
                    ==> exists|k: int| 0 <= k < from && #[trigger] successes[k] == bound[i]->0
            &&& forall|i: int, j: int|
                #![trigger bound[i], bound[j]]
                0 <= i < j < count && seeks_success(blocks[i], crashes[i]) && seeks_success(
                    blocks[j],
                    crashes[j],
                ) && bound[i] is Some && bound[j] is Some ==> bound[i]->0 < bound[j]->0
        }),
    decreases count,
{
    if count > 0 {
        lemma_forward(logs, blocks, crashes, successes, count - 1);
        let (before, from) = successes_bound(logs, blocks, crashes, successes, count - 1);
        let (after, next) = successes_bound(logs, blocks, crashes, successes, count);
        let block = blocks[count - 1];
        if seeks_success(block, crashes[count - 1]) {
            lemma_unfinished(logs, successes, ms_of(block.timestamp_completed->0), from);
        }
        assert forall|i: int|
            #![trigger after[i]]
            0 <= i < count && seeks_success(blocks[i], crashes[i])
                && after[i] is Some implies exists|k: int|
            0 <= k < next && #[trigger] successes[k] == after[i]->0 by {
            if i < count - 1 {
                assert(after[i] == before[i]);
                let k = choose|k: int|
                    0 <= k < from && #[trigger] successes[k] == before[i]->0;
                assert(successes[k] == after[i]->0);
            } else {
                assert(successes[next - 1] == after[i]->0);
            }
        }
        assert forall|i: int, j: int|
            #![trigger after[i], after[j]]
            0 <= i < j < count && seeks_success(blocks[i], crashes[i]) && seeks_success(
                blocks[j],
                crashes[j],
            ) && after[i] is Some && after[j] is Some implies after[i]->0 < after[j]->0 by {
            assert(after[i] == before[i]);
            if j < count - 1 {
                assert(after[j] == before[j]);
            } else {
                let k = choose|k: int|
                    0 <= k < from && #[trigger] successes[k] == before[i]->0;
                assert(successes[k] < successes[next - 1]);
            }
        }
    }
}

/// The scan over the success logs is forward-only: of two successes bound by their completion, the
/// later one's log comes later.
pub proof fn successes_bind_forward(
    logs: Seq<LogModel>,
    blocks: Seq<MetricModel>,
    first: int,
    second: int,
)
    requires
        logs.len() <= usize::MAX,
        0 <= first < second < blocks.len(),
        seeks_success(
            blocks[first],
            crashes_bound(logs, blocks, blocks.len() as int)[first],
        ),
        seeks_success(
            blocks[second],
            crashes_bound(logs, blocks, blocks.len() as int)[second],
        ),
        bindings(logs, blocks)[first] is Some,
        bindings(logs, blocks)[second] is Some,
    ensures
        bindings(logs, blocks)[first]->0 < bindings(logs, blocks)[second]->0,
{
    let count = blocks.len() as int;
    let crashes = crashes_bound(logs, blocks, count);
    lemma_crashes_bound(logs, blocks, count);
    let successes = free_successes(logs, crashes, logs.len() as int);
    lemma_free_successes(logs, crashes, logs.len() as int);
    lemma_forward(logs, blocks, crashes, successes, count);
}

proof fn lemma_crash_log_first(
    logs: Seq<LogModel>,
    job: Seq<char>,
    bound: Seq<Option<usize>>,
    from: int,
    log: int,
)
    requires
        logs.len() <= usize::MAX,
        0 <= from <= log < logs.len(),
        same_job(logs[log].id, job),
        !taken(bound, log),
    ensures
        crash_log(logs, job, bound, from) is Some,
        crash_log(logs, job, bound, from)->0 <= log,
    decreases log - from,
{
    if from < log {
        lemma_crash_log_first(logs, job, bound, from + 1, log);
    }
}

/// What the scan over the successes leaves to each result: the crash's log where there is one.
proof fn lemma_crashes_stand(
    logs: Seq<LogModel>,
    blocks: Seq<MetricModel>,
    crashes: Seq<Option<usize>>,
    successes: Seq<usize>,
    count: int,
)
    requires
        0 <= count <= blocks.len(),
    ensures
        ({
            let bound = successes_bound(logs, blocks, crashes, successes, count).0;
            &&& bound.len() == count
            &&& forall|i: int|
                0 <= i < count && crashes[i] is Some ==> #[trigger] bound[i] == crashes[i]
        }),
    decreases count,
{
    if count > 0 {
        lemma_crashes_stand(logs, blocks, crashes, successes, count - 1);
        let before = successes_bound(logs, blocks, crashes, successes, count - 1).0;
        let after = successes_bound(logs, blocks, crashes, successes, count).0;
        assert forall|i: int| 0 <= i < count && crashes[i] is Some implies #[trigger] after[i]
            == crashes[i] by {
            if i < count - 1 {
                assert(after[i] == before[i]);
            }
        }
    }
}

proof fn lemma_crash_prefix(logs: Seq<LogModel>, blocks: Seq<MetricModel>, less: int, more: int)
    requires
        logs.len() <= usize::MAX,
        0 <= less <= more <= blocks.len(),
    ensures
        crashes_bound(logs, blocks, less) == crashes_bound(logs, blocks, more).take(less),
    decreases more - less,
{
    lemma_crashes_bound(logs, blocks, more);
    if less < more {
        lemma_crash_prefix(logs, blocks, less, more - 1);
        lemma_crashes_bound(logs, blocks, more - 1);
        assert(crashes_bound(logs, blocks, more).take(less) =~= crashes_bound(
            logs,
            blocks,
            more - 1,
        ).take(less));
    } else {
        assert(crashes_bound(logs, blocks, more).take(less) =~= crashes_bound(logs, blocks, more));
    }
}

/// A result whose reason names a cluster job is bound whenever some log carries that job and is bound
/// to no earlier result, and then to the first such log, whatever the status of the log is.
pub proof fn crash_binds_to_the_first_log_of_its_job(
    logs: Seq<LogModel>,
    blocks: Seq<MetricModel>,
    result: int,
    log: int,
)
    requires
        logs.len() <= usize::MAX,
        0 <= result < blocks.len(),
        0 <= log < logs.len(),
        blocks[result].crashed_job is Some,
        same_job(logs[log].id, blocks[result].crashed_job->0),
        forall|earlier: int|
            0 <= earlier < result ==> #[trigger] bindings(logs, blocks)[earlier] != Some(
                log as usize,
            ),
    ensures
        bindings(logs, blocks)[result] is Some,
        bindings(logs, blocks)[result]->0 <= log,
        same_job(
            logs[bindings(logs, blocks)[result]->0 as int].id,
            blocks[result].crashed_job->0,
        ),
{
    let count = blocks.len() as int;
    let crashes = crashes_bound(logs, blocks, count);
    let successes = free_successes(logs, crashes, logs.len() as int);
    let bound = bindings(logs, blocks);
    lemma_crashes_bound(logs, blocks, count);
    lemma_crashes_stand(logs, blocks, crashes, successes, count);
    let before = crashes_bound(logs, blocks, result);
    lemma_crash_prefix(logs, blocks, result, count);
    lemma_crash_prefix(logs, blocks, result + 1, count);
    lemma_crashes_bound(logs, blocks, result);
    if taken(before, log) {
        let i = choose|i: int| 0 <= i < before.len() && #[trigger] before[i] == Some(log as usize);
        assert(crashes[i] == before[i]);
        assert(bound[i] == crashes[i]);
    }
    let job = blocks[result].crashed_job->0;
    lemma_crash_log_first(logs, job, before, 0, log);
    lemma_crash_log(logs, job, before, 0);
    assert(crashes[result] == crashes_bound(logs, blocks, result + 1)[result]);
    assert(bound[result] == crashes[result]);
}

/// A result that did not succeed is bound to no log but one of the job that its reason names.
pub proof fn failure_binds_by_its_job_alone(
    logs: Seq<LogModel>,
    blocks: Seq<MetricModel>,
    result: int,
)
    requires
        logs.len() <= usize::MAX,
        0 <= result < blocks.len(),
        blocks[result].status != MetricStatus::Success,
        bindings(logs, blocks)[result] is Some,
    ensures
        blocks[result].crashed_job is Some,
        same_job(
            logs[bindings(logs, blocks)[result]->0 as int].id,
            blocks[result].crashed_job->0,
        ),
{
    bindings_are_one_to_one(logs, blocks);
    assert(well_bound(logs, blocks[result], bindings(logs, blocks)[result]->0));
}

/// Whether a success log is there for a result to take: no failed result is bound to it, and it comes
/// after every log that an earlier success is bound to.
pub open spec fn waits(
    logs: Seq<LogModel>,
    blocks: Seq<MetricModel>,
    bound: Seq<Option<usize>>,
    result: int,
    log: int,
) -> bool {
    &&& 0 <= log < logs.len()
    &&& logs[log].status == LogStatus::Success
    &&& forall|i: int|
        0 <= i < bound.len() && blocks[i].status != MetricStatus::Success ==> #[trigger] bound[i]
            != Some(log as usize)
    &&& forall|i: int|
        0 <= i < result && blocks[i].status == MetricStatus::Success && (#[trigger] bound[i]) is Some
            ==> bound[i]->0 < log
}

/// Whether a log ended at or before the completion of a result.
pub open spec fn ended_by(log: LogModel, block: MetricModel) -> bool {
    &&& log.t_end is Some
    &&& block.timestamp_completed is Some
    &&& ms_of(log.t_end->0) <= ms_of(block.timestamp_completed->0)
}

proof fn lemma_free_complete(
    logs: Seq<LogModel>,
    bound: Seq<Option<usize>>,
    count: int,
    log: int,
)
    requires
        0 <= log < count <= logs.len() <= usize::MAX,
        !taken(bound, log),
        logs[log].status == LogStatus::Success,
    ensures
        exists|i: int|
            0 <= i < free_successes(logs, bound, count).len() && #[trigger] free_successes(
                logs,
                bound,
                count,
            )[i] == log,
    decreases count,
{
    let before = free_successes(logs, bound, count - 1);
    let after = free_successes(logs, bound, count);
    if log < count - 1 {
        lemma_free_complete(logs, bound, count - 1, log);
        let i = choose|i: int| 0 <= i < before.len() && #[trigger] before[i] == log;
        assert(after[i] == log);
    } else {
        assert(after[before.len() as int] == log);
    }
}

/// The scan stands right behind the last log that a success was bound to.
spec fn stands_behind(
    blocks: Seq<MetricModel>,
    successes: Seq<usize>,
    bound: Seq<Option<usize>>,
    from: int,
    count: int,
) -> bool {
    &&& forall|i: int|
        0 <= i < count && blocks[i].status == MetricStatus::Success && (#[trigger] bound[i]) is Some
            ==> exists|k: int| 0 <= k < from && #[trigger] successes[k] == bound[i]->0
    &&& from > 0 ==> exists|i: int|
        0 <= i < count && blocks[i].status == MetricStatus::Success && #[trigger] bound[i] == Some(
            successes[from - 1],
        )
}

proof fn lemma_stands_behind(
    logs: Seq<LogModel>,
    blocks: Seq<MetricModel>,
    crashes: Seq<Option<usize>>,
    successes: Seq<usize>,
    count: int,
)
    requires
        0 <= count <= blocks.len() == crashes.len(),
        forall|i: int|
            0 <= i < blocks.len() && blocks[i].status == MetricStatus::Success
                ==> #[trigger] crashes[i] is None,
    ensures
        ({
            let (bound, from) = successes_bound(logs, blocks, crashes, successes, count);
            &&& bound.len() == count
            &&& 0 <= from <= successes.len()
            &&& stands_behind(blocks, successes, bound, from, count)
        }),
    decreases count,
{
    if count > 0 {
        lemma_stands_behind(logs, blocks, crashes, successes, count - 1);
        let (before, from) = successes_bound(logs, blocks, crashes, successes, count - 1);
        let (after, next) = successes_bound(logs, blocks, crashes, successes, count);
        let block = blocks[count - 1];
        if seeks_success(block, crashes[count - 1]) {
            lemma_unfinished(logs, successes, ms_of(block.timestamp_completed->0), from);
        }
        assert forall|i: int|
            0 <= i < count && blocks[i].status == MetricStatus::Success && (
            #[trigger] after[i]) is Some implies exists|k: int|
            0 <= k < next && #[trigger] successes[k] == after[i]->0 by {
            if i < count - 1 {
                assert(after[i] == before[i]);
                let k = choose|k: int| 0 <= k < from && #[trigger] successes[k] == before[i]->0;
                assert(successes[k] == after[i]->0);
            } else {
                assert(crashes[i] is None);
                assert(successes[next - 1] == after[i]->0);
            }
        }
        if next > from {
            assert(after[count - 1] == Some(successes[next - 1]));
        } else if from > 0 {
            let i = choose|i: int|
                0 <= i < count - 1 && blocks[i].status == MetricStatus::Success
                    && #[trigger] before[i] == Some(successes[from - 1]);
            assert(after[i] == before[i]);
        }
    }
}

proof fn lemma_bound_prefix(
    logs: Seq<LogModel>,
    blocks: Seq<MetricModel>,
    crashes: Seq<Option<usize>>,
    successes: Seq<usize>,
    less: int,
    more: int,
)
    requires
        0 <= less <= more <= blocks.len() == crashes.len(),
    ensures
        successes_bound(logs, blocks, crashes, successes, less).0.len() == less,
        successes_bound(logs, blocks, crashes, successes, more).0.len() == more,
        forall|i: int|
            0 <= i < less ==> #[trigger] successes_bound(
                logs,
                blocks,
                crashes,
                successes,
                less,
            ).0[i] == successes_bound(logs, blocks, crashes, successes, more).0[i],
    decreases more,
{
    if more > 0 {
        if less < more {
            lemma_bound_prefix(logs, blocks, crashes, successes, less, more - 1);
        } else {
            lemma_bound_prefix(logs, blocks, crashes, successes, more - 1, more - 1);
        }
    }
}

/// A success with a completion moment takes, of the success logs that wait in order, all those that
/// ended by its completion up to the first that did not, and is bound to the last of them: a bound log
/// waited, every log that waited before it had ended too, and the next that waits had not.
pub proof fn success_binds_to_the_latest_ended_log(
    logs: Seq<LogModel>,
    blocks: Seq<MetricModel>,
    result: int,
    log: int,
)
    requires
        logs.len() <= usize::MAX,
        forall|i: int|
            0 <= i < blocks.len() && (#[trigger] blocks[i]).status == MetricStatus::Success
                ==> blocks[i].crashed_job is None,
        0 <= result < blocks.len(),
        blocks[result].status == MetricStatus::Success,
        blocks[result].timestamp_completed is Some,
        waits(logs, blocks, bindings(logs, blocks), result, log),
    ensures
        ({
            let bound = bindings(logs, blocks);
            match bound[result] {
                Some(taken) => {
                    &&& waits(logs, blocks, bound, result, taken as int)
                    &&& log <= taken ==> ended_by(logs[log], blocks[result])
                    &&& log > taken && (forall|other: int|
                        taken < other < log ==> !(#[trigger] waits(
                            logs,
                            blocks,
                            bound,
                            result,
                            other,
                        ))) ==> !ended_by(logs[log], blocks[result])
                },
                None => (forall|other: int|
                    other < log ==> !(#[trigger] waits(logs, blocks, bound, result, other)))
                    ==> !ended_by(logs[log], blocks[result]),
            }
        }),
{
    let count = blocks.len() as int;
    let crashes = crashes_bound(logs, blocks, count);
    let successes = free_successes(logs, crashes, logs.len() as int);
    let bound = bindings(logs, blocks);
    let block = blocks[result];
    let at_ms = ms_of(block.timestamp_completed->0);
    lemma_crashes_bound(logs, blocks, count);
    lemma_free_successes(logs, crashes, logs.len() as int);
    lemma_crashes_stand(logs, blocks, crashes, successes, count);
    assert forall|i: int|
        0 <= i < blocks.len() && blocks[i].status == MetricStatus::Success implies
        #[trigger] crashes[i] is None by {
        assert(blocks[i].crashed_job is None);
    }
    assert forall|i: int| 0 <= i < successes.len() implies !taken(
        crashes,
        (#[trigger] successes[i]) as int,
    ) by {}
    lemma_successes_bound(logs, blocks, crashes, successes, count);
    lemma_stands_behind(logs, blocks, crashes, successes, result);
    lemma_bound_prefix(logs, blocks, crashes, successes, result, count);
    lemma_bound_prefix(logs, blocks, crashes, successes, result + 1, count);
    let (before, from) = successes_bound(logs, blocks, crashes, successes, result);
    let after = successes_bound(logs, blocks, crashes, successes, result + 1).0;
    let next = unfinished_from(logs, successes, at_ms, from);
    lemma_unfinished(logs, successes, at_ms, from);
    lemma_unfinished_stops(logs, successes, at_ms, from);
    assert(seeks_success(block, crashes[result]));
    assert(bound[result] == after[result]);
    // The logs that wait are those at the scan's place and behind it.
    assert forall|k: int| from <= k < successes.len() implies waits(
        logs,
        blocks,
        bound,
        result,
        (#[trigger] successes[k]) as int,
    ) by {
        assert forall|i: int|
            0 <= i < bound.len() && blocks[i].status != MetricStatus::Success implies
            #[trigger] bound[i] != Some(successes[k]) by {
            let last = successes_bound(logs, blocks, crashes, successes, count).1;
            assert(scan_kept(logs, blocks, crashes, successes, bound, last, i));
            assert(bound[i] == crashes[i]);
            if bound[i] == Some(successes[k]) {
                assert(crashes[i] == Some(successes[k] as int as usize));
                assert(taken(crashes, successes[k] as int));
            }
        }
        assert forall|i: int|
            0 <= i < result && blocks[i].status == MetricStatus::Success && (
            #[trigger] bound[i]) is Some implies bound[i]->0 < successes[k] by {
            assert(bound[i] == before[i]);
            let j = choose|j: int| 0 <= j < from && #[trigger] successes[j] == before[i]->0;
            assert(successes[j] < successes[k]);
        }
    }
    assert forall|other: int| #[trigger] waits(logs, blocks, bound, result, other) implies exists|
        k: int,
    | from <= k < successes.len() && #[trigger] successes[k] == other by {
        if taken(crashes, other) {
            let i = choose|i: int|
                0 <= i < crashes.len() && #[trigger] crashes[i] == Some(other as usize);
            assert(bound[i] == crashes[i]);
            assert(blocks[i].status != MetricStatus::Success);
        }
        lemma_free_complete(logs, crashes, logs.len() as int, other);
        let k = choose|k: int| 0 <= k < successes.len() && #[trigger] successes[k] == other;
        if k < from {
            let i = choose|i: int|
                0 <= i < result && blocks[i].status == MetricStatus::Success && #[trigger] before[i]
                    == Some(successes[from - 1]);
            assert(bound[i] == before[i]);
            if k < from - 1 {
                assert(successes[k] < successes[from - 1]);
            }
        }
    }
    let k = choose|k: int| from <= k < successes.len() && #[trigger] successes[k] == log;
    if next > from {
        let taken_log = successes[next - 1];
        assert(bound[result] == Some(taken_log));
        if log <= taken_log {
            if k > next - 1 {
                assert(successes[next - 1] < successes[k]);
            }
            assert(finished_by(logs[successes[k] as int], at_ms));
        } else {
            if k < next - 1 {
                assert(successes[k] < successes[next - 1]);
            }
            assert(k >= next);
            if k > next {
                assert(successes[next] < successes[k]);
                assert(successes[next - 1] < successes[next]);
                assert(waits(logs, blocks, bound, result, successes[next] as int));
            }
        }
    } else {
        assert(bound[result] is None);
        if k > from {
            assert(successes[from] < successes[k]);
            assert(waits(logs, blocks, bound, result, successes[from] as int));
        }
    }
}

proof fn lemma_unfinished_stops(logs: Seq<LogModel>, successes: Seq<usize>, at_ms: i64, from: int)
    requires
        0 <= from <= successes.len(),
    ensures
        ({
            let next = unfinished_from(logs, successes, at_ms, from);
            next < successes.len() ==> !finished_by(logs[successes[next] as int], at_ms)
        }),
    decreases successes.len() - from,
{
    if from < successes.len() && finished_by(logs[successes[from] as int], at_ms) {
        lemma_unfinished_stops(logs, successes, at_ms, from + 1);
    }
}

} // verus!
