//! Binds each proof result to the log that timed it.

use vstd::prelude::*;

use crate::log::{ms_of, prefix_chars, prefix_of, Log, LogModel, LogStatus, Ts};
use crate::metrics::{MetricBlock, MetricModel, MetricStatus};
use crate::text::{begins_with, starts_with, to_chars};

verus! {

/// Whether a log id keys the same cluster job as a crash reason's id.
pub open spec fn same_job(log_id: Seq<char>, job: Seq<char>) -> bool {
    prefix_of(log_id).len() > 0 && begins_with(job, prefix_of(log_id))
}

/// Whether a log id keys the same cluster job as a crash reason's id. The zisk coordinator prints a
/// truncated id against the reason's full uuid, so the leading hex run is compared; an openvm ere-
/// id is logged in full on both sides, so its prefix keeps it whole and the compare is exact.
pub fn job_prefix_matches(log_id: &str, job: &str) -> (matches: bool)
    ensures
        matches == same_job(log_id@, job@),
{
    let prefix: Vec<char> = prefix_chars(to_chars(log_id).as_slice());
    prefix.len() > 0 && starts_with(to_chars(job).as_slice(), prefix.as_slice())
}

/// Whether a log is bound already.
pub open spec fn taken(bound: Seq<Option<usize>>, log: int) -> bool {
    exists|i: int| 0 <= i < bound.len() && #[trigger] bound[i] == Some(log as usize)
}

/// The first log, from `from` on, that keys a crash's job and is not bound yet.
pub open spec fn crash_log(
    logs: Seq<LogModel>,
    job: Seq<char>,
    bound: Seq<Option<usize>>,
    from: int,
) -> Option<usize>
    decreases logs.len() - from,
{
    if from < 0 || from >= logs.len() {
        None
    } else if !taken(bound, from) && same_job(logs[from].id, job) {
        Some(from as usize)
    } else {
        crash_log(logs, job, bound, from + 1)
    }
}

/// The logs of the first `count` results after the crashes are bound. A crash binds to the log with
/// the same cluster job id, the key its reason shares with the coordinator's truncated id.
pub open spec fn crashes_bound(
    logs: Seq<LogModel>,
    blocks: Seq<MetricModel>,
    count: int,
) -> Seq<Option<usize>>
    decreases count,
{
    if count <= 0 {
        seq![]
    } else {
        let before = crashes_bound(logs, blocks, count - 1);
        before.push(
            match blocks[count - 1].crashed_job {
                Some(job) => crash_log(logs, job, before, 0),
                None => None,
            },
        )
    }
}

/// Those of the first `count` logs that succeeded and that no crash took.
pub open spec fn free_successes(
    logs: Seq<LogModel>,
    bound: Seq<Option<usize>>,
    count: int,
) -> Seq<usize>
    decreases count,
{
    if count <= 0 {
        seq![]
    } else {
        let before = free_successes(logs, bound, count - 1);
        if !taken(bound, count - 1) && logs[count - 1].status == LogStatus::Success {
            before.push((count - 1) as usize)
        } else {
            before
        }
    }
}

/// Whether a log finished at or before a moment.
pub open spec fn finished_by(log: LogModel, at_ms: i64) -> bool {
    log.t_end is Some && ms_of(log.t_end->0) <= at_ms
}

/// The first place, from `from` on, of a success log that did not finish by a moment.
pub open spec fn unfinished_from(
    logs: Seq<LogModel>,
    successes: Seq<usize>,
    at_ms: i64,
    from: int,
) -> int
    decreases successes.len() - from,
{
    if from >= successes.len() {
        successes.len() as int
    } else if finished_by(logs[successes[from] as int], at_ms) {
        unfinished_from(logs, successes, at_ms, from + 1)
    } else {
        from
    }
}

/// Whether a result still looks for a success log: a success with a completion moment that no crash
/// binding reached.
pub open spec fn seeks_success(block: MetricModel, bound: Option<usize>) -> bool {
    bound is None && block.status == MetricStatus::Success && block.timestamp_completed is Some
}

/// The logs of the first `count` results, and the place from which the next success log is looked
/// for. A success binds to the latest success log finishing at or before its completion, in a
/// forward-only one-to-one scan.
pub open spec fn successes_bound(
    logs: Seq<LogModel>,
    blocks: Seq<MetricModel>,
    crashes: Seq<Option<usize>>,
    successes: Seq<usize>,
    count: int,
) -> (Seq<Option<usize>>, int)
    decreases count,
{
    if count <= 0 {
        (seq![], 0)
    } else {
        let (before, from) = successes_bound(logs, blocks, crashes, successes, count - 1);
        let block = blocks[count - 1];
        if seeks_success(block, crashes[count - 1]) {
            let next = unfinished_from(
                logs,
                successes,
                ms_of(block.timestamp_completed->0),
                from,
            );
            if next > from {
                (before.push(Some(successes[next - 1])), next)
            } else {
                (before.push(None), from)
            }
        } else {
            (before.push(crashes[count - 1]), from)
        }
    }
}

/// The log of each result.
pub open spec fn bindings(logs: Seq<LogModel>, blocks: Seq<MetricModel>) -> Seq<Option<usize>> {
    let count = blocks.len() as int;
    let crashes = crashes_bound(logs, blocks, count);
    let successes = free_successes(logs, crashes, logs.len() as int);
    successes_bound(logs, blocks, crashes, successes, count).0
}

fn is_taken(bound: &Vec<Option<usize>>, log: usize) -> (yes: bool)
    ensures
        yes == taken(bound@, log as int),
{
    for i in 0..bound.len()
        invariant
            forall|k: int| 0 <= k < i ==> #[trigger] bound@[k] != Some(log),
    {
        if let Some(other) = bound[i] {
            if other == log {
                assert(bound@[i as int] == Some(log));
                return true;
            }
        }
    }
    false
}

fn find_crash_log(logs: &Vec<Log>, job: &str, bound: &Vec<Option<usize>>) -> (log: Option<usize>)
    ensures
        log == crash_log(logs.deep_view(), job@, bound@, 0),
        log is Some ==> log->0 < logs@.len(),
{
    for i in 0..logs.len()
        invariant
            crash_log(logs.deep_view(), job@, bound@, 0) == crash_log(
                logs.deep_view(),
                job@,
                bound@,
                i as int,
            ),
    {
        assert(logs.deep_view()[i as int] == logs@[i as int].deep_view());
        if !is_taken(bound, i) && job_prefix_matches(logs[i].id.as_str(), job) {
            return Some(i);
        }
    }
    None
}

/// Binds each crash to the log with the same cluster job id.
fn bind_crashes(logs: &Vec<Log>, blocks: &Vec<MetricBlock>) -> (bound: Vec<Option<usize>>)
    ensures
        bound@ == crashes_bound(logs.deep_view(), blocks.deep_view(), blocks@.len() as int),
        bound@.len() == blocks@.len(),
        forall|i: int| 0 <= i < bound@.len() ==> in_range(#[trigger] bound@[i], logs@.len()),
{
    let mut bound: Vec<Option<usize>> = Vec::new();
    for i in 0..blocks.len()
        invariant
            bound@ == crashes_bound(logs.deep_view(), blocks.deep_view(), i as int),
            bound@.len() == i,
            forall|k: int| 0 <= k < i ==> in_range(#[trigger] bound@[k], logs@.len()),
    {
        assert(blocks.deep_view()[i as int] == blocks@[i as int].deep_view());
        let log: Option<usize> = match &blocks[i].crashed_job {
            Some(job) => find_crash_log(logs, job.as_str(), &bound),
            None => None,
        };
        bound.push(log);
    }
    bound
}

/// Whether a binding names one of `count` logs, or none.
pub open spec fn in_range(log: Option<usize>, count: nat) -> bool {
    log is Some ==> log->0 < count
}

fn success_logs(logs: &Vec<Log>, bound: &Vec<Option<usize>>) -> (successes: Vec<usize>)
    ensures
        successes@ == free_successes(logs.deep_view(), bound@, logs@.len() as int),
        forall|i: int| 0 <= i < successes@.len() ==> #[trigger] successes@[i] < logs@.len(),
{
    let mut successes: Vec<usize> = Vec::new();
    for i in 0..logs.len()
        invariant
            successes@ == free_successes(logs.deep_view(), bound@, i as int),
            forall|k: int| 0 <= k < successes@.len() ==> #[trigger] successes@[k] < logs@.len(),
    {
        assert(logs.deep_view()[i as int] == logs@[i as int].deep_view());
        if !is_taken(bound, i) && logs[i].status == LogStatus::Success {
            successes.push(i);
        }
    }
    successes
}

/// Binds each metric block to the log that timed it, by index. Crashes bind first by the cluster
/// job id in their reason, then successes bind to the latest success log finishing at or before
/// their completion in a forward-only one-to-one scan. A block with no log is left unbound. Only
/// successes take the second path, so a crash that found no job id stays unbound rather than
/// stealing a success log by a near timestamp.
pub fn match_blocks_to_logs(logs: &Vec<Log>, blocks: &Vec<MetricBlock>) -> (bound: Vec<
    Option<usize>,
>)
    ensures
        bound@ == bindings(logs.deep_view(), blocks.deep_view()),
        bound@.len() == blocks@.len(),
        forall|i: int| 0 <= i < bound@.len() ==> in_range(#[trigger] bound@[i], logs@.len()),
{
    let crashes: Vec<Option<usize>> = bind_crashes(logs, blocks);
    let successes: Vec<usize> = success_logs(logs, &crashes);
    let mut bound: Vec<Option<usize>> = Vec::new();
    let mut from: usize = 0;
    for i in 0..blocks.len()
        invariant
            crashes@.len() == blocks@.len(),
            forall|k: int|
                0 <= k < crashes@.len() ==> in_range(#[trigger] crashes@[k], logs@.len()),
            forall|k: int| 0 <= k < successes@.len() ==> #[trigger] successes@[k] < logs@.len(),
            (bound@, from as int) == successes_bound(
                logs.deep_view(),
                blocks.deep_view(),
                crashes@,
                successes@,
                i as int,
            ),
            from <= successes@.len(),
            bound@.len() == i,
            forall|k: int| 0 <= k < i ==> in_range(#[trigger] bound@[k], logs@.len()),
    {
        let block: &MetricBlock = &blocks[i];
        assert(blocks.deep_view()[i as int] == block.deep_view());
        let completed: Option<Ts> = block.timestamp_completed;
        if crashes[i].is_none() && block.status == MetricStatus::Success && completed.is_some() {
            let at_ms: i64 = match completed {
                Some(ts) => ts.epoch_ms(),
                None => 0,
            };
            let mut next: usize = from;
            while next < successes.len() && finished(&logs[successes[next]], at_ms)
                invariant
                    from <= next <= successes@.len(),
                    forall|k: int|
                        0 <= k < successes@.len() ==> #[trigger] successes@[k] < logs@.len(),
                    unfinished_from(logs.deep_view(), successes@, at_ms, from as int)
                        == unfinished_from(logs.deep_view(), successes@, at_ms, next as int),
                decreases successes@.len() - next,
            {
                assert(logs.deep_view()[successes@[next as int] as int]
                    == logs@[successes@[next as int] as int].deep_view());
                next += 1;
            }
            proof {
                if next < successes@.len() {
                    assert(logs.deep_view()[successes@[next as int] as int]
                        == logs@[successes@[next as int] as int].deep_view());
                }
            }
            if next > from {
                bound.push(Some(successes[next - 1]));
                from = next;
            } else {
                bound.push(None);
            }
        } else {
            bound.push(crashes[i]);
        }
    }
    bound
}

fn finished(log: &Log, at_ms: i64) -> (yes: bool)
    ensures
        yes == finished_by(log.deep_view(), at_ms),
{
    match log.t_end {
        Some(end) => end.epoch_ms() <= at_ms,
        None => false,
    }
}

} // verus!
