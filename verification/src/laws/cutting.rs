//! What holds of every cut of the cluster log into a block's window.

use vstd::prelude::*;

use crate::lines::LineModel;
use crate::log::{prefix_of, us_of, LogModel, LogStatus, NodeModel};
use crate::schema::EntryModel;
use crate::text::begins_with;
use crate::windows::{
    cleanup_upto, entries_of, entries_upto, next_start, starts_of, starts_upto, window_end,
    window_start,
};

verus! {

/// The lines between two moments, both counted in.
pub open spec fn lines_between(lines: Seq<LineModel>, start_us: i64, end_us: i64) -> Seq<LineModel> {
    lines.filter(|line: LineModel| start_us <= us_of(line.ts) && us_of(line.ts) <= end_us)
}

/// Whether an entry is a line as it stands, at its offset from a moment.
pub open spec fn entry_is(entry: EntryModel, line: LineModel, start_us: i64) -> bool {
    &&& entry.role == line.role
    &&& entry.level == line.level
    &&& entry.msg == line.msg
    &&& us_of(line.ts) - start_us <= i64::MAX ==> start_us + entry.time == us_of(line.ts)
}

proof fn lemma_entries(lines: Seq<LineModel>, start_us: i64, end_us: i64, count: int)
    requires
        0 <= count <= lines.len(),
    ensures
        ({
            let entries = entries_upto(lines, start_us, end_us, count);
            let kept = lines_between(lines.take(count), start_us, end_us);
            &&& entries.len() == kept.len()
            &&& forall|i: int|
                #![trigger entries[i]]
                0 <= i < entries.len() ==> entry_is(entries[i], kept[i], start_us) && start_us
                    <= us_of(kept[i].ts)
        }),
    decreases count,
{
    reveal(Seq::filter);
    if count > 0 {
        lemma_entries(lines, start_us, end_us, count - 1);
        let less = lines.take(count - 1);
        let more = lines.take(count);
        assert(more.drop_last() =~= less);
        assert(more.last() == lines[count - 1]);
        let before = entries_upto(lines, start_us, end_us, count - 1);
        let after = entries_upto(lines, start_us, end_us, count);
        let kept = lines_between(more, start_us, end_us);
        assert forall|i: int| #![trigger after[i]] 0 <= i < after.len() implies entry_is(
            after[i],
            kept[i],
            start_us,
        ) && start_us <= us_of(kept[i].ts) by {
            if i < before.len() {
                assert(after[i] == before[i]);
            }
        }
    }
}

/// A block's log lines are exactly the lines of the cluster log between two moments, in their order
/// and as they stand, each at its offset from the first moment. The first is the job's start, or
/// without one the block's.
pub proof fn block_lines_are_the_lines_between(
    log: LogModel,
    lines: Seq<LineModel>,
    start_abs: i64,
    proving_ms: Option<u64>,
    starts: Seq<(i64, Seq<char>)>,
)
    ensures
        ({
            let start_us = window_start(log, start_abs);
            let next = next_start(starts, start_us, prefix_of(log.id), 0);
            let end_us = window_end(log, start_us, proving_ms, next);
            let entries = entries_of(Some(log), lines, start_abs, proving_ms, starts);
            let kept = lines_between(lines, start_us, end_us);
            &&& entries.len() == kept.len()
            &&& forall|i: int|
                #![trigger entries[i]]
                0 <= i < entries.len() ==> entry_is(entries[i], kept[i], start_us)
            &&& log.t_start is Some ==> start_us == us_of(log.t_start->0)
            &&& log.t_start is None && i64::MIN <= start_abs * 1000 <= i64::MAX ==> start_us
                == start_abs * 1000
        }),
        entries_of(None, lines, start_abs, proving_ms, starts).len() == 0,
{
    let start_us = window_start(log, start_abs);
    let next = next_start(starts, start_us, prefix_of(log.id), 0);
    let end_us = window_end(log, start_us, proving_ms, next);
    lemma_entries(lines, start_us, end_us, lines.len() as int);
    assert(lines.take(lines.len() as int) =~= lines);
}

/// A successful job's window ends where the job did. Where that is unknown it ends after the proving
/// time, but before the next job starts, and without a proving time at its start.
pub proof fn clean_window_ends_with_its_job(
    log: LogModel,
    start_us: i64,
    proving_ms: Option<u64>,
    next: Option<i64>,
)
    requires
        log.status == LogStatus::Success,
    ensures
        ({
            let end = window_end(log, start_us, proving_ms, next);
            &&& log.t_end is Some ==> end == us_of(log.t_end->0)
            &&& log.t_end is None && proving_ms is None ==> end == start_us
            &&& log.t_end is None && proving_ms is Some && start_us >= 0 && start_us
                + proving_ms->0 * 1000 <= i64::MAX ==> {
                let estimate = start_us + proving_ms->0 * 1000;
                &&& next is None ==> end == estimate
                &&& next is Some && next->0 > i64::MIN ==> end == (if estimate < next->0 {
                    estimate
                } else {
                    next->0 - 1
                })
            }
        }),
{
}

proof fn lemma_cleanup(nodes: Seq<NodeModel>, count: int)
    requires
        0 <= count <= nodes.len(),
        forall|i: int|
            0 <= i < nodes.len() && (#[trigger] nodes[i]).end is Some ==> i64::MIN
                <= nodes[i].end->0.at_ms * 1000 && nodes[i].end->0.at_ms * 1000 + 1000 <= i64::MAX,
    ensures
        ({
            let cleanup = cleanup_upto(nodes, count);
            &&& cleanup is Some ==> exists|i: int|
                0 <= i < count && (#[trigger] nodes[i]).end is Some && cleanup->0
                    == nodes[i].end->0.at_ms * 1000 + 1000
            &&& forall|i: int|
                0 <= i < count && (#[trigger] nodes[i]).end is Some ==> cleanup is Some
                    && nodes[i].end->0.at_ms * 1000 + 1000 <= cleanup->0
        }),
    decreases count,
{
    if count > 0 {
        lemma_cleanup(nodes, count - 1);
        let before = cleanup_upto(nodes, count - 1);
        let cleanup = cleanup_upto(nodes, count);
        if cleanup is Some && cleanup == before {
            let i = choose|i: int|
                0 <= i < count - 1 && (#[trigger] nodes[i]).end is Some && before->0
                    == nodes[i].end->0.at_ms * 1000 + 1000;
            assert(nodes[i].end is Some);
        } else if cleanup is Some {
            assert(nodes[count - 1].end is Some);
        }
    }
}

/// A job that did not succeed keeps the lines up to the next job's start. Without a next job it keeps
/// them to a millisecond past the latest end of its nodes, and at least to where the job ended.
pub proof fn failed_window_runs_to_the_next_job(
    log: LogModel,
    start_us: i64,
    proving_ms: Option<u64>,
    next: Option<i64>,
    node: int,
)
    requires
        log.status != LogStatus::Success,
        next is Some ==> next->0 > i64::MIN,
        forall|i: int|
            0 <= i < log.nodes.len() && (#[trigger] log.nodes[i]).end is Some ==> i64::MIN
                <= log.nodes[i].end->0.at_ms * 1000 && log.nodes[i].end->0.at_ms * 1000 + 1000
                <= i64::MAX,
    ensures
        ({
            let end = window_end(log, start_us, proving_ms, next);
            &&& next is Some ==> end == next->0 - 1
            &&& next is None && log.t_end is Some ==> end >= us_of(log.t_end->0)
            &&& next is None && 0 <= node < log.nodes.len() && log.nodes[node].end is Some ==> end
                >= log.nodes[node].end->0.at_ms * 1000 + 1000
            &&& next is None && log.t_end is Some ==> end == us_of(log.t_end->0) || exists|i: int|
                0 <= i < log.nodes.len() && (#[trigger] log.nodes[i]).end is Some && end
                    == log.nodes[i].end->0.at_ms * 1000 + 1000
        }),
{
    lemma_cleanup(log.nodes, log.nodes.len() as int);
    if 0 <= node < log.nodes.len() && log.nodes[node].end is Some {
        assert(cleanup_upto(log.nodes, log.nodes.len() as int) is Some);
    }
}

/// Whether a start is that of another job, later than a moment.
pub open spec fn follows(start: (i64, Seq<char>), after_us: i64, job: Seq<char>) -> bool {
    start.0 > after_us && start.1 != job
}

proof fn lemma_next_start(
    starts: Seq<(i64, Seq<char>)>,
    after_us: i64,
    job: Seq<char>,
    from: int,
)
    requires
        0 <= from,
    ensures
        match next_start(starts, after_us, job, from) {
            Some(at) => exists|i: int|
                {
                    &&& from <= i < starts.len()
                    &&& follows(#[trigger] starts[i], after_us, job)
                    &&& starts[i].0 == at
                    &&& forall|j: int|
                        from <= j < i ==> !follows(#[trigger] starts[j], after_us, job)
                },
            None => forall|i: int|
                from <= i < starts.len() ==> !follows(#[trigger] starts[i], after_us, job),
        },
    decreases starts.len() - from,
{
    if from < starts.len() {
        if follows(starts[from], after_us, job) {
            assert(starts[from].0 == next_start(starts, after_us, job, from)->0);
        } else {
            lemma_next_start(starts, after_us, job, from + 1);
            if next_start(starts, after_us, job, from + 1) is Some {
                let at = next_start(starts, after_us, job, from + 1)->0;
                let i = choose|i: int|
                    {
                        &&& from + 1 <= i < starts.len()
                        &&& follows(#[trigger] starts[i], after_us, job)
                        &&& starts[i].0 == at
                        &&& forall|j: int|
                            from + 1 <= j < i ==> !follows(#[trigger] starts[j], after_us, job)
                    };
                assert(follows(starts[i], after_us, job));
            }
        }
    }
}

/// The next job is the first other job that starts after a block does: its start is one of those, no
/// earlier one is, and there is none only where no other job follows.
pub proof fn next_job_is_the_first_to_follow(
    starts: Seq<(i64, Seq<char>)>,
    after_us: i64,
    job: Seq<char>,
    start: int,
)
    requires
        forall|i: int, j: int|
            0 <= i < j < starts.len() ==> (#[trigger] starts[i]).0 <= (#[trigger] starts[j]).0,
        0 <= start < starts.len(),
        follows(starts[start], after_us, job),
    ensures
        next_start(starts, after_us, job, 0) is Some,
        next_start(starts, after_us, job, 0)->0 <= starts[start].0,
        exists|i: int|
            0 <= i < starts.len() && follows(#[trigger] starts[i], after_us, job) && starts[i].0
                == next_start(starts, after_us, job, 0)->0,
{
    lemma_next_start(starts, after_us, job, 0);
    let at = next_start(starts, after_us, job, 0)->0;
    let i = choose|i: int|
        {
            &&& 0 <= i < starts.len()
            &&& follows(#[trigger] starts[i], after_us, job)
            &&& starts[i].0 == at
            &&& forall|j: int| 0 <= j < i ==> !follows(#[trigger] starts[j], after_us, job)
        };
    if i < start {
        assert(starts[i].0 <= starts[start].0);
    } else if i > start {
        assert(!follows(starts[start], after_us, job));
    }
    assert(follows(starts[i], after_us, job));
}

/// The lines on which the coordinator announces the start of a job.
pub open spec fn start_lines(lines: Seq<LineModel>) -> Seq<LineModel> {
    lines.filter(|line: LineModel| begins_with(line.msg, "[Job] Started JobId("@))
}

proof fn lemma_starts(lines: Seq<LineModel>, count: int)
    requires
        0 <= count <= lines.len(),
    ensures
        ({
            let starts = starts_upto(lines, count);
            let kept = start_lines(lines.take(count));
            &&& starts.len() == kept.len()
            &&& forall|i: int|
                #![trigger starts[i]]
                0 <= i < starts.len() ==> starts[i] == (
                    us_of(kept[i].ts),
                    prefix_of(kept[i].msg.skip("[Job] Started JobId("@.len() as int)),
                )
        }),
    decreases count,
{
    reveal(Seq::filter);
    if count > 0 {
        lemma_starts(lines, count - 1);
        let more = lines.take(count);
        assert(more.drop_last() =~= lines.take(count - 1));
        assert(more.last() == lines[count - 1]);
        let before = starts_upto(lines, count - 1);
        let after = starts_upto(lines, count);
        let kept = start_lines(more);
        assert forall|i: int| #![trigger after[i]] 0 <= i < after.len() implies after[i] == (
            us_of(kept[i].ts),
            prefix_of(kept[i].msg.skip("[Job] Started JobId("@.len() as int)),
        ) by {
            if i < before.len() {
                assert(after[i] == before[i]);
            }
        }
    }
}

/// The starts of jobs are read off the lines that announce one, each the line's moment and the key of
/// the id that follows the announcement, in the order of the lines.
pub proof fn job_starts_are_the_announcements(lines: Seq<LineModel>)
    ensures
        ({
            let starts = starts_of(lines);
            let kept = start_lines(lines);
            &&& starts.len() == kept.len()
            &&& forall|i: int|
                #![trigger starts[i]]
                0 <= i < starts.len() ==> starts[i] == (
                    us_of(kept[i].ts),
                    prefix_of(kept[i].msg.skip("[Job] Started JobId("@.len() as int)),
                )
        }),
{
    lemma_starts(lines, lines.len() as int);
    assert(lines.take(lines.len() as int) =~= lines);
}

} // verus!
