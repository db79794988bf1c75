//! What holds of every run epoch, block window, and node axis.

use vstd::prelude::*;

use crate::assemble::{
    block_start, blocks_of, epoch_of, log_start, logs_epoch, nodes_start, phases_start,
    samples_epoch, successes_upto, telemetry_epoch,
};
use crate::lines::LineModel;
use crate::log::{ms_of, us_of, LogModel, LogStatus, NodeModel};
use crate::metrics::MetricModel;
use crate::schema::EntryModel;
use crate::telemetry::SamplesModel;
use crate::windows::{entries_of, entries_upto, next_start, window_end, window_start};

verus! {

spec fn at_most(held: Option<i64>, at: i64) -> bool {
    held is Some && held->0 <= at
}

proof fn lemma_phases_start(
    held: Option<i64>,
    phases: Seq<Option<(i64, i64)>>,
    count: int,
    at: int,
)
    requires
        0 <= at < count <= phases.len(),
        phases[at] is Some,
    ensures
        at_most(phases_start(held, phases, count), (phases[at]->0).0),
    decreases count,
{
    if at < count - 1 {
        lemma_phases_start(held, phases, count - 1, at);
    }
}

proof fn lemma_phases_keep(
    held: Option<i64>,
    phases: Seq<Option<(i64, i64)>>,
    count: int,
    moment: i64,
)
    requires
        at_most(held, moment),
    ensures
        at_most(phases_start(held, phases, count), moment),
    decreases count,
{
    if count > 0 {
        lemma_phases_keep(held, phases, count - 1, moment);
    }
}

proof fn lemma_nodes_start(nodes: Seq<NodeModel>, count: int, node: int, phase: int)
    requires
        0 <= node < count <= nodes.len(),
        0 <= phase < nodes[node].phases.len(),
        nodes[node].phases[phase] is Some,
    ensures
        at_most(nodes_start(nodes, count), (nodes[node].phases[phase]->0).0),
    decreases count,
{
    let phases = nodes[count - 1].phases;
    let before = nodes_start(nodes, count - 1);
    if node == count - 1 {
        lemma_phases_start(before, phases, phases.len() as int, phase);
    } else {
        lemma_nodes_start(nodes, count - 1, node, phase);
        lemma_phases_keep(
            before,
            phases,
            phases.len() as int,
            (nodes[node].phases[phase]->0).0,
        );
    }
}

proof fn lemma_logs_epoch(logs: Seq<LogModel>, count: int, log: int)
    requires
        0 <= log < count <= logs.len(),
    ensures
        logs[log].t_start is Some ==> at_most(
            logs_epoch(logs, count),
            ms_of(logs[log].t_start->0),
        ),
        log_start(logs[log]) is Some ==> at_most(
            logs_epoch(logs, count),
            log_start(logs[log])->0,
        ),
    decreases count,
{
    if log < count - 1 {
        lemma_logs_epoch(logs, count - 1, log);
    }
}

proof fn lemma_samples_keep(
    held: Option<i64>,
    samples: Seq<(int, u32)>,
    count: int,
    moment: i64,
)
    requires
        at_most(held, moment),
    ensures
        at_most(samples_epoch(held, samples, count), moment),
    decreases count,
{
    if count > 0 {
        lemma_samples_keep(held, samples, count - 1, moment);
    }
}

proof fn lemma_samples_epoch(held: Option<i64>, samples: Seq<(int, u32)>, count: int, at: int)
    requires
        0 <= at < count <= samples.len(),
    ensures
        at_most(samples_epoch(held, samples, count), ms_of(samples[at].0)),
    decreases count,
{
    if at < count - 1 {
        lemma_samples_epoch(held, samples, count - 1, at);
    }
}

proof fn lemma_telemetry_keep(
    held: Option<i64>,
    nodes: Seq<SamplesModel>,
    count: int,
    moment: i64,
)
    requires
        at_most(held, moment),
    ensures
        at_most(telemetry_epoch(held, nodes, count), moment),
    decreases count,
{
    if count > 0 {
        lemma_telemetry_keep(held, nodes, count - 1, moment);
        let samples = nodes[count - 1].1;
        lemma_samples_keep(
            telemetry_epoch(held, nodes, count - 1),
            samples,
            samples.len() as int,
            moment,
        );
    }
}

proof fn lemma_telemetry_epoch(
    held: Option<i64>,
    nodes: Seq<SamplesModel>,
    count: int,
    node: int,
    at: int,
)
    requires
        0 <= node < count <= nodes.len(),
        0 <= at < nodes[node].1.len(),
    ensures
        at_most(telemetry_epoch(held, nodes, count), ms_of(nodes[node].1[at].0)),
    decreases count,
{
    let samples = nodes[count - 1].1;
    let before = telemetry_epoch(held, nodes, count - 1);
    if node == count - 1 {
        lemma_samples_epoch(before, samples, samples.len() as int, at);
    } else {
        lemma_telemetry_epoch(held, nodes, count - 1, node, at);
        lemma_samples_keep(
            before,
            samples,
            samples.len() as int,
            ms_of(nodes[node].1[at].0),
        );
    }
}

/// The run epoch is no later than any telemetry sample, so no sample falls before the axis.
pub proof fn no_sample_precedes_the_epoch(
    logs: Seq<LogModel>,
    nodes: Seq<SamplesModel>,
    node: int,
    at: int,
)
    requires
        0 <= node < nodes.len(),
        0 <= at < nodes[node].1.len(),
    ensures
        epoch_of(logs, nodes) <= ms_of(nodes[node].1[at].0),
{
    lemma_telemetry_epoch(
        logs_epoch(logs, logs.len() as int),
        nodes,
        nodes.len() as int,
        node,
        at,
    );
}

/// The run epoch is no later than any phase window, so no window starts before it.
pub proof fn no_window_precedes_the_epoch(
    logs: Seq<LogModel>,
    nodes: Seq<SamplesModel>,
    log: int,
    node: int,
    phase: int,
)
    requires
        0 <= log < logs.len(),
        0 <= node < logs[log].nodes.len(),
        0 <= phase < logs[log].nodes[node].phases.len(),
        logs[log].nodes[node].phases[phase] is Some,
    ensures
        epoch_of(logs, nodes) <= (logs[log].nodes[node].phases[phase]->0).0,
{
    let start = (logs[log].nodes[node].phases[phase]->0).0;
    lemma_nodes_start(logs[log].nodes, logs[log].nodes.len() as int, node, phase);
    lemma_logs_epoch(logs, logs.len() as int, log);
    lemma_telemetry_keep(
        logs_epoch(logs, logs.len() as int),
        nodes,
        nodes.len() as int,
        log_start(logs[log])->0,
    );
}

/// No block starts before the run epoch.
pub proof fn no_block_precedes_the_epoch(logs: Seq<LogModel>, nodes: Seq<SamplesModel>, log: int)
    requires
        0 <= log < logs.len(),
    ensures
        block_start(Some(logs[log]), epoch_of(logs, nodes)) >= epoch_of(logs, nodes),
        block_start(None, epoch_of(logs, nodes)) == epoch_of(logs, nodes),
{
    lemma_logs_epoch(logs, logs.len() as int, log);
    let held = logs_epoch(logs, logs.len() as int);
    if logs[log].t_start is Some {
        lemma_telemetry_keep(
            held,
            nodes,
            nodes.len() as int,
            ms_of(logs[log].t_start->0),
        );
    } else if log_start(logs[log]) is Some {
        lemma_telemetry_keep(held, nodes, nodes.len() as int, log_start(logs[log])->0);
    }
}

/// Whether an entry is a line within a window, rebased to its start.
pub open spec fn entry_of(
    entry: EntryModel,
    lines: Seq<LineModel>,
    start_us: i64,
    end_us: i64,
) -> bool {
    exists|i: int|
        0 <= i < lines.len() && start_us <= us_of((#[trigger] lines[i]).ts) <= end_us && entry == (
        EntryModel {
            role: lines[i].role,
            time: us_of(lines[i].ts).wrapping_sub(start_us),
            level: lines[i].level,
            msg: lines[i].msg,
        })
}

proof fn lemma_entries(lines: Seq<LineModel>, start_us: i64, end_us: i64, count: int)
    requires
        0 <= count <= lines.len(),
    ensures
        forall|k: int|
            0 <= k < entries_upto(lines, start_us, end_us, count).len() ==> entry_of(
                #[trigger] entries_upto(lines, start_us, end_us, count)[k],
                lines,
                start_us,
                end_us,
            ),
    decreases count,
{
    if count > 0 {
        lemma_entries(lines, start_us, end_us, count - 1);
        let before = entries_upto(lines, start_us, end_us, count - 1);
        let after = entries_upto(lines, start_us, end_us, count);
        assert forall|k: int| 0 <= k < after.len() implies entry_of(
            #[trigger] after[k],
            lines,
            start_us,
            end_us,
        ) by {
            if k < before.len() {
                assert(after[k] == before[k]);
            } else {
                assert(start_us <= us_of(lines[count - 1].ts) <= end_us);
            }
        }
    }
}

/// Every log line of a block is a line of the cluster log within the block's window.
pub proof fn block_lines_lie_in_the_window(
    log: LogModel,
    lines: Seq<LineModel>,
    start_abs: i64,
    proving_ms: Option<u64>,
    starts: Seq<(i64, Seq<char>)>,
    k: int,
)
    requires
        0 <= k < entries_of(Some(log), lines, start_abs, proving_ms, starts).len(),
    ensures
        ({
            let start_us = window_start(log, start_abs);
            let next = next_start(starts, start_us, crate::log::prefix_of(log.id), 0);
            entry_of(
                entries_of(Some(log), lines, start_abs, proving_ms, starts)[k],
                lines,
                start_us,
                window_end(log, start_us, proving_ms, next),
            )
        }),
{
    let start_us = window_start(log, start_abs);
    let next = next_start(starts, start_us, crate::log::prefix_of(log.id), 0);
    lemma_entries(
        lines,
        start_us,
        window_end(log, start_us, proving_ms, next),
        lines.len() as int,
    );
}

proof fn lemma_next_start(
    starts: Seq<(i64, Seq<char>)>,
    after_us: i64,
    job: Seq<char>,
    from: int,
)
    requires
        0 <= from,
    ensures
        next_start(starts, after_us, job, from) is Some ==> next_start(
            starts,
            after_us,
            job,
            from,
        )->0 > after_us,
    decreases starts.len() - from,
{
    if from < starts.len() && !(starts[from].0 > after_us && starts[from].1 != job) {
        lemma_next_start(starts, after_us, job, from + 1);
    }
}

/// A failed block never absorbs the job that follows it: its window ends before the next different
/// job's start. Nor does one whose end is only estimated from its proving time.
pub proof fn window_stops_before_the_next_job(
    log: LogModel,
    start_us: i64,
    proving_ms: Option<u64>,
    starts: Seq<(i64, Seq<char>)>,
)
    requires
        next_start(starts, start_us, crate::log::prefix_of(log.id), 0) is Some,
        log.status != LogStatus::Success || log.t_end is None,
    ensures
        ({
            let next = next_start(starts, start_us, crate::log::prefix_of(log.id), 0);
            window_end(log, start_us, proving_ms, next) < next->0
        }),
{
    lemma_next_start(starts, start_us, crate::log::prefix_of(log.id), 0);
}

proof fn lemma_inverted(lines: Seq<LineModel>, start_us: i64, end_us: i64, count: int)
    requires
        end_us < start_us,
    ensures
        entries_upto(lines, start_us, end_us, count) == Seq::<EntryModel>::empty(),
    decreases count,
{
    if count > 0 {
        lemma_inverted(lines, start_us, end_us, count - 1);
    }
}

/// A log whose end precedes its start yields no lines.
pub proof fn inverted_window_is_empty(
    log: LogModel,
    lines: Seq<LineModel>,
    start_abs: i64,
    proving_ms: Option<u64>,
    starts: Seq<(i64, Seq<char>)>,
)
    requires
        ({
            let start_us = window_start(log, start_abs);
            let next = next_start(starts, start_us, crate::log::prefix_of(log.id), 0);
            window_end(log, start_us, proving_ms, next) < start_us
        }),
    ensures
        entries_of(Some(log), lines, start_abs, proving_ms, starts)
            == Seq::<EntryModel>::empty(),
{
    let start_us = window_start(log, start_abs);
    let next = next_start(starts, start_us, crate::log::prefix_of(log.id), 0);
    lemma_inverted(
        lines,
        start_us,
        window_end(log, start_us, proving_ms, next),
        lines.len() as int,
    );
}

proof fn lemma_entries_ordered(lines: Seq<LineModel>, start_us: i64, end_us: i64, count: int)
    requires
        0 <= count <= lines.len(),
        forall|i: int, j: int|
            0 <= i < j < lines.len() ==> us_of((#[trigger] lines[i]).ts) <= us_of(
                (#[trigger] lines[j]).ts,
            ),
        start_us >= 0,
    ensures
        ({
            let entries = entries_upto(lines, start_us, end_us, count);
            &&& forall|k: int|
                0 <= k < entries.len() ==> 0 <= (#[trigger] entries[k]).time && exists|i: int|
                    0 <= i < count && entries[k].time == us_of((#[trigger] lines[i]).ts) - start_us
            &&& forall|k: int, l: int|
                0 <= k < l < entries.len() ==> (#[trigger] entries[k]).time <= (
                #[trigger] entries[l]).time
        }),
    decreases count,
{
    if count > 0 {
        lemma_entries_ordered(lines, start_us, end_us, count - 1);
        let before = entries_upto(lines, start_us, end_us, count - 1);
        let after = entries_upto(lines, start_us, end_us, count);
        let us = us_of(lines[count - 1].ts);
        assert forall|k: int| 0 <= k < after.len() implies 0 <= (#[trigger] after[k]).time && exists|
            i: int,
        |
            0 <= i < count && after[k].time == us_of((#[trigger] lines[i]).ts) - start_us by {
            if k < before.len() {
                assert(after[k] == before[k]);
                let i = choose|i: int|
                    0 <= i < count - 1 && before[k].time == us_of((#[trigger] lines[i]).ts)
                        - start_us;
                assert(after[k].time == us_of(lines[i].ts) - start_us);
            } else {
                assert(us.wrapping_sub(start_us) == us - start_us);
                assert(after[k].time == us_of(lines[count - 1].ts) - start_us);
            }
        }
        assert forall|k: int, l: int| 0 <= k < l < after.len() implies (#[trigger] after[k]).time
            <= (#[trigger] after[l]).time by {
            assert(after[k] == before[k]);
            if l < before.len() {
                assert(after[l] == before[l]);
            } else {
                let i = choose|i: int|
                    0 <= i < count - 1 && before[k].time == us_of((#[trigger] lines[i]).ts)
                        - start_us;
                assert(us_of(lines[i].ts) <= us_of(lines[count - 1].ts));
            }
        }
    }
}

/// The log lines of a block that starts after the Unix epoch are in time order, and none lies before
/// the block's start, where the cluster log is in time order.
pub proof fn block_lines_are_in_time_order(
    log: LogModel,
    lines: Seq<LineModel>,
    start_abs: i64,
    proving_ms: Option<u64>,
    starts: Seq<(i64, Seq<char>)>,
    first: int,
    second: int,
)
    requires
        forall|i: int, j: int|
            0 <= i < j < lines.len() ==> us_of((#[trigger] lines[i]).ts) <= us_of(
                (#[trigger] lines[j]).ts,
            ),
        window_start(log, start_abs) >= 0,
        0 <= first < second < entries_of(Some(log), lines, start_abs, proving_ms, starts).len(),
    ensures
        ({
            let entries = entries_of(Some(log), lines, start_abs, proving_ms, starts);
            0 <= entries[first].time <= entries[second].time
        }),
{
    let start_us = window_start(log, start_abs);
    let next = next_start(starts, start_us, crate::log::prefix_of(log.id), 0);
    lemma_entries_ordered(
        lines,
        start_us,
        window_end(log, start_us, proving_ms, next),
        lines.len() as int,
    );
}

/// Every block holds one slot per node of the axis, so a block's nodes position to hardware.nodes by
/// index.
pub proof fn blocks_share_the_node_axis(
    logs: Seq<LogModel>,
    blocks: Seq<MetricModel>,
    node_ids: Seq<Seq<char>>,
    phase_count: int,
    t0: i64,
    lines: Seq<LineModel>,
    component_base: usize,
    block: int,
)
    requires
        0 <= block < blocks.len(),
    ensures
        blocks_of(logs, blocks, node_ids, phase_count, t0, lines, component_base).len()
            == blocks.len(),
        blocks_of(
            logs,
            blocks,
            node_ids,
            phase_count,
            t0,
            lines,
            component_base,
        )[block].nodes.len() == node_ids.len(),
{
}

/// The successes of a run are among its blocks, so the failures are the rest.
pub proof fn successes_are_blocks(blocks: Seq<MetricModel>, count: int)
    requires
        0 <= count <= blocks.len(),
    ensures
        0 <= successes_upto(blocks, count) <= count,
    decreases count,
{
    if count > 0 {
        successes_are_blocks(blocks, count - 1);
    }
}

} // verus!
