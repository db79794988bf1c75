//! What holds of every block of a document.

use vstd::prelude::*;

use crate::assemble::{
    block_node, block_of, block_phases, block_start, blocks_of, crash_marker, log_node, log_start,
    node_with_id, nodes_start, phases_start, rebased,
};
use crate::binding::bindings;
use crate::lines::LineModel;
use crate::log::{ms_of, LogModel, NodeEndKind, NodeModel};
use crate::metrics::{MetricModel, MetricStatus};
use crate::rows::{rows_of, subphase_rows_of};
use crate::windows::{entries_of, starts_of};

verus! {

/// Rebasing a window to a block's start keeps its place and its length: the block's start and the
/// phase's offset make the window's start, and the phase's duration on top makes its end.
pub proof fn rebasing_keeps_place_and_length(start: i64, end: i64, start_abs: i64)
    requires
        i64::MIN <= start - start_abs <= i64::MAX,
        i64::MIN <= end - start <= i64::MAX,
    ensures
        rebased(Some((start, end)), start_abs) is Some,
        ({
            let phase = rebased(Some((start, end)), start_abs)->0;
            &&& start_abs + phase.start_ms == start
            &&& start_abs + phase.start_ms + phase.dur_ms == end
            &&& phase.dur_ms == end - start
        }),
        rebased(None, start_abs) is None,
{
}

/// Phases that touch in the log touch in the block.
pub proof fn touching_phases_still_touch(first: (i64, i64), second: (i64, i64), start_abs: i64)
    requires
        first.1 == second.0,
        start_abs <= first.0 <= first.1 <= second.1,
        second.1 - start_abs <= i64::MAX,
    ensures
        ({
            let (left, right) = (rebased(Some(first), start_abs)->0, rebased(
                Some(second),
                start_abs,
            )->0);
            left.start_ms + left.dur_ms == right.start_ms
        }),
{
}

/// A node's phases in a block are the node's windows in the log, one for one and rebased to the
/// block's start; a node that the log does not record has every phase absent.
pub proof fn block_phases_are_the_windows(
    node: Option<NodeModel>,
    start_abs: i64,
    phase_count: int,
    phase: int,
)
    requires
        phase_count >= 0,
    ensures
        ({
            let phases = block_phases(node, start_abs, phase_count);
            match node {
                Some(node) => {
                    &&& phases.len() == node.phases.len()
                    &&& 0 <= phase < node.phases.len() ==> match node.phases[phase] {
                        None => phases[phase] is None,
                        Some((start, end)) => {
                            &&& phases[phase] is Some
                            &&& i64::MIN <= start - start_abs <= i64::MAX ==> start_abs
                                + phases[phase]->0.start_ms == start
                            &&& i64::MIN <= end - start <= i64::MAX ==> phases[phase]->0.dur_ms
                                == end - start
                        },
                    }
                },
                None => phases.len() == phase_count && (0 <= phase < phase_count
                    ==> phases[phase] is None),
            }
        }),
{
}

proof fn lemma_node_with_id(nodes: Seq<NodeModel>, id: Seq<char>, from: int)
    requires
        0 <= from,
    ensures
        match node_with_id(nodes, id, from) {
            Some(node) => exists|i: int|
                {
                    &&& from <= i < nodes.len()
                    &&& #[trigger] nodes[i] == node
                    &&& node.id == id
                    &&& forall|j: int| from <= j < i ==> (#[trigger] nodes[j]).id != id
                },
            None => forall|i: int| from <= i < nodes.len() ==> (#[trigger] nodes[i]).id != id,
        },
    decreases nodes.len() - from,
{
    if from < nodes.len() && nodes[from].id != id {
        lemma_node_with_id(nodes, id, from + 1);
        if node_with_id(nodes, id, from + 1) is Some {
            let node = node_with_id(nodes, id, from + 1)->0;
            let i = choose|i: int|
                {
                    &&& from + 1 <= i < nodes.len()
                    &&& #[trigger] nodes[i] == node
                    &&& node.id == id
                    &&& forall|j: int| from + 1 <= j < i ==> (#[trigger] nodes[j]).id != id
                };
            assert(nodes[i] == node);
        }
    } else if from < nodes.len() {
        assert(nodes[from] == node_with_id(nodes, id, from)->0);
    }
}

/// A node of a block is drawn from the record of that very node in the block's log, and from no other.
pub proof fn node_is_found_by_its_id(log: Option<LogModel>, id: Seq<char>)
    ensures
        match log_node(log, id) {
            Some(node) => log is Some && log->0.nodes.contains(node) && node.id == id,
            None => log is None || forall|i: int|
                0 <= i < log->0.nodes.len() ==> (#[trigger] log->0.nodes[i]).id != id,
        },
{
    if log is Some {
        lemma_node_with_id(log->0.nodes, id, 0);
    }
}

/// A node's own end marks it crashed or cancelled at the offset of that end, never left of the
/// block's start. Without one, a node that the result blames is marked crashed at the job's end, if
/// that is known. Any other node carries no mark.
pub proof fn crash_marker_stands_at_the_end(
    node: Option<NodeModel>,
    metric: MetricModel,
    log: Option<LogModel>,
    id: Seq<char>,
    start_abs: i64,
)
    ensures
        ({
            let (at, kind) = crash_marker(node, metric, log, id, start_abs);
            let end = if node is Some {
                node->0.end
            } else {
                None
            };
            match end {
                Some(end) => {
                    &&& kind == Some(
                        if end.kind == NodeEndKind::Crashed {
                            "crashed"@
                        } else {
                            "cancelled"@
                        },
                    )
                    &&& at is Some && at->0 >= 0
                    &&& i64::MIN <= end.at_ms - start_abs <= i64::MAX ==> at->0 == (if end.at_ms
                        < start_abs {
                        0
                    } else {
                        end.at_ms - start_abs
                    })
                },
                None => if metric.crashed_nodes.contains(id) {
                    &&& kind == Some("crashed"@)
                    &&& at is Some <==> log is Some && log->0.t_end is Some
                    &&& at is Some && i64::MIN <= ms_of(log->0.t_end->0) - start_abs <= i64::MAX
                        ==> start_abs + at->0 == ms_of(log->0.t_end->0)
                } else {
                    at is None && kind is None
                },
            }
        }),
{
}

/// A node of a block holds the phases, rows, and mark of its own record, and took part if and only if
/// the log lists it; without a log every node is taken to have taken part.
pub proof fn block_node_follows_the_record(
    metric: MetricModel,
    log: Option<LogModel>,
    id: Seq<char>,
    phase_count: int,
    start_abs: i64,
    component_base: usize,
)
    ensures
        ({
            let built = block_node(metric, log, id, phase_count, start_abs, component_base);
            let node = log_node(log, id);
            &&& built.phases == block_phases(node, start_abs, phase_count)
            &&& node is Some ==> built.pipeline == rows_of(
                node->0.items,
                start_abs,
                component_base,
            )
            &&& node is None ==> built.pipeline.len() == 0
            &&& (built.crashed_ms, built.crash_kind) == crash_marker(
                node,
                metric,
                log,
                id,
                start_abs,
            )
            &&& log is Some ==> (built.participated <==> log->0.participants.contains(id))
            &&& log is None ==> built.participated
        }),
{
}

/// Whether a moment is the start of a phase window of a log.
pub open spec fn starts_a_window(log: LogModel, at: i64) -> bool {
    exists|i: int, j: int|
        #![trigger log.nodes[i].phases[j]]
        0 <= i < log.nodes.len() && 0 <= j < log.nodes[i].phases.len()
            && log.nodes[i].phases[j] is Some && (log.nodes[i].phases[j]->0).0 == at
}

spec fn among_phases(phases: Seq<Option<(i64, i64)>>, count: int, at: i64) -> bool {
    exists|j: int| 0 <= j < count && (#[trigger] phases[j]) is Some && (phases[j]->0).0 == at
}

proof fn lemma_phases_start(
    held: Option<i64>,
    phases: Seq<Option<(i64, i64)>>,
    count: int,
)
    requires
        0 <= count <= phases.len(),
    ensures
        ({
            let start = phases_start(held, phases, count);
            &&& start is Some ==> start == held || among_phases(phases, count, start->0)
            &&& held is Some ==> start is Some && start->0 <= held->0
            &&& forall|j: int|
                0 <= j < count && (#[trigger] phases[j]) is Some ==> start is Some && start->0
                    <= (phases[j]->0).0
        }),
    decreases count,
{
    if count > 0 {
        lemma_phases_start(held, phases, count - 1);
        let before = phases_start(held, phases, count - 1);
        let start = phases_start(held, phases, count);
        if start is Some && start != held {
            if start == before {
                let j = choose|j: int|
                    0 <= j < count - 1 && (#[trigger] phases[j]) is Some && (phases[j]->0).0
                        == start->0;
                assert(phases[j] is Some);
            } else {
                assert(phases[count - 1] is Some);
            }
        }
    }
}

proof fn lemma_nodes_start(log: LogModel, count: int)
    requires
        0 <= count <= log.nodes.len(),
    ensures
        ({
            let start = nodes_start(log.nodes, count);
            &&& start is Some ==> starts_a_window(log, start->0)
            &&& forall|i: int, j: int|
                #![trigger log.nodes[i].phases[j]]
                0 <= i < count && 0 <= j < log.nodes[i].phases.len() && log.nodes[i].phases[j] is Some
                    ==> start is Some && start->0 <= (log.nodes[i].phases[j]->0).0
        }),
    decreases count,
{
    if count > 0 {
        lemma_nodes_start(log, count - 1);
        let before = nodes_start(log.nodes, count - 1);
        let phases = log.nodes[count - 1].phases;
        lemma_phases_start(before, phases, phases.len() as int);
        let start = nodes_start(log.nodes, count);
        if start is Some && start != before {
            let j = choose|j: int|
                0 <= j < phases.len() && (#[trigger] phases[j]) is Some && (phases[j]->0).0
                    == start->0;
            assert(log.nodes[count - 1].phases[j] is Some);
        }
    }
}

/// A log's earliest window start is the start of one of its windows, and none starts earlier; there
/// is none only where the log holds no window.
pub proof fn earliest_window_starts_first(log: LogModel)
    ensures
        log_start(log) is Some ==> starts_a_window(log, log_start(log)->0),
        forall|at: i64|
            #[trigger] starts_a_window(log, at) ==> log_start(log) is Some && log_start(log)->0
                <= at,
{
    lemma_nodes_start(log, log.nodes.len() as int);
    assert forall|at: i64| #[trigger] starts_a_window(log, at) implies log_start(log) is Some
        && log_start(log)->0 <= at by {
        let (i, j) = choose|i: int, j: int|
            #![trigger log.nodes[i].phases[j]]
            0 <= i < log.nodes.len() && 0 <= j < log.nodes[i].phases.len()
                && log.nodes[i].phases[j] is Some && (log.nodes[i].phases[j]->0).0 == at;
        assert(log.nodes[i].phases[j] is Some);
    }
}

/// A block starts where its job did. Where the log lacks that moment it starts with the log's earliest
/// window, and where there is no window or no log at the run epoch.
pub proof fn block_starts_with_its_job(log: LogModel, t0: i64)
    ensures
        log.t_start is Some ==> block_start(Some(log), t0) == ms_of(log.t_start->0),
        log.t_start is None && log_start(log) is Some ==> block_start(Some(log), t0) == log_start(
            log,
        )->0,
        log.t_start is None && log_start(log) is None ==> block_start(Some(log), t0) == t0,
        block_start(None, t0) == t0,
{
}

/// A block carries the figures of its own result under the result's own name: the wire status, the
/// gas, the times, and the proof size are those of the metric, and the scalars those of the log.
pub proof fn block_carries_its_result(
    metric: MetricModel,
    log: Option<LogModel>,
    node_ids: Seq<Seq<char>>,
    phase_count: int,
    t0: i64,
    lines: Seq<LineModel>,
    starts: Seq<(i64, Seq<char>)>,
    component_base: usize,
)
    ensures
        ({
            let block = block_of(
                metric,
                log,
                node_ids,
                phase_count,
                t0,
                lines,
                starts,
                component_base,
            );
            &&& block.name == metric.name
            &&& metric.status == MetricStatus::Success ==> block.status == "success"@
            &&& metric.status == MetricStatus::Crashed ==> block.status == "crashed"@
            &&& metric.status == MetricStatus::Timeout ==> block.status == "timeout"@
            &&& block.gas_used == metric.block_used_gas
            &&& metric.proving_time_ms is None ==> block.proving_ms is None
            &&& metric.proving_time_ms is Some && metric.proving_time_ms->0 <= i64::MAX
                ==> block.proving_ms is Some && block.proving_ms->0 == metric.proving_time_ms->0
            &&& block.proof_size == metric.proof_size
            &&& block.verification_time_ms == metric.verification_time_ms
            &&& log is Some ==> block.meta == log->0.meta
            &&& log is None ==> block.meta.len() == 0 && block.logs.len() == 0
                && block.subphases.len() == 0
            &&& log is Some ==> block.subphases == subphase_rows_of(log->0)
            &&& i64::MIN <= block_start(log, t0) - t0 <= i64::MAX ==> t0 + block.start_ms
                == block_start(log, t0)
        }),
{
}

/// A block's nodes stand at the places of the shared axis, each built for the node of that place and
/// rebased to the block's own start, and its log lines are those of its own window.
pub proof fn block_nodes_stand_at_their_places(
    metric: MetricModel,
    log: Option<LogModel>,
    node_ids: Seq<Seq<char>>,
    phase_count: int,
    t0: i64,
    lines: Seq<LineModel>,
    starts: Seq<(i64, Seq<char>)>,
    component_base: usize,
    node: int,
)
    requires
        0 <= node < node_ids.len(),
    ensures
        ({
            let block = block_of(
                metric,
                log,
                node_ids,
                phase_count,
                t0,
                lines,
                starts,
                component_base,
            );
            &&& block.nodes.len() == node_ids.len()
            &&& block.nodes[node] == block_node(
                metric,
                log,
                node_ids[node],
                phase_count,
                block_start(log, t0),
                component_base,
            )
            &&& block.logs == entries_of(
                log,
                lines,
                block_start(log, t0),
                metric.proving_time_ms,
                starts,
            )
        }),
{
}

/// The blocks of a run are its results in their order, each built from the log that the result is
/// bound to and from no other.
pub proof fn blocks_follow_the_results(
    logs: Seq<LogModel>,
    blocks: Seq<MetricModel>,
    node_ids: Seq<Seq<char>>,
    phase_count: int,
    t0: i64,
    lines: Seq<LineModel>,
    component_base: usize,
    block: int,
)
    requires
        0 <= block < blocks.len(),
    ensures
        ({
            let built = blocks_of(logs, blocks, node_ids, phase_count, t0, lines, component_base);
            let log = match bindings(logs, blocks)[block] {
                Some(log) => Some(logs[log as int]),
                None => None,
            };
            &&& built.len() == blocks.len()
            &&& built[block] == block_of(
                blocks[block],
                log,
                node_ids,
                phase_count,
                t0,
                lines,
                starts_of(lines),
                component_base,
            )
        }),
{
}

} // verus!
