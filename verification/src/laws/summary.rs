//! What holds of every document's summary of its run.

use vstd::prelude::*;

use crate::assemble::{
    assembled, axis_of, blocks_of, epoch_of, first_start, logged_nodes, logs_epoch, log_start,
    run_of, samples_epoch, successes_upto, telemetry_epoch, SourcesModel,
};
use crate::laws::blocks::{earliest_window_starts_first, starts_a_window};
use crate::log::{ms_of, LogModel, NodeModel};
use crate::metrics::{MetricModel, MetricStatus};
use crate::telemetry::SamplesModel;
use crate::text::decimal;
use crate::text_map::{lemma_finite_sorted, strictly_sorted};
use crate::zkvm::ParsedModel;

verus! {

/// The number of successes counted is the number of results whose status is success.
pub proof fn successes_are_counted(blocks: Seq<MetricModel>, count: int)
    requires
        0 <= count <= blocks.len(),
    ensures
        successes_upto(blocks, count) == blocks.take(count).filter(
            |block: MetricModel| block.status == MetricStatus::Success,
        ).len(),
    decreases count,
{
    let success = |block: MetricModel| block.status == MetricStatus::Success;
    reveal(Seq::filter);
    if count > 0 {
        successes_are_counted(blocks, count - 1);
        let taken = blocks.take(count);
        assert(taken.drop_last() =~= blocks.take(count - 1));
        assert(taken.last() == blocks[count - 1]);
    }
}

proof fn lemma_filter_misses(
    blocks: Seq<MetricModel>,
    keep: spec_fn(MetricModel) -> bool,
    at: int,
)
    requires
        0 <= at < blocks.len(),
        !keep(blocks[at]),
    ensures
        blocks.filter(keep).len() < blocks.len(),
    decreases blocks.len(),
{
    reveal(Seq::filter);
    let rest = blocks.drop_last();
    if at < blocks.len() - 1 {
        assert(rest[at] == blocks[at]);
        lemma_filter_misses(rest, keep, at);
    } else {
        rest.lemma_filter_len(keep);
    }
}

/// A run counts its blocks, its successes, and the rest as failures: the three figures are the number
/// of results, the number of those of status success, and the number of the others, so a result that
/// did not succeed is a failure.
pub proof fn run_counts_its_results(
    parsed: ParsedModel,
    sources: SourcesModel,
    run_id: Seq<char>,
    result: int,
)
    ensures
        ({
            let run = run_of(parsed, sources, run_id);
            let success = |block: MetricModel| block.status == MetricStatus::Success;
            &&& run.block_count == sources.blocks.len()
            &&& run.success_count == sources.blocks.filter(success).len()
            &&& run.success_count + run.failure_count == run.block_count
            &&& 0 <= result < sources.blocks.len() && sources.blocks[result].status
                != MetricStatus::Success ==> run.failure_count >= 1
        }),
{
    let blocks = sources.blocks;
    let success = |block: MetricModel| block.status == MetricStatus::Success;
    successes_are_counted(blocks, blocks.len() as int);
    assert(blocks.take(blocks.len() as int) =~= blocks);
    assert(blocks.filter(|block: MetricModel| block.status == MetricStatus::Success)
        == blocks.filter(success));
    if 0 <= result < blocks.len() && blocks[result].status != MetricStatus::Success {
        lemma_filter_misses(blocks, success, result);
    }
}

/// Whether a moment is a signal of a run: the start of a job, the start of a phase window, or a
/// telemetry sample.
pub open spec fn is_signal(logs: Seq<LogModel>, nodes: Seq<SamplesModel>, at: i64) -> bool {
    ||| exists|i: int|
        0 <= i < logs.len() && (#[trigger] logs[i]).t_start is Some && ms_of(logs[i].t_start->0)
            == at
    ||| exists|i: int| 0 <= i < logs.len() && starts_a_window(#[trigger] logs[i], at)
    ||| exists|i: int, j: int|
        #![trigger nodes[i].1[j]]
        0 <= i < nodes.len() && 0 <= j < nodes[i].1.len() && ms_of(nodes[i].1[j].0) == at
}

proof fn lemma_logs_epoch(logs: Seq<LogModel>, nodes: Seq<SamplesModel>, count: int)
    requires
        0 <= count <= logs.len(),
    ensures
        ({
            let epoch = logs_epoch(logs, count);
            &&& epoch is Some ==> is_signal(logs, nodes, epoch->0)
            &&& forall|i: int|
                0 <= i < count && (#[trigger] logs[i]).t_start is Some ==> epoch is Some && epoch->0
                    <= ms_of(logs[i].t_start->0)
            &&& forall|i: int, at: i64|
                0 <= i < count && #[trigger] starts_a_window(logs[i], at) ==> epoch is Some
                    && epoch->0 <= at
        }),
    decreases count,
{
    if count > 0 {
        lemma_logs_epoch(logs, nodes, count - 1);
        earliest_window_starts_first(logs[count - 1]);
        let epoch = logs_epoch(logs, count);
        let log = logs[count - 1];
        if epoch is Some && epoch != logs_epoch(logs, count - 1) {
            if log_start(log) == epoch {
                assert(starts_a_window(logs[count - 1], epoch->0));
            } else {
                assert(logs[count - 1].t_start is Some);
            }
        }
    }
}

proof fn lemma_samples_epoch(held: Option<i64>, samples: Seq<(int, u32)>, count: int)
    requires
        0 <= count <= samples.len(),
    ensures
        ({
            let epoch = samples_epoch(held, samples, count);
            &&& epoch is Some ==> epoch == held || exists|j: int|
                0 <= j < count && ms_of((#[trigger] samples[j]).0) == epoch->0
            &&& held is Some ==> epoch is Some && epoch->0 <= held->0
            &&& forall|j: int|
                0 <= j < count ==> epoch is Some && epoch->0 <= ms_of((#[trigger] samples[j]).0)
        }),
    decreases count,
{
    if count > 0 {
        lemma_samples_epoch(held, samples, count - 1);
        let before = samples_epoch(held, samples, count - 1);
        let epoch = samples_epoch(held, samples, count);
        if epoch == before && epoch != held {
            let j = choose|j: int|
                0 <= j < count - 1 && ms_of((#[trigger] samples[j]).0) == before->0;
            assert(ms_of(samples[j].0) == epoch->0);
        } else if epoch != held {
            assert(ms_of(samples[count - 1].0) == epoch->0);
        }
    }
}

spec fn not_after(epoch: Option<i64>, at: i64) -> bool {
    epoch is Some && epoch->0 <= at
}

proof fn lemma_telemetry_epoch(
    logs: Seq<LogModel>,
    held: Option<i64>,
    nodes: Seq<SamplesModel>,
    count: int,
)
    requires
        0 <= count <= nodes.len(),
        held is Some ==> is_signal(logs, nodes, held->0),
    ensures
        ({
            let epoch = telemetry_epoch(held, nodes, count);
            &&& epoch is Some ==> is_signal(logs, nodes, epoch->0)
            &&& held is Some ==> epoch is Some && epoch->0 <= held->0
            &&& forall|i: int, j: int|
                #![trigger nodes[i].1[j]]
                0 <= i < count && 0 <= j < nodes[i].1.len() ==> not_after(
                    epoch,
                    ms_of(nodes[i].1[j].0),
                )
        }),
    decreases count,
{
    if count > 0 {
        lemma_telemetry_epoch(logs, held, nodes, count - 1);
        let before = telemetry_epoch(held, nodes, count - 1);
        let samples = nodes[count - 1].1;
        lemma_samples_epoch(before, samples, samples.len() as int);
        let epoch = telemetry_epoch(held, nodes, count);
        if epoch is Some && epoch != before {
            let j = choose|j: int|
                0 <= j < samples.len() && ms_of((#[trigger] samples[j]).0) == epoch->0;
            assert(ms_of(nodes[count - 1].1[j].0) == epoch->0);
        }
        assert forall|i: int, j: int|
            #![trigger nodes[i].1[j]]
            0 <= i < count && 0 <= j < nodes[i].1.len() implies not_after(
            epoch,
            ms_of(nodes[i].1[j].0),
        ) by {
            if i == count - 1 {
                assert(samples[j] == nodes[i].1[j]);
            } else {
                assert(not_after(before, ms_of(nodes[i].1[j].0)));
            }
        }
    }
}

/// The run epoch is a signal of the run and no signal is earlier; without any signal it is zero.
pub proof fn epoch_is_the_earliest_signal(logs: Seq<LogModel>, nodes: Seq<SamplesModel>, at: i64)
    requires
        is_signal(logs, nodes, at),
        at < i64::MAX,
    ensures
        is_signal(logs, nodes, epoch_of(logs, nodes)),
        epoch_of(logs, nodes) <= at,
{
    lemma_logs_epoch(logs, nodes, logs.len() as int);
    let held = logs_epoch(logs, logs.len() as int);
    lemma_telemetry_epoch(logs, held, nodes, nodes.len() as int);
}

/// A run without any signal is anchored at zero.
pub proof fn epoch_without_a_signal_is_zero(logs: Seq<LogModel>, nodes: Seq<SamplesModel>)
    requires
        forall|at: i64| !is_signal(logs, nodes, at),
    ensures
        epoch_of(logs, nodes) == 0,
{
    lemma_logs_epoch(logs, nodes, logs.len() as int);
    let held = logs_epoch(logs, logs.len() as int);
    lemma_telemetry_epoch(logs, held, nodes, nodes.len() as int);
}

/// With telemetry the node axis is the telemetry's nodes in their order, each under node and its
/// digit.
pub proof fn axis_follows_the_telemetry(
    logs: Seq<LogModel>,
    nodes: Seq<SamplesModel>,
    node: int,
)
    requires
        0 <= node < nodes.len(),
    ensures
        axis_of(logs, nodes).len() == nodes.len(),
        axis_of(logs, nodes)[node] == "node"@ + decimal(nodes[node].0 as nat),
{
}

proof fn lemma_logged_nodes(logs: Seq<LogModel>, count: int, id: Seq<char>)
    requires
        0 <= count <= logs.len(),
    ensures
        logged_nodes(logs, count).finite(),
        logged_nodes(logs, count).contains(id) <==> exists|i: int, j: int|
            #![trigger logs[i].nodes[j]]
            0 <= i < count && 0 <= j < logs[i].nodes.len() && logs[i].nodes[j].id == id,
    decreases count,
{
    if count > 0 {
        lemma_logged_nodes(logs, count - 1, id);
        let ids = logs[count - 1].nodes.map_values(|node: NodeModel| node.id);
        vstd::seq_lib::seq_to_set_is_finite(ids);
        if ids.contains(id) {
            let j = choose|j: int| 0 <= j < ids.len() && ids[j] == id;
            assert(logs[count - 1].nodes[j].id == id);
        }
        if exists|i: int, j: int|
            #![trigger logs[i].nodes[j]]
            0 <= i < count && 0 <= j < logs[i].nodes.len() && logs[i].nodes[j].id == id {
            let (i, j) = choose|i: int, j: int|
                #![trigger logs[i].nodes[j]]
                0 <= i < count && 0 <= j < logs[i].nodes.len() && logs[i].nodes[j].id == id;
            if i == count - 1 {
                assert(ids[j] == id);
            } else {
                assert(logs[i].nodes[j].id == id);
            }
        }
    }
}

/// Without telemetry the node axis is the nodes that the logs name, each once and in the order of
/// their ids.
pub proof fn axis_without_telemetry_is_the_logged_nodes(logs: Seq<LogModel>, id: Seq<char>)
    ensures
        strictly_sorted(axis_of(logs, seq![])),
        axis_of(logs, seq![]).contains(id) <==> exists|i: int, j: int|
            #![trigger logs[i].nodes[j]]
            0 <= i < logs.len() && 0 <= j < logs[i].nodes.len() && logs[i].nodes[j].id == id,
{
    lemma_logged_nodes(logs, logs.len() as int, id);
    lemma_finite_sorted(logged_nodes(logs, logs.len() as int));
}

proof fn lemma_first_start(logs: Seq<LogModel>, from: int)
    requires
        0 <= from,
    ensures
        match first_start(logs, from) {
            Some(at) => exists|i: int|
                {
                    &&& from <= i < logs.len()
                    &&& (#[trigger] logs[i]).t_start is Some
                    &&& at == ms_of(logs[i].t_start->0)
                    &&& forall|j: int| from <= j < i ==> (#[trigger] logs[j]).t_start is None
                },
            None => forall|i: int| from <= i < logs.len() ==> (#[trigger] logs[i]).t_start is None,
        },
    decreases logs.len() - from,
{
    if from < logs.len() && logs[from].t_start is None {
        lemma_first_start(logs, from + 1);
        if first_start(logs, from + 1) is Some {
            let at = first_start(logs, from + 1)->0;
            let i = choose|i: int|
                {
                    &&& from + 1 <= i < logs.len()
                    &&& (#[trigger] logs[i]).t_start is Some
                    &&& at == ms_of(logs[i].t_start->0)
                    &&& forall|j: int| from + 1 <= j < i ==> (#[trigger] logs[j]).t_start is None
                };
            assert(logs[i].t_start is Some);
        }
    } else if from < logs.len() {
        assert(logs[from].t_start is Some);
    }
}

/// A run started at the start of the first job that has one, and at the run epoch where none has.
pub proof fn run_starts_with_its_first_job(
    parsed: ParsedModel,
    sources: SourcesModel,
    run_id: Seq<char>,
)
    ensures
        ({
            let run = run_of(parsed, sources, run_id);
            let logs = parsed.logs;
            ||| exists|i: int|
                {
                    &&& 0 <= i < logs.len()
                    &&& (#[trigger] logs[i]).t_start is Some
                    &&& run.started_at == ms_of(logs[i].t_start->0)
                    &&& forall|j: int| 0 <= j < i ==> (#[trigger] logs[j]).t_start is None
                }
            ||| (forall|i: int| 0 <= i < logs.len() ==> (#[trigger] logs[i]).t_start is None)
                && run.started_at == epoch_of(logs, sources.samples)
        }),
{
    lemma_first_start(parsed.logs, 0);
}

/// Whether some item of the logs carries a sub-step breakdown.
pub open spec fn some_breakdown(logs: Seq<LogModel>) -> bool {
    exists|l: int, n: int, i: int|
        #![trigger logs[l].nodes[n].items[i]]
        0 <= l < logs.len() && 0 <= n < logs[l].nodes.len() && 0 <= i
            < logs[l].nodes[n].items.len() && logs[l].nodes[n].items[i].meta.spans.len() > 0
}

/// The pipeline template is the backend's kinds. The component kinds stand behind them, and the
/// sub-phases ride the document, if and only if some item carries a breakdown.
pub proof fn templates_widen_with_a_breakdown(
    parsed: ParsedModel,
    sources: SourcesModel,
    run_id: Seq<char>,
    name: Seq<char>,
    description: Seq<char>,
)
    ensures
        ({
            let zkvm = assembled(parsed, sources, run_id, name, description).zkvm;
            &&& some_breakdown(parsed.logs) ==> zkvm.pipeline == parsed.pipeline
                + parsed.pipeline_components && zkvm.subphases == parsed.subphases
            &&& !some_breakdown(parsed.logs) ==> zkvm.pipeline == parsed.pipeline
                && zkvm.subphases.len() == 0
        }),
{
    let logs = parsed.logs;
    if crate::rows::spans_present(logs) {
        let l = choose|l: int|
            0 <= l < logs.len() && crate::rows::log_has_spans(#[trigger] logs[l]);
        let log = logs[l];
        let (n, i) = choose|n: int, i: int|
            #![trigger log.nodes[n].items[i]]
            0 <= n < log.nodes.len() && 0 <= i < log.nodes[n].items.len()
                && log.nodes[n].items[i].meta.spans.len() > 0;
        assert(logs[l].nodes[n].items[i].meta.spans.len() > 0);
    }
    if some_breakdown(logs) {
        let (l, n, i) = choose|l: int, n: int, i: int|
            #![trigger logs[l].nodes[n].items[i]]
            0 <= l < logs.len() && 0 <= n < logs[l].nodes.len() && 0 <= i
                < logs[l].nodes[n].items.len() && logs[l].nodes[n].items[i].meta.spans.len() > 0;
        let log = logs[l];
        assert(log.nodes[n].items[i].meta.spans.len() > 0);
        assert(crate::rows::log_has_spans(logs[l]));
    }
}

/// A document names its run, its cluster, and its software as the sources give them: the hardware and
/// the node axis, the backend's name and phases, and the versions, empty where they are unknown. A
/// given name and description are kept.
pub proof fn document_names_its_sources(
    parsed: ParsedModel,
    sources: SourcesModel,
    run_id: Seq<char>,
    name: Seq<char>,
    description: Seq<char>,
)
    ensures
        ({
            let document = assembled(parsed, sources, run_id, name, description);
            &&& document.schema_version == 1
            &&& document.id == run_id
            &&& name.len() > 0 ==> document.name == name
            &&& document.description == description
            &&& document.hardware.cpu_model == sources.cpu_model
            &&& document.hardware.ram_gib == sources.ram_gib
            &&& document.hardware.gpu_models == sources.gpu_models
            &&& document.hardware.nodes == axis_of(parsed.logs, sources.samples)
            &&& document.zkvm.name == parsed.name
            &&& document.zkvm.phases == parsed.phases
            &&& sources.version is Some ==> document.zkvm.version == sources.version->0
            &&& sources.version is None ==> document.zkvm.version.len() == 0
            &&& sources.guest is Some ==> document.guest.0 == sources.guest->0
            &&& sources.guest is None ==> document.guest.0.len() == 0
            &&& sources.guest_version is Some ==> document.guest.1 == sources.guest_version->0
            &&& sources.guest_version is None ==> document.guest.1.len() == 0
            &&& document.runs.len() == 1
            &&& document.runs[0] == run_of(parsed, sources, run_id)
            &&& document.runs[0].id == run_id
        }),
{
}

/// A run's blocks are built on the run's own epoch, node axis, phases, and pipeline.
pub proof fn run_blocks_share_the_epoch_and_axis(
    parsed: ParsedModel,
    sources: SourcesModel,
    run_id: Seq<char>,
)
    ensures
        run_of(parsed, sources, run_id).blocks == blocks_of(
            parsed.logs,
            sources.blocks,
            axis_of(parsed.logs, sources.samples),
            parsed.phases.len() as int,
            epoch_of(parsed.logs, sources.samples),
            sources.raw_log,
            parsed.pipeline.len() as usize,
        ),
{
}

} // verus!
