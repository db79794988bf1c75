//! Assembles the parsed logs and the run's measured sources into the lean output document.

use vstd::prelude::*;

use crate::binding::{bindings, match_blocks_to_logs};
use crate::lines::{LineModel, RawLine};
use crate::log::{
    end_kind_text, ms_of, Log, LogModel, LogNode, NodeEnd, NodeModel, PhaseDef, PipelineDef,
    PipelineItem, SubPhaseDef,
};
use crate::metrics::{
    among, status_text, Hardware as NodeHardware, MetricBlock, MetricModel, MetricStatus,
    MetricsMeta,
};
use crate::rows::{
    all_packable, any_log_spans, block_subphase_rows, breakdown_overruns, fit, packable,
    pipeline_rows, rows_of, spans_present, subphase_rows_of,
};
use crate::schema::{
    Benchmark, BenchmarkModel, Block, BlockModel, BlockNode, BlockNodeModel, Guest, Hardware,
    HardwareModel, Phase, PhaseWindow, PipelineStep, Row, Run, RunModel, Software, SubPhase, Zkvm,
    ZkvmModel,
};
use crate::telemetry::{NodeSamples, Sample, SamplesModel};
use crate::text::{
    all_digits, is_digit, joined, last_of, rfind, same, to_chars, to_text, write_decimal,
};
use crate::text_map::{sorted_members, TextSet};
use crate::windows::{block_logs, entries_of, job_starts, log_view, starts_of};
use crate::zisk::worker::node_name;
use crate::zkvm::{ParsedLogs, ParsedModel};

verus! {

/// The schema version of the documents assembled here.
pub const SCHEMA_VERSION: u32 = 1;

/// The earlier of two moments of which the first may be absent.
pub open spec fn earlier(held: Option<i64>, at: i64) -> Option<i64> {
    match held {
        Some(held) => Some(
            if at < held {
                at
            } else {
                held
            },
        ),
        None => Some(at),
    }
}

fn min_of(held: Option<i64>, at: i64) -> (min: Option<i64>)
    ensures
        min == earlier(held, at),
{
    match held {
        Some(held) => Some(
            if at < held {
                at
            } else {
                held
            },
        ),
        None => Some(at),
    }
}

/// The earliest window start among the first `count` phases.
pub open spec fn phases_start(
    held: Option<i64>,
    phases: Seq<Option<(i64, i64)>>,
    count: int,
) -> Option<i64>
    decreases count,
{
    if count <= 0 {
        held
    } else {
        let before = phases_start(held, phases, count - 1);
        match phases[count - 1] {
            Some((start, _)) => earlier(before, start),
            None => before,
        }
    }
}

/// The earliest window start among the first `count` nodes.
pub open spec fn nodes_start(nodes: Seq<NodeModel>, count: int) -> Option<i64>
    decreases count,
{
    if count <= 0 {
        None
    } else {
        let phases = nodes[count - 1].phases;
        phases_start(nodes_start(nodes, count - 1), phases, phases.len() as int)
    }
}

/// The earliest phase-window start across a log's nodes.
pub open spec fn log_start(log: LogModel) -> Option<i64> {
    nodes_start(log.nodes, log.nodes.len() as int)
}

/// The earliest phase-window start across a log's nodes, anchoring a job with no start time.
pub fn earliest_window(log: &Log) -> (start: Option<i64>)
    ensures
        start == log_start(log.deep_view()),
{
    let ghost nodes = log.nodes.deep_view();
    let mut start: Option<i64> = None;
    for i in 0..log.nodes.len()
        invariant
            nodes == log.nodes.deep_view(),
            start == nodes_start(nodes, i as int),
    {
        assert(nodes[i as int] == log.nodes@[i as int].deep_view());
        let phases: &Vec<Option<(i64, i64)>> = &log.nodes[i].phases;
        let ghost before = start;
        for j in 0..phases.len()
            invariant
                start == phases_start(before, phases@, j as int),
        {
            if let Some((at, _)) = phases[j] {
                start = min_of(start, at);
            }
        }
    }
    start
}

/// The earliest job signal of the first `count` logs.
pub open spec fn logs_epoch(logs: Seq<LogModel>, count: int) -> Option<i64>
    decreases count,
{
    if count <= 0 {
        None
    } else {
        let log = logs[count - 1];
        let started = match log.t_start {
            Some(ns) => earlier(logs_epoch(logs, count - 1), ms_of(ns)),
            None => logs_epoch(logs, count - 1),
        };
        match log_start(log) {
            Some(at) => earlier(started, at),
            None => started,
        }
    }
}

/// The earliest of a moment and the first `count` samples.
pub open spec fn samples_epoch(held: Option<i64>, samples: Seq<(int, u32)>, count: int) -> Option<
    i64,
>
    decreases count,
{
    if count <= 0 {
        held
    } else {
        earlier(samples_epoch(held, samples, count - 1), ms_of(samples[count - 1].0))
    }
}

/// The earliest of a moment and the samples of the first `count` nodes.
pub open spec fn telemetry_epoch(held: Option<i64>, nodes: Seq<SamplesModel>, count: int) -> Option<
    i64,
>
    decreases count,
{
    if count <= 0 {
        held
    } else {
        let samples = nodes[count - 1].1;
        samples_epoch(telemetry_epoch(held, nodes, count - 1), samples, samples.len() as int)
    }
}

/// The earliest job signal or telemetry tick of a run, zero where there is none.
pub open spec fn epoch_of(logs: Seq<LogModel>, nodes: Seq<SamplesModel>) -> i64 {
    match telemetry_epoch(logs_epoch(logs, logs.len() as int), nodes, nodes.len() as int) {
        Some(t0) => if t0 == i64::MAX {
            0
        } else {
            t0
        },
        None => 0,
    }
}

/// Picks the run epoch as the earliest job signal or telemetry tick, so no offset is negative.
pub fn run_epoch(logs: &Vec<Log>, nodes: &Vec<NodeSamples>) -> (t0: i64)
    ensures
        t0 == epoch_of(logs.deep_view(), nodes.deep_view()),
{
    let mut t0: Option<i64> = None;
    for i in 0..logs.len()
        invariant
            t0 == logs_epoch(logs.deep_view(), i as int),
    {
        assert(logs.deep_view()[i as int] == logs@[i as int].deep_view());
        if let Some(ts) = logs[i].t_start {
            t0 = min_of(t0, ts.epoch_ms());
        }
        if let Some(at) = earliest_window(&logs[i]) {
            t0 = min_of(t0, at);
        }
    }
    let ghost held = t0;
    for i in 0..nodes.len()
        invariant
            t0 == telemetry_epoch(held, nodes.deep_view(), i as int),
    {
        assert(nodes.deep_view()[i as int] == nodes@[i as int].deep_view());
        let samples: &Vec<Sample> = &nodes[i].samples;
        let ghost before = t0;
        let ghost model = samples.deep_view();
        for j in 0..samples.len()
            invariant
                model == samples.deep_view(),
                t0 == samples_epoch(before, model, j as int),
        {
            assert(model[j as int] == samples@[j as int].deep_view());
            t0 = min_of(t0, samples[j].t.epoch_ms());
        }
    }
    match t0 {
        Some(t0) => if t0 == i64::MAX {
            0
        } else {
            t0
        },
        None => 0,
    }
}

/// The nodes that the first `count` logs name.
pub open spec fn logged_nodes(logs: Seq<LogModel>, count: int) -> Set<Seq<char>>
    decreases count,
{
    if count <= 0 {
        Set::empty()
    } else {
        logged_nodes(logs, count - 1).union(
            logs[count - 1].nodes.map_values(|node: NodeModel| node.id).to_set(),
        )
    }
}

/// The node axis of a document: the telemetry's nodes, or where a run captured no telemetry the
/// nodes that the logs name.
pub open spec fn axis_of(logs: Seq<LogModel>, nodes: Seq<SamplesModel>) -> Seq<Seq<char>> {
    if nodes.len() == 0 {
        sorted_members(logged_nodes(logs, logs.len() as int))
    } else {
        nodes.map_values(|node: SamplesModel| node_name(node.0))
    }
}

fn add_nodes(set: &mut TextSet, nodes: &Vec<LogNode>)
    ensures
        final(set)@ == old(set)@.union(
            nodes.deep_view().map_values(|node: NodeModel| node.id).to_set(),
        ),
{
    let ghost before = set@;
    let ghost all = nodes.deep_view().map_values(|node: NodeModel| node.id);
    assert(before.union(all.take(0).to_set()) =~= before);
    for i in 0..nodes.len()
        invariant
            all == nodes.deep_view().map_values(|node: NodeModel| node.id),
            set@ == before.union(all.take(i as int).to_set()),
    {
        let id: Vec<char> = to_chars(nodes[i].id.as_str());
        set.insert(id.as_slice());
        proof {
            assert(all[i as int] == id@);
            let (less, more) = (all.take(i as int), all.take(i + 1));
            assert(more =~= less.push(id@));
            assert forall|other: Seq<char>| more.to_set().contains(other) <==> less.to_set().insert(
                id@,
            ).contains(other) by {
                if less.contains(other) {
                    let k = choose|k: int| 0 <= k < less.len() && less[k] == other;
                    assert(more[k] == other);
                }
                assert(more[i as int] == id@);
            }
            assert(set@ =~= before.union(more.to_set()));
        }
    }
    assert(all.take(all.len() as int) =~= all);
}

/// The node axis the whole document shares, the telemetry's node set falling back to the nodes the
/// logs name when a run captured no telemetry, so a block's nodes position to hardware.nodes by
/// index even when a node took no part in that block.
pub fn node_axis(logs: &Vec<Log>, nodes: &Vec<NodeSamples>) -> (ids: Vec<String>)
    ensures
        ids.deep_view() == axis_of(logs.deep_view(), nodes.deep_view()),
{
    if nodes.len() == 0 {
        let mut set: TextSet = TextSet::new();
        for i in 0..logs.len()
            invariant
                set@ == logged_nodes(logs.deep_view(), i as int),
        {
            assert(logs.deep_view()[i as int] == logs@[i as int].deep_view());
            add_nodes(&mut set, &logs[i].nodes);
        }
        return set.to_texts();
    }
    let mut ids: Vec<String> = Vec::new();
    for i in 0..nodes.len()
        invariant
            ids@.len() == i,
            forall|k: int|
                0 <= k < i ==> (#[trigger] ids@[k]).deep_view() == node_name(nodes@[k].digit),
    {
        let name: Vec<char> = joined(
            to_chars("node").as_slice(),
            write_decimal(nodes[i].digit as u64).as_slice(),
        );
        ids.push(to_text(name.as_slice()));
    }
    assert(ids.deep_view() =~= axis_of(logs.deep_view(), nodes.deep_view()));
    ids
}

/// Whether a text is a run of digits of the given length.
pub open spec fn is_number(text: Seq<char>, len: int) -> bool {
    text.len() == len && all_digits(text)
}

/// A run id without its trailing -YYYYMMDD-HHMMSS timestamp, and the id itself where it has none.
pub open spec fn name_of_run(run_id: Seq<char>) -> Seq<char> {
    match last_of(run_id, '-') {
        None => run_id,
        Some(time_at) => {
            let rest = run_id.take(time_at);
            match last_of(rest, '-') {
                None => run_id,
                Some(date_at) => if is_number(run_id.skip(time_at + 1), 6) && is_number(
                    rest.skip(date_at + 1),
                    8,
                ) {
                    rest.take(date_at)
                } else {
                    run_id
                },
            }
        },
    }
}

fn number(text: &[char], len: usize) -> (yes: bool)
    ensures
        yes == is_number(text@, len as int),
{
    if text.len() != len {
        return false;
    }
    for i in 0..text.len()
        invariant
            forall|k: int| 0 <= k < i ==> is_digit(#[trigger] text@[k]),
    {
        if !('0' <= text[i] && text[i] <= '9') {
            assert(!is_digit(text@[i as int]));
            return false;
        }
    }
    true
}

/// The benchmark name derived from a run id, the run id with a trailing -YYYYMMDD-HHMMSS timestamp
/// dropped so the several timestamped runs of one benchmark share a name. A run id without that
/// suffix is returned unchanged.
pub fn benchmark_name(run_id: &str) -> (name: String)
    ensures
        name@ == name_of_run(run_id@),
{
    let chars: Vec<char> = to_chars(run_id);
    let id = chars.as_slice();
    let len: usize = id.len();
    if let Some(time_at) = rfind(id, '-') {
        let rest = &id[0..time_at];
        let time = &id[time_at + 1..len];
        assert(rest@ =~= id@.take(time_at as int));
        assert(time@ =~= id@.skip(time_at + 1));
        if let Some(date_at) = rfind(rest, '-') {
            let name = &rest[0..date_at];
            let date = &rest[date_at + 1..time_at];
            assert(name@ =~= rest@.take(date_at as int));
            assert(date@ =~= rest@.skip(date_at + 1));
            if number(time, 6) && number(date, 8) {
                return to_text(name);
            }
        }
    }
    run_id.to_string()
}

/// The first of the nodes, from `from` on, with the given id.
pub open spec fn node_with_id(nodes: Seq<NodeModel>, id: Seq<char>, from: int) -> Option<NodeModel>
    decreases nodes.len() - from,
{
    if from < 0 || from >= nodes.len() {
        None
    } else if nodes[from].id == id {
        Some(nodes[from])
    } else {
        node_with_id(nodes, id, from + 1)
    }
}

/// The record of a node in a log that may be absent.
pub open spec fn log_node(log: Option<LogModel>, id: Seq<char>) -> Option<NodeModel> {
    match log {
        Some(log) => node_with_id(log.nodes, id, 0),
        None => None,
    }
}

fn find_node<'a>(log: Option<&'a Log>, id: &str) -> (node: Option<&'a LogNode>)
    ensures
        match node {
            Some(node) => log_node(log_view(log), id@) == Some(node.deep_view()) && log is Some
                && exists|i: int| 0 <= i < (log->0).nodes@.len() && (log->0).nodes@[i] == *node,
            None => log_node(log_view(log), id@) is None,
        },
{
    let own: &'a Log = match log {
        Some(own) => own,
        None => {
            return None;
        },
    };
    let key: Vec<char> = to_chars(id);
    let ghost nodes = own.nodes.deep_view();
    for i in 0..own.nodes.len()
        invariant
            log == Some(own),
            key@ == id@,
            nodes == own.nodes.deep_view(),
            node_with_id(nodes, id@, 0) == node_with_id(nodes, id@, i as int),
    {
        assert(nodes[i as int] == own.nodes@[i as int].deep_view());
        let other: Vec<char> = to_chars(own.nodes[i].id.as_str());
        if same(other.as_slice(), key.as_slice()) {
            assert((log->0).nodes@[i as int] == own.nodes@[i as int]);
            return Some(&own.nodes[i]);
        }
    }
    None
}

/// A phase window rebased from absolute epoch ms to a block-start offset.
pub open spec fn rebased(window: Option<(i64, i64)>, start_abs: i64) -> Option<PhaseWindow> {
    match window {
        Some((start, end)) => Some(
            PhaseWindow {
                start_ms: start.wrapping_sub(start_abs),
                dur_ms: end.wrapping_sub(start),
            },
        ),
        None => None,
    }
}

/// The phase windows of a node in a block, all absent where the log does not hold the node.
pub open spec fn block_phases(node: Option<NodeModel>, start_abs: i64, phase_count: int) -> Seq<
    Option<PhaseWindow>,
> {
    match node {
        Some(node) => node.phases.map_values(
            |window: Option<(i64, i64)>| rebased(window, start_abs),
        ),
        None => Seq::new(phase_count as nat, |i: int| None),
    }
}

/// Where and how a node ended on a block. The log's per-node crash or cancel marker is preferred
/// since it knows when and how the node ended, never left of the block start. The metric reason's
/// blamed node is the fallback when the log holds no per-node end, placed at the job's terminal
/// time.
pub open spec fn crash_marker(
    node: Option<NodeModel>,
    metric: MetricModel,
    log: Option<LogModel>,
    id: Seq<char>,
    start_abs: i64,
) -> (Option<i64>, Option<Seq<char>>) {
    let end = match node {
        Some(node) => node.end,
        None => None,
    };
    match end {
        Some(end) => {
            let at = end.at_ms.wrapping_sub(start_abs);
            (
                Some(
                    if at < 0 {
                        0
                    } else {
                        at
                    },
                ),
                Some(end_kind_text(end.kind)),
            )
        },
        None => if metric.crashed_nodes.contains(id) {
            (
                match log {
                    Some(LogModel { t_end: Some(ns), .. }) => Some(
                        ms_of(ns).wrapping_sub(start_abs),
                    ),
                    _ => None,
                },
                Some("crashed"@),
            )
        } else {
            (None, None)
        },
    }
}

/// A node's contribution to a block.
pub open spec fn block_node(
    metric: MetricModel,
    log: Option<LogModel>,
    id: Seq<char>,
    phase_count: int,
    start_abs: i64,
    component_base: usize,
) -> BlockNodeModel {
    let node = log_node(log, id);
    let (crashed_ms, crash_kind) = crash_marker(node, metric, log, id, start_abs);
    BlockNodeModel {
        phases: block_phases(node, start_abs, phase_count),
        pipeline: match node {
            Some(node) => rows_of(node.items, start_abs, component_base),
            None => seq![],
        },
        crashed_ms,
        crash_kind,
        participated: match log {
            Some(log) => log.participants.contains(id),
            None => true,
        },
    }
}

/// The start of a block: its log's start, else the log's earliest window, else the run epoch.
pub open spec fn block_start(log: Option<LogModel>, t0: i64) -> i64 {
    match log {
        Some(log) => match log.t_start {
            Some(ns) => ms_of(ns),
            None => match log_start(log) {
                Some(at) => at,
                None => t0,
            },
        },
        None => t0,
    }
}

/// A block built from a metric and its optional matched log.
pub open spec fn block_of(
    metric: MetricModel,
    log: Option<LogModel>,
    node_ids: Seq<Seq<char>>,
    phase_count: int,
    t0: i64,
    lines: Seq<LineModel>,
    starts: Seq<(i64, Seq<char>)>,
    component_base: usize,
) -> BlockModel {
    let start_abs = block_start(log, t0);
    BlockModel {
        name: metric.name,
        status: status_text(metric.status),
        start_ms: start_abs.wrapping_sub(t0),
        gas_used: metric.block_used_gas,
        proving_ms: match metric.proving_time_ms {
            Some(ms) => Some(ms as i64),
            None => None,
        },
        proof_size: metric.proof_size,
        verification_time_ms: metric.verification_time_ms,
        meta: match log {
            Some(log) => log.meta,
            None => seq![],
        },
        nodes: node_ids.map_values(
            |id: Seq<char>| block_node(metric, log, id, phase_count, start_abs, component_base),
        ),
        subphases: match log {
            Some(log) => subphase_rows_of(log),
            None => seq![],
        },
        logs: entries_of(log, lines, start_abs, metric.proving_time_ms, starts),
    }
}

/// Whether every item of a log can be packed into rows.
pub open spec fn log_packable(log: LogModel) -> bool {
    forall|i: int| 0 <= i < log.nodes.len() ==> all_packable((#[trigger] log.nodes[i]).items)
}

/// Whether every item of every log can be packed into rows.
pub open spec fn logs_packable(logs: Seq<LogModel>) -> bool {
    forall|i: int| 0 <= i < logs.len() ==> log_packable(#[trigger] logs[i])
}

/// Whether an item can be packed into rows.
fn can_pack_item(item: &PipelineItem) -> (yes: bool)
    ensures
        yes == packable(item.deep_view().meta),
{
    if item.meta.spans.len() == 0 {
        return true;
    }
    let window: (i64, i64) = match item.meta.spans_window {
        Some(window) => window,
        None => {
            return false;
        },
    };
    if breakdown_overruns(&item.meta) {
        match &item.meta.scaled_ends {
            Some(ends) => ends.len() == item.meta.spans.len() && fit(ends, window),
            None => false,
        }
    } else {
        true
    }
}

/// Whether every item of every log can be packed into rows: one that carries a breakdown has a
/// window to pack it into, and ends scaled to fit where it overruns the window.
pub fn can_pack(logs: &Vec<Log>) -> (yes: bool)
    ensures
        yes == logs_packable(logs.deep_view()),
{
    let ghost models = logs.deep_view();
    for i in 0..logs.len()
        invariant
            models == logs.deep_view(),
            forall|k: int| 0 <= k < i ==> log_packable(#[trigger] models[k]),
    {
        let ghost log = models[i as int];
        assert(log == logs@[i as int].deep_view());
        let nodes: &Vec<LogNode> = &logs[i].nodes;
        for j in 0..nodes.len()
            invariant
                models == logs.deep_view(),
                i < logs@.len(),
                log == models[i as int],
                log.nodes == nodes.deep_view(),
                forall|k: int| 0 <= k < j ==> all_packable((#[trigger] log.nodes[k]).items),
        {
            let items: &Vec<PipelineItem> = &nodes[j].items;
            assert(log.nodes[j as int] == nodes@[j as int].deep_view());
            for k in 0..items.len()
                invariant
                    models == logs.deep_view(),
                    i < logs@.len(),
                    log == models[i as int],
                    j < log.nodes.len(),
                    log.nodes[j as int].items == items.deep_view(),
                    forall|l: int|
                        0 <= l < k ==> packable((#[trigger] items.deep_view()[l]).meta),
            {
                assert(items.deep_view()[k as int] == items@[k as int].deep_view());
                if !can_pack_item(&items[k]) {
                    proof {
                        assert(!packable(log.nodes[j as int].items[k as int].meta));
                        assert(!all_packable(log.nodes[j as int].items));
                        assert(!log_packable(log));
                    }
                    return false;
                }
            }
            assert(all_packable(log.nodes[j as int].items));
        }
        assert(log_packable(log));
    }
    true
}

fn build_phases(node: Option<&LogNode>, start_abs: i64, phase_count: usize) -> (phases: Vec<
    Option<PhaseWindow>,
>)
    ensures
        phases@ == block_phases(
            match node {
                Some(node) => Some(node.deep_view()),
                None => None,
            },
            start_abs,
            phase_count as int,
        ),
{
    let mut phases: Vec<Option<PhaseWindow>> = Vec::new();
    match node {
        Some(node) => {
            for i in 0..node.phases.len()
                invariant
                    phases@.len() == i,
                    forall|k: int|
                        0 <= k < i ==> #[trigger] phases@[k] == rebased(node.phases@[k], start_abs),
            {
                phases.push(
                    match node.phases[i] {
                        Some((start, end)) => Some(
                            PhaseWindow {
                                start_ms: start.wrapping_sub(start_abs),
                                dur_ms: end.wrapping_sub(start),
                            },
                        ),
                        None => None,
                    },
                );
            }
            assert(phases@ =~= block_phases(
                Some(node.deep_view()),
                start_abs,
                phase_count as int,
            ));
        },
        None => {
            for i in 0..phase_count
                invariant
                    phases@.len() == i,
                    forall|k: int| 0 <= k < i ==> #[trigger] phases@[k] is None,
            {
                phases.push(None);
            }
            assert(phases@ =~= block_phases(None, start_abs, phase_count as int));
        },
    }
    phases
}

fn build_marker(
    end: Option<NodeEnd>,
    metric: &MetricBlock,
    log: Option<&Log>,
    id: &str,
    start_abs: i64,
    node: Ghost<Option<NodeModel>>,
) -> (marker: (Option<i64>, Option<String>))
    requires
        end == match node@ {
            Some(node) => node.end,
            None => None,
        },
    ensures
        (marker.0, marker.1.deep_view()) == crash_marker(
            node@,
            metric.deep_view(),
            log_view(log),
            id@,
            start_abs,
        ),
{
    match end {
        // The offset is floored to zero so a worker crash or cancel logged before the coordinator
        // start, whether from cross-host clock skew or a cancel that preceded the job Started line,
        // never renders left of the time origin.
        Some(end) => {
            let at: i64 = end.at_ms.wrapping_sub(start_abs);
            (
                Some(
                    if at < 0 {
                        0
                    } else {
                        at
                    },
                ),
                Some(end.kind.as_str().to_string()),
            )
        },
        None => if among(&metric.crashed_nodes, id) {
            let at: Option<i64> = match log {
                Some(log) => match log.t_end {
                    Some(ts) => Some(ts.epoch_ms().wrapping_sub(start_abs)),
                    None => None,
                },
                None => None,
            };
            (at, Some("crashed".to_string()))
        } else {
            (None, None)
        },
    }
}

fn build_node(
    metric: &MetricBlock,
    log: Option<&Log>,
    id: &str,
    phase_count: usize,
    start_abs: i64,
    component_base: usize,
) -> (built: BlockNode)
    requires
        log is Some ==> log_packable((log->0).deep_view()),
    ensures
        built.deep_view() == block_node(
            metric.deep_view(),
            log_view(log),
            id@,
            phase_count as int,
            start_abs,
            component_base,
        ),
{
    let node: Option<&LogNode> = find_node(log, id);
    let ghost model = log_node(log_view(log), id@);
    let end: Option<NodeEnd> = match node {
        Some(node) => node.end,
        None => None,
    };
    let (crashed_ms, crash_kind) = build_marker(
        end,
        metric,
        log,
        id,
        start_abs,
        Ghost(model),
    );
    // A node took part when the log lists it among the participants. With no log there is no
    // participation evidence, so the node is assumed present rather than flagged absent.
    let participated: bool = match log {
        Some(log) => among(&log.participants, id),
        None => true,
    };
    let pipeline: Vec<Row> = match node {
        Some(node) => {
            proof {
                let nodes = (log->0).nodes;
                let i = choose|i: int| 0 <= i < nodes@.len() && nodes@[i] == *node;
                assert((log->0).deep_view().nodes[i] == node.deep_view());
            }
            pipeline_rows(&node.items, start_abs, component_base)
        },
        None => {
            let none: Vec<Row> = Vec::new();
            assert(none.deep_view() =~= seq![]);
            none
        },
    };
    BlockNode {
        phases: build_phases(node, start_abs, phase_count),
        pipeline,
        crashed_ms,
        crash_kind,
        participated,
    }
}

fn copy_meta(log: Option<&Log>) -> (meta: Vec<(String, u64)>)
    ensures
        meta.deep_view() == match log_view(log) {
            Some(log) => log.meta,
            None => seq![],
        },
{
    let mut meta: Vec<(String, u64)> = Vec::new();
    match log {
        Some(log) => {
            for i in 0..log.meta.len()
                invariant
                    meta@.len() == i,
                    forall|k: int|
                        0 <= k < i ==> (#[trigger] meta@[k]).deep_view()
                            == log.meta@[k].deep_view(),
            {
                meta.push((log.meta[i].0.clone(), log.meta[i].1));
            }
            assert(meta.deep_view() =~= log.meta.deep_view());
        },
        None => {
            assert(meta.deep_view() =~= seq![]);
        },
    }
    meta
}

/// Builds one block from a metric and its optional matched log.
///
/// Timing comes from the log when present, the block start, per-node phase windows, and crash time.
/// Without a log the block still carries its metric outcome and figures but has no timeline.
pub fn build_block(
    metric: &MetricBlock,
    log: Option<&Log>,
    node_ids: &Vec<String>,
    phase_count: usize,
    t0: i64,
    raw_log: &Vec<RawLine>,
    starts: &Vec<(i64, String)>,
    component_base: usize,
) -> (block: Block)
    requires
        log is Some ==> log_packable((log->0).deep_view()),
    ensures
        block.deep_view() == block_of(
            metric.deep_view(),
            log_view(log),
            node_ids.deep_view(),
            phase_count as int,
            t0,
            raw_log.deep_view(),
            starts.deep_view(),
            component_base,
        ),
{
    let start_abs: i64 = match log {
        Some(log) => match log.t_start {
            Some(ts) => ts.epoch_ms(),
            None => match earliest_window(log) {
                Some(at) => at,
                None => t0,
            },
        },
        None => t0,
    };
    let mut nodes: Vec<BlockNode> = Vec::new();
    for i in 0..node_ids.len()
        invariant
            log is Some ==> log_packable((log->0).deep_view()),
            nodes@.len() == i,
            forall|k: int|
                0 <= k < i ==> (#[trigger] nodes@[k]).deep_view() == block_node(
                    metric.deep_view(),
                    log_view(log),
                    node_ids@[k]@,
                    phase_count as int,
                    start_abs,
                    component_base,
                ),
    {
        nodes.push(
            build_node(
                metric,
                log,
                node_ids[i].as_str(),
                phase_count,
                start_abs,
                component_base,
            ),
        );
    }
    let subphases: Vec<(u64, u64)> = match log {
        Some(log) => block_subphase_rows(log),
        None => {
            let none: Vec<(u64, u64)> = Vec::new();
            assert(none@ =~= seq![]);
            none
        },
    };
    let block = Block {
        name: metric.name.clone(),
        status: metric.status.as_str().to_string(),
        start_ms: start_abs.wrapping_sub(t0),
        gas_used: metric.block_used_gas,
        proving_ms: match metric.proving_time_ms {
            Some(ms) => Some(ms as i64),
            None => None,
        },
        proof_size: metric.proof_size,
        verification_time_ms: metric.verification_time_ms,
        meta: copy_meta(log),
        nodes,
        subphases,
        logs: block_logs(log, raw_log, start_abs, metric.proving_time_ms, starts),
    };
    proof {
        let expected = block_of(
            metric.deep_view(),
            log_view(log),
            node_ids.deep_view(),
            phase_count as int,
            t0,
            raw_log.deep_view(),
            starts.deep_view(),
            component_base,
        );
        assert(block.nodes.deep_view() =~= expected.nodes);
    }
    block
}

/// The log that a binding names.
pub open spec fn bound_log(logs: Seq<LogModel>, bound: Option<usize>) -> Option<LogModel> {
    match bound {
        Some(log) => Some(logs[log as int]),
        None => None,
    }
}

/// One block per metric in completion order, enriched with the log that timed it.
pub open spec fn blocks_of(
    logs: Seq<LogModel>,
    blocks: Seq<MetricModel>,
    node_ids: Seq<Seq<char>>,
    phase_count: int,
    t0: i64,
    lines: Seq<LineModel>,
    component_base: usize,
) -> Seq<BlockModel> {
    let bound = bindings(logs, blocks);
    Seq::new(
        blocks.len(),
        |i: int|
            block_of(
                blocks[i],
                bound_log(logs, bound[i]),
                node_ids,
                phase_count,
                t0,
                lines,
                starts_of(lines),
                component_base,
            ),
    )
}

/// Builds one block per metric in completion order, enriched with the log that timed it.
///
/// The metric archive is the source of truth for which proofs exist, so a log with no metric is not
/// emitted. Each block's nodes match the shared node axis, so a node that took no part still holds
/// a slot of absent phases at its index.
pub fn build_blocks(
    logs: &Vec<Log>,
    blocks: &Vec<MetricBlock>,
    node_ids: &Vec<String>,
    phase_count: usize,
    t0: i64,
    raw_log: &Vec<RawLine>,
    component_base: usize,
) -> (built: Vec<Block>)
    requires
        logs_packable(logs.deep_view()),
    ensures
        built.deep_view() == blocks_of(
            logs.deep_view(),
            blocks.deep_view(),
            node_ids.deep_view(),
            phase_count as int,
            t0,
            raw_log.deep_view(),
            component_base,
        ),
{
    let bound: Vec<Option<usize>> = match_blocks_to_logs(logs, blocks);
    let starts: Vec<(i64, String)> = job_starts(raw_log);
    let ghost models = logs.deep_view();
    let ghost expected = blocks_of(
        models,
        blocks.deep_view(),
        node_ids.deep_view(),
        phase_count as int,
        t0,
        raw_log.deep_view(),
        component_base,
    );
    let mut built: Vec<Block> = Vec::new();
    for i in 0..blocks.len()
        invariant
            models == logs.deep_view(),
            logs_packable(models),
            starts.deep_view() == starts_of(raw_log.deep_view()),
            bound@ == bindings(models, blocks.deep_view()),
            bound@.len() == blocks@.len(),
            forall|k: int|
                0 <= k < bound@.len() ==> crate::binding::in_range(
                    #[trigger] bound@[k],
                    logs@.len(),
                ),
            expected == blocks_of(
                models,
                blocks.deep_view(),
                node_ids.deep_view(),
                phase_count as int,
                t0,
                raw_log.deep_view(),
                component_base,
            ),
            built@.len() == i,
            forall|k: int| 0 <= k < i ==> (#[trigger] built@[k]).deep_view() == expected[k],
    {
        assert(crate::binding::in_range(bound@[i as int], logs@.len()));
        let log: Option<&Log> = match bound[i] {
            Some(log) => {
                assert(models[log as int] == logs@[log as int].deep_view());
                assert(log_packable(models[log as int]));
                Some(&logs[log])
            },
            None => None,
        };
        assert(blocks.deep_view()[i as int] == blocks@[i as int].deep_view());
        assert(log_view(log) == bound_log(models, bound@[i as int]));
        built.push(
            build_block(
                &blocks[i],
                log,
                node_ids,
                phase_count,
                t0,
                raw_log,
                &starts,
                component_base,
            ),
        );
    }
    assert(built.deep_view() =~= expected);
    built
}

/// The non-log sources of a run, holding the per-proof metrics and their metadata, the node
/// hardware spec, the moments of the GPU telemetry by node, and the kept raw cluster-log lines.
pub struct Sources {
    pub blocks: Vec<MetricBlock>,
    pub meta: MetricsMeta,
    pub hardware: NodeHardware,
    /// The telemetry of each node, ascending by node digit.
    pub samples: Vec<NodeSamples>,
    /// Every kept coordinator and worker log line, sorted by timestamp, which the assembler cuts
    /// into each block's proving window.
    pub raw_log: Vec<RawLine>,
}

/// The first start among the logs from `from` on.
pub open spec fn first_start(logs: Seq<LogModel>, from: int) -> Option<i64>
    decreases logs.len() - from,
{
    if from < 0 || from >= logs.len() {
        None
    } else {
        match logs[from].t_start {
            Some(ns) => Some(ms_of(ns)),
            None => first_start(logs, from + 1),
        }
    }
}

fn started(logs: &Vec<Log>) -> (at: Option<i64>)
    ensures
        at == first_start(logs.deep_view(), 0),
{
    for i in 0..logs.len()
        invariant
            first_start(logs.deep_view(), 0) == first_start(logs.deep_view(), i as int),
    {
        assert(logs.deep_view()[i as int] == logs@[i as int].deep_view());
        if let Some(ts) = logs[i].t_start {
            return Some(ts.epoch_ms());
        }
    }
    None
}

/// The number of successes among the first `count` results.
pub open spec fn successes_upto(blocks: Seq<MetricModel>, count: int) -> int
    decreases count,
{
    if count <= 0 {
        0
    } else if blocks[count - 1].status == MetricStatus::Success {
        successes_upto(blocks, count - 1) + 1
    } else {
        successes_upto(blocks, count - 1)
    }
}

fn count_successes(blocks: &Vec<MetricBlock>) -> (count: usize)
    ensures
        count == successes_upto(blocks.deep_view(), blocks@.len() as int),
        count <= blocks@.len(),
{
    let mut count: usize = 0;
    for i in 0..blocks.len()
        invariant
            count == successes_upto(blocks.deep_view(), i as int),
            count <= i,
    {
        assert(blocks.deep_view()[i as int] == blocks@[i as int].deep_view());
        if blocks[i].status == MetricStatus::Success {
            count += 1;
        }
    }
    count
}

/// A text that may be absent, empty where it is.
pub open spec fn or_empty(text: Option<Seq<char>>) -> Seq<char> {
    match text {
        Some(text) => text,
        None => seq![],
    }
}

fn or_blank(text: Option<String>) -> (out: String)
    ensures
        out@ == or_empty(text.deep_view()),
{
    match text {
        Some(text) => text,
        None => {
            let out = String::new();
            assert(out@ =~= seq![]);
            out
        },
    }
}

fn copy_phases(phases: &Vec<PhaseDef>) -> (copy: Vec<Phase>)
    ensures
        copy.deep_view() == phases.deep_view(),
{
    let mut copy: Vec<Phase> = Vec::new();
    for i in 0..phases.len()
        invariant
            copy@.len() == i,
            forall|k: int|
                0 <= k < i ==> (#[trigger] copy@[k]).deep_view() == phases@[k].deep_view(),
    {
        copy.push(
            Phase {
                name: phases[i].name.clone(),
                label: phases[i].label.clone(),
                overlap: phases[i].overlap,
            },
        );
    }
    assert(copy.deep_view() =~= phases.deep_view());
    copy
}

fn push_steps(steps: &mut Vec<PipelineStep>, kinds: &Vec<PipelineDef>)
    ensures
        final(steps).deep_view() == old(steps).deep_view() + kinds.deep_view(),
{
    let ghost before = steps.deep_view();
    let ghost all = kinds.deep_view();
    assert(before + all.take(0) =~= before);
    for i in 0..kinds.len()
        invariant
            all == kinds.deep_view(),
            steps.deep_view() == before + all.take(i as int),
    {
        let ghost held = steps.deep_view();
        let step = PipelineStep {
            name: kinds[i].name.clone(),
            label: kinds[i].label.clone(),
            phase: kinds[i].phase.clone(),
            paired: kinds[i].paired,
        };
        steps.push(step);
        proof {
            assert(all[i as int] == kinds@[i as int].deep_view());
            assert(steps.deep_view() =~= held.push(step.deep_view()));
            assert(steps.deep_view() =~= before + all.take(i + 1));
        }
    }
    assert(all.take(all.len() as int) =~= all);
}

fn copy_subphases(subphases: &Vec<SubPhaseDef>) -> (copy: Vec<SubPhase>)
    ensures
        copy.deep_view() == subphases.deep_view(),
{
    let mut copy: Vec<SubPhase> = Vec::new();
    for i in 0..subphases.len()
        invariant
            copy@.len() == i,
            forall|k: int|
                0 <= k < i ==> (#[trigger] copy@[k]).deep_view() == subphases@[k].deep_view(),
    {
        copy.push(
            SubPhase {
                name: subphases[i].name.clone(),
                label: subphases[i].label.clone(),
                phase: subphases[i].phase.clone(),
            },
        );
    }
    assert(copy.deep_view() =~= subphases.deep_view());
    copy
}

/// The pipeline template of a run. A run carrying sub-steps appends the component kinds after the
/// base kinds so their rows reference them.
pub open spec fn template_of(parsed: ParsedModel) -> Seq<(Seq<char>, Seq<char>, Seq<char>, bool)> {
    if spans_present(parsed.logs) {
        parsed.pipeline + parsed.pipeline_components
    } else {
        parsed.pipeline
    }
}

/// The sources of a run by the values they hold.
#[verifier::ext_equal]
pub struct SourcesModel {
    pub blocks: Seq<MetricModel>,
    pub guest: Option<Seq<char>>,
    pub guest_version: Option<Seq<char>>,
    pub version: Option<Seq<char>>,
    pub cpu_model: Option<Seq<char>>,
    pub ram_gib: Option<u64>,
    pub gpu_models: Seq<Seq<char>>,
    pub samples: Seq<SamplesModel>,
    pub raw_log: Seq<LineModel>,
}

impl DeepView for Sources {
    type V = SourcesModel;

    open spec fn deep_view(&self) -> SourcesModel {
        SourcesModel {
            blocks: self.blocks.deep_view(),
            guest: self.meta.guest.deep_view(),
            guest_version: self.meta.guest_version.deep_view(),
            version: self.meta.version.deep_view(),
            cpu_model: self.hardware.cpu_model.deep_view(),
            ram_gib: self.hardware.total_ram_gib,
            gpu_models: self.hardware.gpu_models.deep_view(),
            samples: self.samples.deep_view(),
            raw_log: self.raw_log.deep_view(),
        }
    }
}

/// The run of a document.
pub open spec fn run_of(parsed: ParsedModel, sources: SourcesModel, run_id: Seq<char>) -> RunModel {
    let t0 = epoch_of(parsed.logs, sources.samples);
    let successes = successes_upto(sources.blocks, sources.blocks.len() as int);
    RunModel {
        id: run_id,
        started_at: match first_start(parsed.logs, 0) {
            Some(at) => at,
            None => t0,
        },
        block_count: sources.blocks.len() as int,
        success_count: successes,
        failure_count: sources.blocks.len() - successes,
        blocks: blocks_of(
            parsed.logs,
            sources.blocks,
            axis_of(parsed.logs, sources.samples),
            parsed.phases.len() as int,
            t0,
            sources.raw_log,
            parsed.pipeline.len() as usize,
        ),
    }
}

/// The document of one run.
pub open spec fn assembled(
    parsed: ParsedModel,
    sources: SourcesModel,
    run_id: Seq<char>,
    name: Seq<char>,
    description: Seq<char>,
) -> BenchmarkModel {
    BenchmarkModel {
        schema_version: SCHEMA_VERSION,
        hardware: HardwareModel {
            cpu_model: sources.cpu_model,
            ram_gib: sources.ram_gib,
            gpu_models: sources.gpu_models,
            nodes: axis_of(parsed.logs, sources.samples),
        },
        zkvm: ZkvmModel {
            name: parsed.name,
            version: or_empty(sources.version),
            phases: parsed.phases,
            pipeline: template_of(parsed),
            subphases: if spans_present(parsed.logs) {
                parsed.subphases
            } else {
                seq![]
            },
        },
        guest: (or_empty(sources.guest), or_empty(sources.guest_version)),
        id: run_id,
        name: if name.len() == 0 {
            name_of_run(run_id)
        } else {
            name
        },
        description,
        runs: seq![run_of(parsed, sources, run_id)],
    }
}

/// Assembles the parsed logs and measured sources into the final benchmark document, with the run's
/// statistics and telemetry given. The benchmark name and description come from the run directory's
/// input benchmark.json, and an empty name falls back to the benchmark name derived from the run id
/// so the several timestamped runs of one benchmark still share a name and merge together.
pub fn assemble<S, T>(
    parsed: ParsedLogs,
    sources: Sources,
    run_id: &str,
    name: String,
    description: String,
    statistics: S,
    telemetry: T,
) -> (document: Benchmark<S, T>)
    requires
        logs_packable(parsed.logs.deep_view()),
    ensures
        document.deep_view() == assembled(
            parsed.deep_view(),
            sources.deep_view(),
            run_id@,
            name@,
            description@,
        ),
        document.runs@.len() == 1,
        document.runs@[0].statistics == statistics,
        document.runs@[0].telemetry == telemetry,
{
    let ghost expected = assembled(
        parsed.deep_view(),
        sources.deep_view(),
        run_id@,
        name@,
        description@,
    );
    // A run carrying per-item log spans gates both the extra breakdown templates and the component
    // pipeline rows the spans emit in place of their monolithic items. The component kinds append
    // after the base kinds, so a component of sub-phase slot i lands at base plus i.
    let with_spans: bool = any_log_spans(&parsed.logs);
    let component_base: usize = parsed.pipeline.len();
    let t0: i64 = run_epoch(&parsed.logs, &sources.samples);
    let node_ids: Vec<String> = node_axis(&parsed.logs, &sources.samples);
    let blocks: Vec<Block> = build_blocks(
        &parsed.logs,
        &sources.blocks,
        &node_ids,
        parsed.phases.len(),
        t0,
        &sources.raw_log,
        component_base,
    );
    let success_count: usize = count_successes(&sources.blocks);
    let run = Run {
        id: run_id.to_string(),
        started_at: match started(&parsed.logs) {
            Some(at) => at,
            None => t0,
        },
        block_count: sources.blocks.len(),
        success_count,
        failure_count: sources.blocks.len() - success_count,
        statistics,
        blocks,
        telemetry,
    };
    assert(run.deep_view() == expected.runs[0]);
    let mut pipeline: Vec<PipelineStep> = Vec::new();
    assert(pipeline.deep_view() =~= seq![]);
    push_steps(&mut pipeline, &parsed.pipeline);
    if with_spans {
        push_steps(&mut pipeline, &parsed.pipeline_components);
    }
    assert(pipeline.deep_view() =~= expected.zkvm.pipeline);
    // The sub-phase template rides the document only when some block carries log-derived spans, so
    // a run of unpatched-image logs, including every zisk run, keeps the prior schema.
    let subphases: Vec<SubPhase> = if with_spans {
        copy_subphases(&parsed.subphases)
    } else {
        Vec::new()
    };
    assert(subphases.deep_view() =~= expected.zkvm.subphases);
    // An absent input name falls back to the benchmark name derived from the run id, the run id
    // with its trailing timestamp dropped, so two timestamped runs of one benchmark share a name
    // and merge into one document while the id stays the per-run identity.
    let named: bool = to_chars(name.as_str()).len() > 0;
    let name: String = if named {
        name
    } else {
        benchmark_name(run_id)
    };
    let mut runs: Vec<Run<S, T>> = Vec::new();
    runs.push(run);
    assert(runs.deep_view() =~= expected.runs);
    Benchmark {
        schema_version: SCHEMA_VERSION,
        hardware: Hardware {
            cpu_model: sources.hardware.cpu_model,
            ram_gib: sources.hardware.total_ram_gib,
            gpu_models: sources.hardware.gpu_models,
            nodes: node_ids,
        },
        software: Software {
            zkvm: Zkvm {
                name: parsed.name.to_string(),
                version: or_blank(sources.meta.version),
                phases: copy_phases(&parsed.phases),
                pipeline,
                subphases,
            },
            guest: Guest {
                name: or_blank(sources.meta.guest),
                version: or_blank(sources.meta.guest_version),
            },
        },
        id: run_id.to_string(),
        name,
        description,
        runs,
    }
}

} // verus!
