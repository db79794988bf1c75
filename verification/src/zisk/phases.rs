//! Translates parsed zisk jobs into the generic model, building each node's phase windows from its
//! worker sub-phase markers.
//!
//! The preset orders the phases input, emulation, witgen, prove, aggregate. Each comes straight
//! from the worker log markers. Input transfer runs from the coordinator job start to the worker's
//! Starting Partial Contribution, when the node has the input and begins, emulation is the
//! COMPUTE_MINIMAL_TRACE bracket, witgen runs from the PLAN marker to the contribution success
//! line, and prove is the GENERATING_PROOFS bracket. The phases may leave a gap between them. The
//! aggregate window is bounded by the aggregator worker log with a coordinator phase3 fallback and
//! attached only to the aggregator. A clean job carries every marker, while an incomplete job clips
//! its unfinished phase to where the node crashed or was cancelled.

use vstd::prelude::*;

use crate::log::{
    ms_of, ItemModel, Log, LogModel, LogNode, LogStatus, NodeEnd, NodeEndKind, NodeModel,
    PipelineItem, Ts,
};
use crate::text::{same, to_chars, to_text};
use crate::text_map::{sorted_members, TextSet};
use crate::zisk::coordinator::{JobModel, RawJob};
use crate::zisk::pipeline::JobPipelines;
use crate::zisk::worker::{AggBounds, AggModel, JobStages, StagesModel, WorkerStages};
use crate::zkvm::{
    all_none, copy_items, copy_reading, no_window, opt_at, opt_entry, opt_keys, opt_view,
    push_entry,
};

verus! {

/// The number of phases in the zisk preset.
pub const PHASE_COUNT: usize = 5;

/// The epoch milliseconds of an instant that may be absent.
pub open spec fn opt_ms(ns: Option<int>) -> Option<i64> {
    match ns {
        Some(ns) => Some(ms_of(ns)),
        None => None,
    }
}

/// The epoch milliseconds of an instant that may be absent.
pub fn ms(ts: Option<Ts>) -> (ms: Option<i64>)
    ensures
        ms == opt_ms(ts.deep_view()),
{
    match ts {
        Some(ts) => Some(ts.epoch_ms()),
        None => None,
    }
}

/// The first of two that is present.
pub open spec fn or<T>(first: Option<T>, second: Option<T>) -> Option<T> {
    if first is Some {
        first
    } else {
        second
    }
}

/// The later of two instants of which either may be absent.
pub open spec fn later(left: Option<i64>, right: Option<i64>) -> Option<i64> {
    match (left, right) {
        (Some(l), Some(r)) => Some(
            if r > l {
                r
            } else {
                l
            },
        ),
        (None, _) => right,
        (_, None) => left,
    }
}

fn max_of(left: Option<i64>, right: Option<i64>) -> (max: Option<i64>)
    ensures
        max == later(left, right),
{
    match (left, right) {
        (Some(l), Some(r)) => Some(
            if r > l {
                r
            } else {
                l
            },
        ),
        (None, _) => right,
        (_, None) => left,
    }
}

/// The latest stage timestamp a node reported.
pub open spec fn last_stage(stages: StagesModel) -> Option<i64> {
    later(
        later(
            later(
                later(
                    later(
                        later(opt_ms(stages.contribution_start), opt_ms(stages.emulation_start)),
                        opt_ms(stages.emulation_end),
                    ),
                    opt_ms(stages.witgen_start),
                ),
                opt_ms(stages.witgen_end),
            ),
            opt_ms(stages.prove_start),
        ),
        opt_ms(stages.prove_end),
    )
}

/// The latest stage timestamp a node reported, the last-resort cap when no end time is known.
pub fn max_stage_ms(stages: &WorkerStages) -> (max: Option<i64>)
    ensures
        max == last_stage(stages.deep_view()),
{
    let max: Option<i64> = max_of(ms(stages.contribution_start), ms(stages.emulation_start));
    let max: Option<i64> = max_of(max, ms(stages.emulation_end));
    let max: Option<i64> = max_of(max, ms(stages.witgen_start));
    let max: Option<i64> = max_of(max, ms(stages.witgen_end));
    let max: Option<i64> = max_of(max, ms(stages.prove_start));
    max_of(max, ms(stages.prove_end))
}

/// The node's own end of an incomplete job. A crash wins over a cancellation and stands at the
/// node's freeze, or at its latest stage.
pub open spec fn own_end(stages: StagesModel) -> Option<NodeEnd> {
    if stages.crashed {
        match or(opt_ms(stages.last_activity), last_stage(stages)) {
            Some(at_ms) => Some(NodeEnd { at_ms, kind: NodeEndKind::Crashed }),
            None => None,
        }
    } else {
        match opt_ms(stages.cancelled_at) {
            Some(at_ms) => Some(NodeEnd { at_ms, kind: NodeEndKind::Cancelled }),
            None => None,
        }
    }
}

/// The node's own end of an incomplete job from its worker stages, preferred over the coordinator's
/// later, single-node view. A crash wins over a cancellation, so a node told to stop that then died
/// anyway in the same job is reported as crashed at its freeze, the last line it emitted before
/// going silent, rather than hidden behind the earlier cancellation. A node whose process did not
/// restart but that logged its own cancellation ended there. A node the worker log shows neither
/// cancelling nor crashing yields None, leaving the coordinator end or no end at all.
pub fn worker_node_end(stages: &WorkerStages) -> (end: Option<NodeEnd>)
    ensures
        end == own_end(stages.deep_view()),
{
    if stages.crashed {
        match ms(stages.last_activity) {
            Some(at_ms) => Some(NodeEnd { at_ms, kind: NodeEndKind::Crashed }),
            None => match max_stage_ms(stages) {
                Some(at_ms) => Some(NodeEnd { at_ms, kind: NodeEndKind::Crashed }),
                None => None,
            },
        }
    } else {
        match ms(stages.cancelled_at) {
            Some(at_ms) => Some(NodeEnd { at_ms, kind: NodeEndKind::Cancelled }),
            None => None,
        }
    }
}

/// Two bounds as an ordered window when both are present and ordered.
pub open spec fn paired_bounds(start: Option<i64>, end: Option<i64>) -> Option<(i64, i64)> {
    match (start, end) {
        (Some(start), Some(end)) => if end >= start {
            Some((start, end))
        } else {
            None
        },
        _ => None,
    }
}

/// Combines two optional epoch bounds into an ordered window when both are present and ordered.
pub fn pair(start: Option<i64>, end: Option<i64>) -> (window: Option<(i64, i64)>)
    ensures
        window == paired_bounds(start, end),
{
    match (start, end) {
        (Some(start), Some(end)) => if end >= start {
            Some((start, end))
        } else {
            None
        },
        _ => None,
    }
}

/// The cluster aggregate window, from the aggregator worker log with a coordinator phase3 fallback.
pub open spec fn aggregate_of(raw: JobModel, agg: Option<AggModel>) -> Option<(i64, i64)> {
    match agg {
        Some(agg) => paired_bounds(
            opt_ms(or(or(agg.t_start, agg.t_first_step), raw.t_p3_start)),
            opt_ms(or(agg.t_end, raw.t_p3_end)),
        ),
        None => paired_bounds(opt_ms(raw.t_p3_start), opt_ms(raw.t_p3_end)),
    }
}

fn either(first: Option<Ts>, second: Option<Ts>) -> (ts: Option<Ts>)
    ensures
        ts.deep_view() == or(first.deep_view(), second.deep_view()),
{
    if first.is_some() {
        first
    } else {
        second
    }
}

/// The cluster aggregate window, from the aggregator worker log with a coordinator phase3 fallback.
pub fn aggregate_window(raw: &RawJob, agg: Option<&AggBounds>) -> (window: Option<(i64, i64)>)
    ensures
        window == aggregate_of(raw.deep_view(), opt_view(agg)),
{
    match agg {
        Some(agg) => pair(
            ms(either(either(agg.t_start, agg.t_first_step), raw.t_p3_start)),
            ms(either(agg.t_end, raw.t_p3_end)),
        ),
        None => pair(ms(raw.t_p3_start), ms(raw.t_p3_end)),
    }
}

/// A phase window clipped to a cap. A finite cap ends an unfinished phase, the sentinel i64::MAX of
/// a clean job requires both bounds. An empty window is absent.
pub open spec fn clipped(start: Option<i64>, end: Option<i64>, cap: i64) -> Option<(i64, i64)> {
    match start {
        None => None,
        Some(start) => {
            let end = match end {
                Some(end) => Some(
                    if end < cap {
                        end
                    } else {
                        cap
                    },
                ),
                None => if cap != i64::MAX {
                    Some(cap)
                } else {
                    None
                },
            };
            match end {
                Some(end) => if end > start {
                    Some((start, end))
                } else {
                    None
                },
                None => None,
            }
        },
    }
}

fn window(start: Option<i64>, end: Option<i64>, cap: i64) -> (window: Option<(i64, i64)>)
    ensures
        window == clipped(start, end, cap),
{
    match start {
        None => None,
        Some(start) => {
            let end: i64 = match end {
                Some(end) => if end < cap {
                    end
                } else {
                    cap
                },
                None => if cap != i64::MAX {
                    cap
                } else {
                    return None;
                },
            };
            if end > start {
                Some((start, end))
            } else {
                None
            }
        },
    }
}

/// The preset phase windows of a node: input transfer, emulation, witgen, prove, and aggregate.
pub open spec fn windows_of(
    stages: Option<StagesModel>,
    cap: i64,
    job_start: Option<i64>,
    aggregate: Option<(i64, i64)>,
) -> Seq<Option<(i64, i64)>> {
    let aggregate = match aggregate {
        Some((start, end)) => clipped(Some(start), Some(end), cap),
        None => None,
    };
    match stages {
        Some(s) => seq![
            clipped(job_start, opt_ms(s.contribution_start), cap),
            clipped(opt_ms(s.emulation_start), opt_ms(s.emulation_end), cap),
            clipped(opt_ms(s.witgen_start), opt_ms(s.witgen_end), cap),
            clipped(opt_ms(s.prove_start), opt_ms(s.prove_end), cap),
            aggregate,
        ],
        None => seq![None, None, None, None, aggregate],
    }
}

/// Builds a node's preset phase windows from its stage markers, clipped to a cap. A finite cap
/// clips an unfinished phase that has a start but no end, while the sentinel i64::MAX of a clean
/// job requires both bounds so a missing marker leaves the phase absent. The input-transfer window
/// runs from the coordinator job start to the node's Starting Partial Contribution. The aggregate
/// window, present only on the aggregator, is likewise clipped.
pub fn stage_windows(
    stages: Option<&WorkerStages>,
    cap: i64,
    job_start: Option<i64>,
    aggregate: Option<(i64, i64)>,
) -> (phases: Vec<Option<(i64, i64)>>)
    ensures
        phases@ == windows_of(opt_view(stages), cap, job_start, aggregate),
        phases@.len() == PHASE_COUNT,
{
    let mut phases: Vec<Option<(i64, i64)>> = Vec::new();
    match stages {
        Some(s) => {
            phases.push(window(job_start, ms(s.contribution_start), cap));
            phases.push(window(ms(s.emulation_start), ms(s.emulation_end), cap));
            phases.push(window(ms(s.witgen_start), ms(s.witgen_end), cap));
            phases.push(window(ms(s.prove_start), ms(s.prove_end), cap));
        },
        None => {
            phases.push(None);
            phases.push(None);
            phases.push(None);
            phases.push(None);
        },
    }
    match aggregate {
        Some((start, end)) => phases.push(window(Some(start), Some(end), cap)),
        None => phases.push(None),
    }
    assert(phases@ =~= windows_of(opt_view(stages), cap, job_start, aggregate));
    phases
}

/// The set of workers that a list of node ends names.
pub open spec fn end_workers(ends: Seq<(Seq<char>, int, NodeEndKind)>) -> Set<Seq<char>> {
    ends.map_values(|end: (Seq<char>, int, NodeEndKind)| end.0).to_set()
}

/// The set of at most one text.
pub open spec fn opt_set(text: Option<Seq<char>>) -> Set<Seq<char>> {
    match text {
        Some(text) => Set::empty().insert(text),
        None => Set::empty(),
    }
}

/// The nodes that took part in a job: those of the worker stages, of the coordinator phase events,
/// the aggregator, and those of the crash and cancel lines.
pub open spec fn participant_set(
    raw: JobModel,
    stages: Option<Map<Seq<char>, StagesModel>>,
) -> Set<Seq<char>> {
    opt_keys(stages).union(raw.p1.to_set()).union(raw.p2.to_set()).union(
        opt_set(raw.aggregator),
    ).union(end_workers(raw.node_ends))
}

fn extend_ends(set: &mut TextSet, ends: &Vec<(String, Ts, NodeEndKind)>)
    ensures
        final(set)@ == old(set)@.union(end_workers(ends.deep_view())),
{
    let ghost before = set@;
    let ghost all = ends.deep_view().map_values(|end: (Seq<char>, int, NodeEndKind)| end.0);
    assert(before.union(all.take(0).to_set()) =~= before);
    for i in 0..ends.len()
        invariant
            all == ends.deep_view().map_values(|end: (Seq<char>, int, NodeEndKind)| end.0),
            set@ == before.union(all.take(i as int).to_set()),
    {
        let worker: Vec<char> = to_chars(ends[i].0.as_str());
        set.insert(worker.as_slice());
        proof {
            assert(all[i as int] == worker@);
            let (less, more) = (all.take(i as int), all.take(i + 1));
            assert(more =~= less.push(worker@));
            assert forall|other: Seq<char>| more.to_set().contains(other) <==> less.to_set().insert(
                worker@,
            ).contains(other) by {
                if less.contains(other) {
                    let k = choose|k: int| 0 <= k < less.len() && less[k] == other;
                    assert(more[k] == other);
                }
                assert(more[i as int] == worker@);
            }
            assert(set@ =~= before.union(more.to_set()));
        }
    }
    assert(all.take(all.len() as int) =~= all);
}

fn participant_nodes(raw: &RawJob, stages: Option<&JobStages>) -> (set: TextSet)
    ensures
        set@ == participant_set(raw.deep_view(), opt_view(stages)),
{
    let mut set: TextSet = TextSet::new();
    match stages {
        Some(stages) => set.extend_keys(stages),
        None => {},
    }
    assert(set@ =~= opt_keys(opt_view(stages)));
    set.extend(&raw.p1);
    set.extend(&raw.p2);
    let ghost before = set@;
    match &raw.aggregator {
        Some(agg) => set.insert(to_chars(agg.as_str()).as_slice()),
        None => {},
    }
    assert(set@ =~= before.union(opt_set(raw.deep_view().aggregator)));
    extend_ends(&mut set, &raw.node_ends);
    set
}

/// The node ids that took part in a job, the union of every source that names a worker, so a node
/// missing from the worker stages, coordinator phase events, and crash and cancel lines alike did
/// not work the job.
pub fn participants(raw: &RawJob, stages: Option<&JobStages>) -> (ids: Vec<String>)
    ensures
        ids.deep_view() == sorted_members(participant_set(raw.deep_view(), opt_view(stages))),
{
    participant_nodes(raw, stages).to_texts()
}

/// Where the coordinator first saw a worker's part end.
pub open spec fn first_end(ends: Seq<(Seq<char>, int, NodeEndKind)>, id: Seq<char>) -> Option<
    NodeEnd,
>
    decreases ends.len(),
{
    if ends.len() == 0 {
        None
    } else if ends[0].0 == id {
        Some(NodeEnd { at_ms: ms_of(ends[0].1), kind: ends[0].2 })
    } else {
        first_end(ends.skip(1), id)
    }
}

fn coordinator_end(ends: &Vec<(String, Ts, NodeEndKind)>, id: &[char]) -> (end: Option<NodeEnd>)
    ensures
        end == first_end(ends.deep_view(), id@),
{
    let ghost all = ends.deep_view();
    assert(all.skip(0) =~= all);
    for i in 0..ends.len()
        invariant
            all == ends.deep_view(),
            first_end(all, id@) == first_end(all.skip(i as int), id@),
    {
        let worker: Vec<char> = to_chars(ends[i].0.as_str());
        assert(all.skip(i as int)[0] == ends@[i as int].deep_view());
        assert(all.skip(i as int).skip(1) =~= all.skip(i + 1));
        if same(worker.as_slice(), id) {
            return Some(NodeEnd { at_ms: ends[i].1.epoch_ms(), kind: ends[i].2 });
        }
    }
    None
}

/// Where a node's part in a job ended. The worker log is authoritative, and the coordinator's view
/// stands in for a node that it does not cover.
pub open spec fn node_end_of(
    raw: JobModel,
    stages: Option<Map<Seq<char>, StagesModel>>,
    id: Seq<char>,
) -> Option<NodeEnd> {
    let own = match opt_at(stages, id) {
        Some(stage) => own_end(stage),
        None => None,
    };
    or(own, first_end(raw.node_ends, id))
}

/// Where a node's windows are clipped. A clean job is never clipped. An incomplete one is clipped
/// to the node's end, then to its own latest stage, then to the job's end.
pub open spec fn cap_of(
    raw: JobModel,
    stages: Option<Map<Seq<char>, StagesModel>>,
    id: Seq<char>,
) -> Option<i64> {
    if raw.status == LogStatus::Success {
        Some(i64::MAX)
    } else {
        match node_end_of(raw, stages, id) {
            Some(end) => Some(end.at_ms),
            None => match opt_at(stages, id) {
                Some(stage) => or(last_stage(stage), opt_ms(raw.t_end)),
                None => opt_ms(raw.t_end),
            },
        }
    }
}

/// The record of one node, absent where nothing clips an incomplete job's windows and where the
/// node has no window, no item, and no end.
pub open spec fn node_of(
    raw: JobModel,
    agg: Option<AggModel>,
    stages: Option<Map<Seq<char>, StagesModel>>,
    items: Option<Map<Seq<char>, Seq<ItemModel>>>,
    id: Seq<char>,
) -> Option<NodeModel> {
    match cap_of(raw, stages, id) {
        None => None,
        Some(cap) => {
            let aggregate = if raw.aggregator == Some(id) {
                aggregate_of(raw, agg)
            } else {
                None
            };
            let phases = windows_of(opt_at(stages, id), cap, opt_ms(raw.t_start), aggregate);
            let items = match opt_at(items, id) {
                Some(items) => items,
                None => seq![],
            };
            let end = node_end_of(raw, stages, id);
            if no_window(phases) && end is None && items.len() == 0 {
                None
            } else {
                Some(NodeModel { id, phases, items, end })
            }
        },
    }
}

/// The nodes that any source names for a job.
pub open spec fn node_ids(
    raw: JobModel,
    stages: Option<Map<Seq<char>, StagesModel>>,
    items: Option<Map<Seq<char>, Seq<ItemModel>>>,
) -> Set<Seq<char>> {
    participant_set(raw, stages).union(opt_keys(items))
}

/// The records of the first `count` nodes of a list.
pub open spec fn nodes_upto(
    raw: JobModel,
    agg: Option<AggModel>,
    stages: Option<Map<Seq<char>, StagesModel>>,
    items: Option<Map<Seq<char>, Seq<ItemModel>>>,
    ids: Seq<Seq<char>>,
    count: int,
) -> Seq<NodeModel>
    decreases count,
{
    if count <= 0 {
        seq![]
    } else {
        let before = nodes_upto(raw, agg, stages, items, ids, count - 1);
        match node_of(raw, agg, stages, items, ids[count - 1]) {
            Some(node) => before.push(node),
            None => before,
        }
    }
}

/// The per-node records of a job, in the order of their ids.
pub open spec fn nodes_of(
    raw: JobModel,
    agg: Option<AggModel>,
    stages: Option<Map<Seq<char>, StagesModel>>,
    items: Option<Map<Seq<char>, Seq<ItemModel>>>,
) -> Seq<NodeModel> {
    let ids = sorted_members(node_ids(raw, stages, items));
    nodes_upto(raw, agg, stages, items, ids, ids.len() as int)
}

fn build_node(
    raw: &RawJob,
    aggregate: Option<(i64, i64)>,
    stages: Option<&JobStages>,
    items: Option<&JobPipelines>,
    id: &[char],
    agg: Ghost<Option<AggModel>>,
) -> (node: Option<LogNode>)
    requires
        aggregate == aggregate_of(raw.deep_view(), agg@),
    ensures
        node.deep_view() == node_of(raw.deep_view(), agg@, opt_view(stages), opt_view(items), id@),
{
    let stage: Option<&WorkerStages> = match stages {
        Some(stages) => stages.get(id),
        None => None,
    };
    assert(opt_view(stage) == opt_at(opt_view(stages), id@));
    // The worker log is authoritative for how this node ended, the freeze a crash left or the
    // node's own cancellation. The coordinator end, late and naming only one crasher, is the
    // fallback for a node the worker log does not cover.
    let own: Option<NodeEnd> = match stage {
        Some(stage) => worker_node_end(stage),
        None => None,
    };
    let end: Option<NodeEnd> = if own.is_some() {
        own
    } else {
        coordinator_end(&raw.node_ends, id)
    };
    // A clean job's windows are never clipped, signalled by the i64::MAX cap. An incomplete one
    // clips to the node end, then to the node's own last marker so a timeout or torn-down node ends
    // where it stalled rather than at the job's terminal time, and only then to the job's end.
    let cap: i64 = if raw.status == LogStatus::Success {
        i64::MAX
    } else {
        let last: Option<i64> = match stage {
            Some(stage) => max_stage_ms(stage),
            None => None,
        };
        match (end, last, ms(raw.t_end)) {
            (Some(end), _, _) => end.at_ms,
            (None, Some(last), _) => last,
            (None, None, Some(end)) => end,
            (None, None, None) => {
                return None;
            },
        }
    };
    let is_agg: bool = match &raw.aggregator {
        Some(aggregator) => same(to_chars(aggregator.as_str()).as_slice(), id),
        None => false,
    };
    let own_aggregate: Option<(i64, i64)> = if is_agg {
        aggregate
    } else {
        None
    };
    let phases: Vec<Option<(i64, i64)>> = stage_windows(stage, cap, ms(raw.t_start), own_aggregate);
    let node_items: Vec<PipelineItem> = match items {
        Some(items) => match items.get(id) {
            Some(items) => copy_items(items),
            None => Vec::new(),
        },
        None => Vec::new(),
    };
    assert(node_items.deep_view() =~= match opt_at(opt_view(items), id@) {
        Some(items) => items,
        None => seq![],
    });
    if all_none(&phases) && end.is_none() && node_items.len() == 0 {
        return None;
    }
    Some(LogNode { id: to_text(id), phases, items: node_items, end })
}

/// Builds per-node records from the worker sub-phase markers, the aggregator additionally carrying
/// the cluster aggregate window. A clean job does not clip its windows, while an incomplete one
/// clips its unfinished phase to the node's crash or cancel moment, the job's terminal time, or its
/// last marker. The fine pipeline items pass through unclipped, a dangling item keeping its open
/// end. A node with no window, no items, and no end marker is dropped.
pub fn build_nodes(
    raw: &RawJob,
    agg: Option<&AggBounds>,
    stages: Option<&JobStages>,
    items: Option<&JobPipelines>,
) -> (nodes: Vec<LogNode>)
    ensures
        nodes.deep_view() == nodes_of(
            raw.deep_view(),
            opt_view(agg),
            opt_view(stages),
            opt_view(items),
        ),
{
    let aggregate: Option<(i64, i64)> = aggregate_window(raw, agg);
    let mut ids: TextSet = participant_nodes(raw, stages);
    let ghost before = ids@;
    match items {
        Some(items) => ids.extend_keys(items),
        None => {},
    }
    assert(ids@ =~= before.union(opt_keys(opt_view(items))));
    let len: usize = ids.len();
    let ghost all = sorted_members(ids@);
    let mut nodes: Vec<LogNode> = Vec::new();
    assert(nodes.deep_view() =~= seq![]);
    for i in 0..len
        invariant
            aggregate == aggregate_of(raw.deep_view(), opt_view(agg)),
            all == sorted_members(ids@),
            len == all.len(),
            nodes.deep_view() == nodes_upto(
                raw.deep_view(),
                opt_view(agg),
                opt_view(stages),
                opt_view(items),
                all,
                i as int,
            ),
    {
        let ghost before = nodes.deep_view();
        match build_node(raw, aggregate, stages, items, ids.at(i), Ghost(opt_view(agg))) {
            Some(node) => {
                nodes.push(node);
                assert(nodes.deep_view() =~= before.push(node.deep_view()));
            },
            None => {},
        }
    }
    nodes
}

/// The present scalars of a job by their output field name.
pub open spec fn meta_of(raw: JobModel) -> Seq<(Seq<char>, u64)> {
    opt_entry("input_size"@, raw.input_bytes) + opt_entry("instances"@, raw.instances) + opt_entry(
        "steps"@,
        raw.steps,
    )
}

/// The generic log of a parsed zisk job.
pub open spec fn log_of(
    raw: JobModel,
    agg: Option<AggModel>,
    stages: Option<Map<Seq<char>, StagesModel>>,
    items: Option<Map<Seq<char>, Seq<ItemModel>>>,
) -> LogModel {
    LogModel {
        id: raw.id,
        status: raw.status,
        t_start: raw.t_start,
        t_end: raw.t_end,
        duration_s: raw.duration_s,
        meta: meta_of(raw),
        nodes: nodes_of(raw, agg, stages, items),
        participants: sorted_members(participant_set(raw, stages)),
    }
}

/// Builds the generic log for one parsed zisk job.
pub fn build_log(
    raw: &RawJob,
    agg: Option<&AggBounds>,
    stages: Option<&JobStages>,
    items: Option<&JobPipelines>,
) -> (log: Log)
    ensures
        log.deep_view() == log_of(
            raw.deep_view(),
            opt_view(agg),
            opt_view(stages),
            opt_view(items),
        ),
{
    let mut meta: Vec<(String, u64)> = Vec::new();
    assert(meta.deep_view() =~= seq![]);
    push_entry(&mut meta, "input_size", raw.input_bytes);
    push_entry(&mut meta, "instances", raw.instances);
    push_entry(&mut meta, "steps", raw.steps);
    assert(meta.deep_view() =~= meta_of(raw.deep_view()));
    Log {
        id: raw.id.clone(),
        status: raw.status,
        t_start: raw.t_start,
        t_end: raw.t_end,
        duration_s: copy_reading(&raw.duration_s),
        meta,
        nodes: build_nodes(raw, agg, stages, items),
        participants: participants(raw, stages),
    }
}

} // verus!
