//! Translates parsed openvm jobs into the generic model, building each node's phase windows from
//! its worker lines and the manager's input fan-out lines.
//!
//! Execution spans the node's earliest parallel-coordinator announcement to its latest segment
//! send, the full executor span every prover runs while metering segments and dispatching them for
//! proving. It overlaps the segment and recursion phases, which are the envelopes of their kinds'
//! completed items on each node, because the executor meters segments while they prove and
//! recursion consumes segments as they complete. The wrap slot holds the final wrap envelope on the
//! one node that proved it, which preserves the aggregator convention of the final slot being
//! non-null on a single node. Input transfer runs from the manager-clock fan-out start to the
//! node's last worker-clock input-file-written time, both kept in microseconds so a sub-millisecond
//! fan-out still measures, and so it abuts the node's execution. Its span therefore crosses the two
//! clocks, as the worker-clock windows do against the manager-clock block start, and is only as
//! aligned as the cluster's NTP.

use vstd::prelude::*;

use crate::log::{
    whole_units, ItemModel, Log, LogModel, LogNode, MetaModel, NodeModel, PipelineDef, PipelineItem,
    SubPhaseDef,
};
use crate::openvm::coordinator::{JobModel, RawJob};
use crate::text::{to_chars, to_text};
use crate::text_map::{sorted_members, TextMap, TextSet};
use crate::zkvm::{
    all_none, copy_reading, no_window, opt_at, opt_entry, opt_keys, opt_view, push_entry,
};

verus! {

/// The number of phases in the openvm preset.
pub const PHASE_COUNT: usize = 5;

/// The pipeline kind indices, the single source both the wire template and the worker parser use
/// so the two cannot drift.
pub const EXECUTION: usize = 0;

pub const FASTFWD: usize = 1;

pub const APP_SEGMENT: usize = 2;

pub const LEAF: usize = 3;

pub const INTERNAL: usize = 4;

pub const WRAP: usize = 5;

/// The number of pipeline kinds.
pub const KIND_COUNT: usize = 6;

/// The ordered kind template: name, label, phase, and whether the kind is paired. No openvm kind is
/// paired because every item is one self-contained span, the work items from their completion
/// lines, execution derived per sent segment, and fast-forward taken from each segment's proof
/// line. Fast-forward is the prover's re-execution of a segment before its proof, so it shares the
/// metered execution phase.
pub open spec fn kind_template() -> Seq<(Seq<char>, Seq<char>, Seq<char>, bool)> {
    seq![
        ("execution"@, "Metered Execution"@, "metered_execution"@, false),
        ("fastfwd"@, "Fast Forward"@, "metered_execution"@, false),
        ("app_segment"@, "Segment"@, "segment"@, false),
        ("leaf"@, "Recursion"@, "recursion"@, false),
        ("internal"@, "Internal Aggregation"@, "recursion"@, false),
        ("wrap"@, "Wrap"@, "wrap"@, false),
    ]
}

fn kind_def(name: &str, label: &str, phase: &str) -> (def: PipelineDef)
    ensures
        def.deep_view() == (name@, label@, phase@, false),
{
    PipelineDef {
        name: name.to_string(),
        label: label.to_string(),
        phase: phase.to_string(),
        paired: false,
    }
}

/// Returns the ordered openvm fine-pipeline template.
pub fn openvm_pipeline() -> (template: Vec<PipelineDef>)
    ensures
        template.deep_view() == kind_template(),
{
    let mut template: Vec<PipelineDef> = Vec::new();
    template.push(kind_def("execution", "Metered Execution", "metered_execution"));
    template.push(kind_def("fastfwd", "Fast Forward", "metered_execution"));
    template.push(kind_def("app_segment", "Segment", "segment"));
    template.push(kind_def("leaf", "Recursion", "recursion"));
    template.push(kind_def("internal", "Internal Aggregation", "recursion"));
    template.push(kind_def("wrap", "Wrap", "wrap"));
    assert(template.deep_view() =~= kind_template());
    template
}

/// One STARK proving sub-step, its wire name, display label, and the drained-span key it appears
/// under, suffixed _time_ms, on a worker completion line.
#[derive(Clone, Copy)]
pub struct SubStep {
    pub name: &'static str,
    pub label: &'static str,
    pub span_key: &'static str,
}

/// The number of sub-steps.
pub const STEP_COUNT: usize = 7;

/// The seven sub-steps, in template and execution order. The durations partition each item's STARK
/// time up to residuals, so the same set breaks down both the segment and the recursion phase.
pub open spec fn step_row(step: int) -> SubStep {
    if step == 0 {
        SubStep {
            name: "execute_preflight",
            label: "Execute Preflight",
            span_key: "execute_preflight_time_ms",
        }
    } else if step == 1 {
        SubStep { name: "trace_gen", label: "Trace Gen", span_key: "trace_gen_time_ms" }
    } else if step == 2 {
        SubStep {
            name: "main_trace_commit",
            label: "Commit",
            span_key: "prover.main_trace_commit_time_ms",
        }
    } else if step == 3 {
        SubStep {
            name: "logup_gkr",
            label: "LogUp GKR",
            span_key: "prover.rap_constraints.logup_gkr_time_ms",
        }
    } else if step == 4 {
        SubStep {
            name: "round0",
            label: "Sumcheck Univariate Skip",
            span_key: "prover.rap_constraints.round0_time_ms",
        }
    } else if step == 5 {
        SubStep {
            name: "mle_rounds",
            label: "Sumcheck Multilinear Rounds",
            span_key: "prover.rap_constraints.mle_rounds_time_ms",
        }
    } else {
        SubStep { name: "openings", label: "Open", span_key: "prover.openings_time_ms" }
    }
}

/// The sub-step at a place of the template.
pub fn step_at(step: usize) -> (row: SubStep)
    requires
        step < STEP_COUNT,
    ensures
        row == step_row(step as int),
{
    if step == 0 {
        SubStep {
            name: "execute_preflight",
            label: "Execute Preflight",
            span_key: "execute_preflight_time_ms",
        }
    } else if step == 1 {
        SubStep { name: "trace_gen", label: "Trace Gen", span_key: "trace_gen_time_ms" }
    } else if step == 2 {
        SubStep {
            name: "main_trace_commit",
            label: "Commit",
            span_key: "prover.main_trace_commit_time_ms",
        }
    } else if step == 3 {
        SubStep {
            name: "logup_gkr",
            label: "LogUp GKR",
            span_key: "prover.rap_constraints.logup_gkr_time_ms",
        }
    } else if step == 4 {
        SubStep {
            name: "round0",
            label: "Sumcheck Univariate Skip",
            span_key: "prover.rap_constraints.round0_time_ms",
        }
    } else if step == 5 {
        SubStep {
            name: "mle_rounds",
            label: "Sumcheck Multilinear Rounds",
            span_key: "prover.rap_constraints.mle_rounds_time_ms",
        }
    } else {
        SubStep { name: "openings", label: "Open", span_key: "prover.openings_time_ms" }
    }
}

/// The owner index of the segment breakdown, filled by each app segment item.
pub const SEGMENT_OWNER: usize = 0;

/// The owner index of the recursion breakdown, filled by each leaf and internal item, an internal
/// final proof carrying the merged wrap timings.
pub const RECURSION_OWNER: usize = 1;

/// The number of owners.
pub const OWNER_COUNT: usize = 2;

/// The coarse phase that an owner's sub-steps break down. The app segments own the segment phase,
/// and the leaf and internal proofs own the recursion phase.
pub open spec fn owner_phase(owner: int) -> Seq<char> {
    if owner == SEGMENT_OWNER {
        "segment"@
    } else {
        "recursion"@
    }
}

/// The sub-phase at a slot of the template: the seven sub-steps under the segment owner, then the
/// seven under the recursion owner.
pub open spec fn subphase_at(slot: int) -> (Seq<char>, Seq<char>, Seq<char>) {
    let step = step_row(slot % (STEP_COUNT as int));
    (step.name@, step.label@, owner_phase(slot / (STEP_COUNT as int)))
}

fn owner_name(owner: usize) -> (phase: &'static str)
    ensures
        phase@ == owner_phase(owner as int),
{
    if owner == SEGMENT_OWNER {
        "segment"
    } else {
        "recursion"
    }
}

/// Returns the sub-phase template in wire order, the seven sub-steps under the segment owner then
/// the seven under the recursion owner, referenced positionally by each item's spans and each
/// block's sub-phase rows.
pub fn subphase_template() -> (template: Vec<SubPhaseDef>)
    ensures
        template.deep_view() == Seq::new(
            (OWNER_COUNT * STEP_COUNT) as nat,
            |slot: int| subphase_at(slot),
        ),
{
    let mut template: Vec<SubPhaseDef> = Vec::new();
    for slot in 0..OWNER_COUNT * STEP_COUNT
        invariant
            template@.len() == slot,
            forall|i: int|
                0 <= i < slot ==> (#[trigger] template@[i]).deep_view() == subphase_at(i),
    {
        let step: SubStep = step_at(slot % STEP_COUNT);
        template.push(
            SubPhaseDef {
                name: step.name.to_string(),
                label: step.label.to_string(),
                phase: owner_name(slot / STEP_COUNT).to_string(),
            },
        );
    }
    assert(template.deep_view() =~= Seq::new(
        (OWNER_COUNT * STEP_COUNT) as nat,
        |slot: int| subphase_at(slot),
    ));
    template
}

/// The component kind at a slot of the template, mirroring the sub-phase there.
pub open spec fn component_at(slot: int) -> (Seq<char>, Seq<char>, Seq<char>, bool) {
    (subphase_at(slot).0, subphase_at(slot).1, subphase_at(slot).2, false)
}

/// Returns the openvm component pipeline template, the seven STARK sub-steps under the segment
/// owner then under the recursion owner, mirroring the sub-phase template. A run carrying sub-steps
/// appends these to the base template so each sub-step is a first-class pipeline kind the wire rows
/// reference in place of the monolithic segment, leaf, and internal items, its name and owner phase
/// matching a sub-phase so the frontend tints it by that sub-phase rather than the flat phase
/// color.
pub fn openvm_component_pipeline() -> (template: Vec<PipelineDef>)
    ensures
        template.deep_view() == Seq::new(
            (OWNER_COUNT * STEP_COUNT) as nat,
            |slot: int| component_at(slot),
        ),
{
    let mut template: Vec<PipelineDef> = Vec::new();
    for slot in 0..OWNER_COUNT * STEP_COUNT
        invariant
            template@.len() == slot,
            forall|i: int|
                0 <= i < slot ==> (#[trigger] template@[i]).deep_view() == component_at(i),
    {
        let step: SubStep = step_at(slot % STEP_COUNT);
        template.push(kind_def(step.name, step.label, owner_name(slot / STEP_COUNT)));
    }
    assert(template.deep_view() =~= Seq::new(
        (OWNER_COUNT * STEP_COUNT) as nat,
        |slot: int| component_at(slot),
    ));
    template
}

/// The template slots and milliseconds of the first `count` sub-steps that a drained-span map
/// holds, under one owner. Every other key is dropped.
pub open spec fn span_rows(map: Map<Seq<char>, u64>, owner: int, count: int) -> Seq<(u64, u64)>
    decreases count,
{
    if count <= 0 {
        seq![]
    } else {
        let before = span_rows(map, owner, count - 1);
        let key = step_row(count - 1).span_key@;
        if map.dom().contains(key) {
            before.push(((owner * STEP_COUNT + count - 1) as u64, map[key]))
        } else {
            before
        }
    }
}

/// Resolves a drained-span map into the sub-phase template slots of one owner, matching each of the
/// seven sub-step keys and dropping every other key, in template order so the pairs stay sorted by
/// slot. The slot is the owner times the sub-step count plus the step index.
pub fn owner_span_rows(map: &TextMap<u64>, owner: usize) -> (rows: Vec<(u64, u64)>)
    requires
        owner < OWNER_COUNT,
    ensures
        rows@ == span_rows(map@, owner as int, STEP_COUNT as int),
{
    let mut rows: Vec<(u64, u64)> = Vec::new();
    for step in 0..STEP_COUNT
        invariant
            owner < OWNER_COUNT,
            rows@ == span_rows(map@, owner as int, step as int),
    {
        match map.get(to_chars(step_at(step).span_key).as_slice()) {
            Some(ms) => rows.push(((owner * STEP_COUNT + step) as u64, *ms)),
            None => {},
        }
    }
    rows
}

/// The item with a leaf's provisional id, its start segment, turned into the leaf index.
pub open spec fn leaf_indexed(item: ItemModel, leaf_arity: Option<i64>) -> ItemModel {
    if item.kind != LEAF {
        item
    } else {
        let id = match (leaf_arity, item.meta.id) {
            (Some(arity), Some(start)) => if arity > 0 {
                Some(whole_units(start as int, arity as int) as i64)
            } else {
                None
            },
            _ => None,
        };
        ItemModel { meta: MetaModel { id, ..item.meta }, ..item }
    }
}

/// A number divided by another, cut off toward zero.
fn divided(start: i64, arity: i64) -> (index: i64)
    requires
        arity > 0,
    ensures
        index == whole_units(start as int, arity as int),
{
    if start >= 0 {
        assert(start / arity <= start) by (nonlinear_arith)
            requires
                start >= 0,
                arity > 0,
        ;
        start / arity
    } else {
        let positive: i128 = -(start as i128);
        let index: i128 = positive / (arity as i128);
        assert(0 <= index <= positive) by (nonlinear_arith)
            requires
                positive >= 0,
                arity > 0,
                index == positive / (arity as i128),
        ;
        (-index) as i64
    }
}

/// Turns a leaf item's provisional id, its start segment as the worker records it, into the leaf
/// index by dividing by the proof's leaf arity. The id is omitted when the coordinator line
/// carrying the arity was dropped, and every other item passes through unchanged.
pub fn leaf_index(item: PipelineItem, leaf_arity: Option<i64>) -> (indexed: PipelineItem)
    ensures
        indexed.deep_view() == leaf_indexed(item.deep_view(), leaf_arity),
{
    if item.kind != LEAF {
        return item;
    }
    let id: Option<i64> = match (leaf_arity, item.meta.id) {
        (Some(arity), Some(start)) => if arity > 0 {
            Some(divided(start, arity))
        } else {
            None
        },
        _ => None,
    };
    let mut indexed: PipelineItem = item;
    indexed.meta.id = id;
    indexed
}

/// Two bounds as a window when both are present and the end follows the start.
pub open spec fn window_of(start: Option<i64>, end: Option<i64>) -> Option<(i64, i64)> {
    match (start, end) {
        (Some(start), Some(end)) => if end > start {
            Some((start, end))
        } else {
            None
        },
        _ => None,
    }
}

/// Combines two optional epoch-ms bounds into an ordered window when both are present and ordered.
pub fn window(start: Option<i64>, end: Option<i64>) -> (bounds: Option<(i64, i64)>)
    ensures
        bounds == window_of(start, end),
{
    match (start, end) {
        (Some(start), Some(end)) => if end > start {
            Some((start, end))
        } else {
            None
        },
        _ => None,
    }
}

/// The milliseconds of a number of microseconds, cut off toward zero.
pub open spec fn us_to_ms(us: i64) -> i64 {
    whole_units(us as int, 1000) as i64
}

/// The input-transfer window in milliseconds of two bounds in microseconds.
pub open spec fn transfer_window(start_us: Option<i64>, end_us: Option<i64>) -> Option<(i64, i64)> {
    match (start_us, end_us) {
        (Some(start_us), Some(end_us)) => {
            let (start, end) = (us_to_ms(start_us), us_to_ms(end_us));
            Some(
                (
                    start,
                    if end > start {
                        end
                    } else if end_us > start_us {
                        (start + 1) as i64
                    } else {
                        start
                    },
                ),
            )
        },
        _ => None,
    }
}

/// Combines the microsecond fan-out start and the node's last worker write into an input-transfer
/// window in epoch milliseconds, null only when a side is missing. A normal transfer spans whole
/// milliseconds. A sub-millisecond one whose truncated bounds share a millisecond keeps a
/// one-millisecond floor when the microsecond bounds are ordered, so an instantaneous fan-out still
/// renders a band rather than dropping the node. A worker whose write precedes the fan-out start,
/// a node local to the manager, reads as an instantaneous window at the start.
pub fn input_window(start_us: Option<i64>, end_us: Option<i64>) -> (bounds: Option<(i64, i64)>)
    ensures
        bounds == transfer_window(start_us, end_us),
{
    match (start_us, end_us) {
        (Some(start_us), Some(end_us)) => {
            let start: i64 = divided(start_us, 1000);
            let end: i64 = divided(end_us, 1000);
            Some(
                (
                    start,
                    if end > start {
                        end
                    } else if end_us > start_us {
                        start + 1
                    } else {
                        start
                    },
                ),
            )
        },
        _ => None,
    }
}

/// A span widened by a segment that has an end.
pub open spec fn widened(bounds: Option<(i64, i64)>, segment: (i64, Option<i64>)) -> Option<
    (i64, i64),
> {
    match (segment.1, bounds) {
        (None, _) => bounds,
        (Some(end), None) => Some((segment.0, end)),
        (Some(end), Some((s, e))) => Some(
            (
                if segment.0 < s {
                    segment.0
                } else {
                    s
                },
                if end > e {
                    end
                } else {
                    e
                },
            ),
        ),
    }
}

/// Whether an item is of one of two kinds.
pub open spec fn of_kinds(item: ItemModel, first: usize, second: usize) -> bool {
    item.kind == first || item.kind == second
}

/// The envelope of those of the first `count` items that are of one of two kinds.
pub open spec fn envelope_of(
    items: Seq<ItemModel>,
    first: usize,
    second: usize,
    count: int,
) -> Option<(i64, i64)>
    decreases count,
{
    if count <= 0 {
        None
    } else {
        let before = envelope_of(items, first, second, count - 1);
        let item = items[count - 1];
        if of_kinds(item, first, second) {
            let once = widened(before, item.first);
            match item.second {
                Some(segment) => widened(once, segment),
                None => once,
            }
        } else {
            before
        }
    }
}

fn widen(bounds: Option<(i64, i64)>, segment: (i64, Option<i64>)) -> (wider: Option<(i64, i64)>)
    ensures
        wider == widened(bounds, segment),
{
    match (segment.1, bounds) {
        (None, _) => bounds,
        (Some(end), None) => Some((segment.0, end)),
        (Some(end), Some((s, e))) => Some(
            (
                if segment.0 < s {
                    segment.0
                } else {
                    s
                },
                if end > e {
                    end
                } else {
                    e
                },
            ),
        ),
    }
}

/// The envelope of the node's items of either kind, from the earliest segment start to the latest
/// segment end.
pub fn envelope(items: &Vec<PipelineItem>, first: usize, second: usize) -> (bounds: Option<
    (i64, i64),
>)
    ensures
        bounds == envelope_of(items.deep_view(), first, second, items@.len() as int),
{
    let mut bounds: Option<(i64, i64)> = None;
    for i in 0..items.len()
        invariant
            bounds == envelope_of(items.deep_view(), first, second, i as int),
    {
        let item: &PipelineItem = &items[i];
        assert(items.deep_view()[i as int] == item.deep_view());
        if item.kind == first || item.kind == second {
            bounds = widen(bounds, item.first);
            match item.second {
                Some(segment) => {
                    bounds = widen(bounds, segment);
                },
                None => {},
            }
        }
    }
    bounds
}

/// Pipeline items for every node on a proof, keyed by node id.
pub type JobItems = TextMap<Vec<PipelineItem>>;

/// The earliest parallel-coordinator epoch-ms timestamp for every node on a proof, keyed by node
/// id.
pub type JobAnnouncements = TextMap<i64>;

/// The latest segment-send epoch-ms timestamp for every node on a proof, keyed by node id, closing
/// the node's execution window.
pub type JobSends = TextMap<i64>;

/// The latest input-file-written epoch-microsecond timestamp for every node on a proof, keyed by
/// node id. Microsecond precision keeps a sub-millisecond input transfer from collapsing against
/// the fan-out start.
pub type JobWrites = TextMap<i64>;

/// What the worker logs say of one proof, by node.
#[verifier::ext_equal]
pub struct JobWork {
    pub items: Option<Map<Seq<char>, Seq<ItemModel>>>,
    pub announcements: Option<Map<Seq<char>, i64>>,
    pub writes: Option<Map<Seq<char>, i64>>,
    pub sends: Option<Map<Seq<char>, i64>>,
}

/// A node's items with its leaves indexed.
pub open spec fn node_items(raw: JobModel, work: JobWork, id: Seq<char>) -> Seq<ItemModel> {
    match opt_at(work.items, id) {
        Some(items) => items.map_values(|item: ItemModel| leaf_indexed(item, raw.leaf_arity)),
        None => seq![],
    }
}

/// The preset phase windows of a node: input transfer, execution, segment, recursion, and wrap.
pub open spec fn node_windows(raw: JobModel, work: JobWork, id: Seq<char>) -> Seq<
    Option<(i64, i64)>,
> {
    let items = node_items(raw, work, id);
    let len = items.len() as int;
    seq![
        transfer_window(raw.fanout_start_us, opt_at(work.writes, id)),
        window_of(opt_at(work.announcements, id), opt_at(work.sends, id)),
        envelope_of(items, APP_SEGMENT, APP_SEGMENT, len),
        envelope_of(items, LEAF, INTERNAL, len),
        envelope_of(items, WRAP, WRAP, len),
    ]
}

/// The record of one node, absent where it has no window and no item.
pub open spec fn node_of(raw: JobModel, work: JobWork, id: Seq<char>) -> Option<NodeModel> {
    let phases = node_windows(raw, work, id);
    let items = node_items(raw, work, id);
    if no_window(phases) && items.len() == 0 {
        None
    } else {
        Some(NodeModel { id, phases, items, end: None })
    }
}

/// The records of the first `count` nodes of a list.
pub open spec fn nodes_upto(raw: JobModel, work: JobWork, ids: Seq<Seq<char>>, count: int) -> Seq<
    NodeModel,
>
    decreases count,
{
    if count <= 0 {
        seq![]
    } else {
        let before = nodes_upto(raw, work, ids, count - 1);
        match node_of(raw, work, ids[count - 1]) {
            Some(node) => before.push(node),
            None => before,
        }
    }
}

/// The per-node records of a job, in the order of their ids.
pub open spec fn nodes_of(raw: JobModel, work: JobWork) -> Seq<NodeModel> {
    let ids = sorted_members(opt_keys(work.items).union(opt_keys(work.writes)));
    nodes_upto(raw, work, ids, ids.len() as int)
}

/// The generic log of a parsed openvm job. The nodes with a record are those that took part.
pub open spec fn log_of(raw: JobModel, work: JobWork) -> LogModel {
    LogModel {
        id: raw.id,
        status: raw.status,
        t_start: raw.t_start,
        t_end: raw.t_end,
        duration_s: raw.duration_s,
        meta: opt_entry("input_size"@, raw.input_bytes) + opt_entry(
            "segments"@,
            raw.num_segments,
        ),
        nodes: nodes_of(raw, work),
        participants: nodes_of(raw, work).map_values(|node: NodeModel| node.id),
    }
}

/// What the worker logs say of one proof, by the values it holds.
pub open spec fn work_of(
    items: Option<&JobItems>,
    announcements: Option<&JobAnnouncements>,
    writes: Option<&JobWrites>,
    sends: Option<&JobSends>,
) -> JobWork {
    JobWork {
        items: opt_view(items),
        announcements: opt_view(announcements),
        writes: opt_view(writes),
        sends: opt_view(sends),
    }
}

fn value_of(map: Option<&TextMap<i64>>, id: &[char]) -> (value: Option<i64>)
    ensures
        value == opt_at(opt_view(map), id@),
{
    match map {
        Some(map) => match map.get(id) {
            Some(value) => Some(*value),
            None => None,
        },
        None => None,
    }
}

fn indexed_items(items: Option<&JobItems>, leaf_arity: Option<i64>, id: &[char]) -> (indexed: Vec<
    PipelineItem,
>)
    ensures
        indexed.deep_view() == match opt_at(opt_view(items), id@) {
            Some(items) => items.map_values(|item: ItemModel| leaf_indexed(item, leaf_arity)),
            None => seq![],
        },
{
    let mut indexed: Vec<PipelineItem> = Vec::new();
    match items {
        Some(items) => match items.get(id) {
            Some(items) => {
                for i in 0..items.len()
                    invariant
                        indexed@.len() == i,
                        forall|k: int|
                            0 <= k < i ==> (#[trigger] indexed@[k]).deep_view() == leaf_indexed(
                                items@[k].deep_view(),
                                leaf_arity,
                            ),
                {
                    indexed.push(leaf_index(items[i].copy(), leaf_arity));
                }
                assert(indexed.deep_view() =~= items.deep_view().map_values(
                    |item: ItemModel| leaf_indexed(item, leaf_arity),
                ));
            },
            None => {
                assert(indexed.deep_view() =~= seq![]);
            },
        },
        None => {
            assert(indexed.deep_view() =~= seq![]);
        },
    }
    indexed
}

/// Builds per-node records from the node's items, its coordinator announcements, and its
/// input-file-written times. A node with no window and no items is dropped. The openvm records are
/// completion lines only, so there is no crash reconstruction and no node end marker.
pub fn build_nodes(
    raw: &RawJob,
    items: Option<&JobItems>,
    announcements: Option<&JobAnnouncements>,
    writes: Option<&JobWrites>,
    sends: Option<&JobSends>,
) -> (nodes: Vec<LogNode>)
    ensures
        nodes.deep_view() == nodes_of(
            raw.deep_view(),
            work_of(items, announcements, writes, sends),
        ),
{
    let ghost work = work_of(items, announcements, writes, sends);
    let ghost model = raw.deep_view();
    let mut ids: TextSet = TextSet::new();
    match items {
        Some(items) => ids.extend_keys(items),
        None => {},
    }
    match writes {
        Some(writes) => ids.extend_keys(writes),
        None => {},
    }
    assert(ids@ =~= opt_keys(work.items).union(opt_keys(work.writes)));
    let len: usize = ids.len();
    let ghost all = sorted_members(ids@);
    let mut nodes: Vec<LogNode> = Vec::new();
    assert(nodes.deep_view() =~= seq![]);
    for i in 0..len
        invariant
            work == work_of(items, announcements, writes, sends),
            model == raw.deep_view(),
            all == sorted_members(ids@),
            len == all.len(),
            nodes.deep_view() == nodes_upto(model, work, all, i as int),
    {
        let id = ids.at(i);
        let own_items: Vec<PipelineItem> = indexed_items(items, raw.leaf_arity, id);
        let mut phases: Vec<Option<(i64, i64)>> = Vec::new();
        // Input transfer runs from the manager's fan-out start to the node's last
        // input-file-written time among its workers, and stays null when either side is missing.
        phases.push(input_window(raw.fanout_start_us, value_of(writes, id)));
        // Execution runs from the node's earliest parallel-coordinator announcement to its latest
        // segment send, the full executor span that overlaps the segment phase, and stays null when
        // either side is missing.
        phases.push(window(value_of(announcements, id), value_of(sends, id)));
        phases.push(envelope(&own_items, APP_SEGMENT, APP_SEGMENT));
        phases.push(envelope(&own_items, LEAF, INTERNAL));
        phases.push(envelope(&own_items, WRAP, WRAP));
        assert(own_items.deep_view() == node_items(model, work, id@));
        assert(phases@ =~= node_windows(model, work, id@));
        if !(all_none(&phases) && own_items.len() == 0) {
            let ghost before = nodes.deep_view();
            let node = LogNode { id: to_text(id), phases, items: own_items, end: None };
            nodes.push(node);
            assert(nodes.deep_view() =~= before.push(node.deep_view()));
        }
    }
    nodes
}

/// Builds the generic log for one parsed openvm job.
pub fn build_log(
    raw: &RawJob,
    items: Option<&JobItems>,
    announcements: Option<&JobAnnouncements>,
    writes: Option<&JobWrites>,
    sends: Option<&JobSends>,
) -> (log: Log)
    ensures
        log.deep_view() == log_of(raw.deep_view(), work_of(items, announcements, writes, sends)),
{
    let mut meta: Vec<(String, u64)> = Vec::new();
    assert(meta.deep_view() =~= seq![]);
    push_entry(&mut meta, "input_size", raw.input_bytes);
    push_entry(&mut meta, "segments", raw.num_segments);
    let nodes: Vec<LogNode> = build_nodes(raw, items, announcements, writes, sends);
    let mut participants: Vec<String> = Vec::new();
    for i in 0..nodes.len()
        invariant
            participants@.len() == i,
            forall|k: int|
                0 <= k < i ==> (#[trigger] participants@[k]).deep_view() == nodes@[k].id@,
    {
        participants.push(nodes[i].id.clone());
    }
    let log = Log {
        id: raw.id.clone(),
        status: raw.status,
        t_start: raw.t_start,
        t_end: raw.t_end,
        duration_s: copy_reading(&raw.duration_s),
        meta,
        nodes,
        participants,
    };
    proof {
        let expected = log_of(raw.deep_view(), work_of(items, announcements, writes, sends));
        assert(log.meta.deep_view() =~= expected.meta);
        assert(log.participants.deep_view() =~= expected.participants);
    }
    log
}

} // verus!
