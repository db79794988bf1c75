//! What holds of every zisk node's phase windows, its end, and the log it stands in.

use vstd::prelude::*;

use crate::log::{ms_of, ItemModel, LogStatus, NodeEnd, NodeEndKind};
use crate::text_map::{lemma_finite_sorted, sorted_members};
use crate::zisk::coordinator::JobModel;
use crate::zisk::phases::{
    aggregate_of, cap_of, first_end, last_stage, log_of, node_end_of, node_ids, node_of, nodes_of,
    nodes_upto, own_end, participant_set, windows_of,
};
use crate::zisk::worker::{AggModel, StagesModel};
use crate::zkvm::no_window;

verus! {

/// Whether a window spans its own two markers up to a cap. It begins at the start marker and ends at
/// the end marker, or at the cap where that comes first. Without an end marker it ends at the cap, and
/// is absent where nothing caps it. Without a start marker, or with nothing between the bounds, it is
/// absent.
pub open spec fn spans_markers(
    window: Option<(i64, i64)>,
    start: Option<int>,
    end: Option<int>,
    cap: i64,
) -> bool {
    match window {
        Some((from, to)) => {
            &&& start is Some && from == ms_of(start->0)
            &&& from < to <= cap
            &&& end is Some ==> to == ms_of(end->0) || to == cap && cap < ms_of(end->0)
            &&& end is None ==> to == cap && cap < i64::MAX
        },
        None => {
            ||| start is None
            ||| end is None && cap == i64::MAX
            ||| end is Some && ms_of(end->0) <= ms_of(start->0)
            ||| cap <= ms_of(start->0)
        },
    }
}

/// Each phase spans its own markers: input transfer runs from the job's start to the node's
/// contribution start, and emulation, witgen, and prove each from their own start to their own end.
pub proof fn phases_span_their_own_markers(
    stages: StagesModel,
    cap: i64,
    job_start: Option<int>,
    aggregate: Option<(i64, i64)>,
)
    ensures
        ({
            let start = match job_start {
                Some(ns) => Some(ms_of(ns)),
                None => None,
            };
            let windows = windows_of(Some(stages), cap, start, aggregate);
            &&& windows.len() == 5
            &&& spans_markers(windows[0], job_start, stages.contribution_start, cap)
            &&& spans_markers(windows[1], stages.emulation_start, stages.emulation_end, cap)
            &&& spans_markers(windows[2], stages.witgen_start, stages.witgen_end, cap)
            &&& spans_markers(windows[3], stages.prove_start, stages.prove_end, cap)
        }),
{
}

/// The aggregate phase is the aggregate window, cut at the cap.
pub proof fn aggregate_phase_is_the_aggregate_window(
    stages: Option<StagesModel>,
    cap: i64,
    job_start: Option<i64>,
    start: i64,
    end: i64,
)
    ensures
        ({
            let window = windows_of(stages, cap, job_start, Some((start, end)))[4];
            &&& start < end <= cap ==> window == Some((start, end))
            &&& start < cap < end ==> window == Some((start, cap))
            &&& end <= start || cap <= start ==> window is None
        }),
        windows_of(stages, cap, job_start, None)[4] is None,
        stages is None ==> forall|phase: int|
            0 <= phase < 4 ==> (#[trigger] windows_of(stages, cap, job_start, None)[phase]) is None,
{
}

/// Whether a moment is one of the seven stages of a node.
pub open spec fn is_stage(stages: StagesModel, at: i64) -> bool {
    ||| stages.contribution_start is Some && at == ms_of(stages.contribution_start->0)
    ||| stages.emulation_start is Some && at == ms_of(stages.emulation_start->0)
    ||| stages.emulation_end is Some && at == ms_of(stages.emulation_end->0)
    ||| stages.witgen_start is Some && at == ms_of(stages.witgen_start->0)
    ||| stages.witgen_end is Some && at == ms_of(stages.witgen_end->0)
    ||| stages.prove_start is Some && at == ms_of(stages.prove_start->0)
    ||| stages.prove_end is Some && at == ms_of(stages.prove_end->0)
}

/// The latest stage of a node is one of its stages, and none of them is later; there is none only
/// where the node reported no stage.
pub proof fn last_stage_is_the_latest(stages: StagesModel, at: i64)
    ensures
        last_stage(stages) is Some ==> is_stage(stages, last_stage(stages)->0),
        is_stage(stages, at) ==> last_stage(stages) is Some && at <= last_stage(stages)->0,
{
}

/// A node that crashed ended crashed at its last activity, or without one at its latest stage. One
/// that did not crash ended cancelled where it logged its cancellation, and otherwise has no end of
/// its own.
pub proof fn own_end_is_the_freeze_or_the_cancellation(stages: StagesModel)
    ensures
        match own_end(stages) {
            Some(end) => if stages.crashed {
                &&& end.kind == NodeEndKind::Crashed
                &&& stages.last_activity is Some ==> end.at_ms == ms_of(stages.last_activity->0)
                &&& stages.last_activity is None ==> is_stage(stages, end.at_ms) && forall|at: i64|
                    is_stage(stages, at) ==> at <= end.at_ms
            } else {
                &&& end.kind == NodeEndKind::Cancelled
                &&& stages.cancelled_at is Some && end.at_ms == ms_of(stages.cancelled_at->0)
            },
            None => if stages.crashed {
                stages.last_activity is None && forall|at: i64| !is_stage(stages, at)
            } else {
                stages.cancelled_at is None
            },
        },
{
    assert forall|at: i64| is_stage(stages, at) implies last_stage(stages) is Some && at
        <= last_stage(stages)->0 by {
        last_stage_is_the_latest(stages, at);
    }
    last_stage_is_the_latest(stages, 0);
}

proof fn lemma_first_end(ends: Seq<(Seq<char>, int, NodeEndKind)>, id: Seq<char>)
    ensures
        match first_end(ends, id) {
            Some(end) => exists|i: int|
                {
                    &&& 0 <= i < ends.len()
                    &&& (#[trigger] ends[i]).0 == id
                    &&& end == NodeEnd { at_ms: ms_of(ends[i].1), kind: ends[i].2 }
                    &&& forall|j: int| 0 <= j < i ==> (#[trigger] ends[j]).0 != id
                },
            None => forall|i: int| 0 <= i < ends.len() ==> (#[trigger] ends[i]).0 != id,
        },
    decreases ends.len(),
{
    if ends.len() > 0 && ends[0].0 != id {
        let rest = ends.skip(1);
        lemma_first_end(rest, id);
        match first_end(rest, id) {
            Some(end) => {
                let i = choose|i: int|
                    {
                        &&& 0 <= i < rest.len()
                        &&& (#[trigger] rest[i]).0 == id
                        &&& end == NodeEnd { at_ms: ms_of(rest[i].1), kind: rest[i].2 }
                        &&& forall|j: int| 0 <= j < i ==> (#[trigger] rest[j]).0 != id
                    };
                assert(ends[i + 1] == rest[i]);
                assert forall|j: int| 0 <= j < i + 1 implies (#[trigger] ends[j]).0 != id by {
                    if j > 0 {
                        assert(ends[j] == rest[j - 1]);
                    }
                }
            },
            None => {
                assert forall|i: int| 0 <= i < ends.len() implies (#[trigger] ends[i]).0 != id by {
                    if i > 0 {
                        assert(ends[i] == rest[i - 1]);
                    }
                }
            },
        }
    }
}

/// A node's end on a job is the one its own log shows. Where its log shows none, it is the first that
/// the coordinator logged for the node, and there is none only where neither saw one.
pub proof fn worker_log_decides_the_end(
    raw: JobModel,
    stages: Option<Map<Seq<char>, StagesModel>>,
    id: Seq<char>,
)
    ensures
        ({
            let own = if stages is Some && stages->0.dom().contains(id) {
                own_end(stages->0[id])
            } else {
                None
            };
            match node_end_of(raw, stages, id) {
                Some(end) => own == Some(end) || own is None && exists|i: int|
                    {
                        &&& 0 <= i < raw.node_ends.len()
                        &&& (#[trigger] raw.node_ends[i]).0 == id
                        &&& end.at_ms == ms_of(raw.node_ends[i].1)
                        &&& end.kind == raw.node_ends[i].2
                        &&& forall|j: int| 0 <= j < i ==> (#[trigger] raw.node_ends[j]).0 != id
                    },
                None => own is None && forall|i: int|
                    0 <= i < raw.node_ends.len() ==> (#[trigger] raw.node_ends[i]).0 != id,
            }
        }),
{
    lemma_first_end(raw.node_ends, id);
}

/// A successful job's windows are cut nowhere. A node of any other job is cut where it ended, then at
/// its latest stage, and then at the job's end.
pub proof fn incomplete_job_is_cut_at_the_end(
    raw: JobModel,
    stages: Option<Map<Seq<char>, StagesModel>>,
    id: Seq<char>,
)
    ensures
        raw.status == LogStatus::Success ==> cap_of(raw, stages, id) == Some(i64::MAX),
        raw.status != LogStatus::Success ==> {
            let end = node_end_of(raw, stages, id);
            let last = if stages is Some && stages->0.dom().contains(id) {
                last_stage(stages->0[id])
            } else {
                None
            };
            let cap = cap_of(raw, stages, id);
            &&& end is Some ==> cap == Some(end->0.at_ms)
            &&& end is None && last is Some ==> cap == last
            &&& end is None && last is None && raw.t_end is Some ==> cap == Some(
                ms_of(raw.t_end->0),
            )
            &&& end is None && last is None && raw.t_end is None ==> cap is None
        },
{
}

/// The aggregate window runs from the aggregator's start, without one from its first step, and without
/// either from the coordinator's phase 3 start, to the aggregator's end or else the phase 3 end. It
/// is absent where a bound is missing or the end comes before the start.
pub proof fn aggregate_window_prefers_the_worker_log(raw: JobModel, agg: Option<AggModel>)
    ensures
        ({
            let start = if agg is Some && agg->0.t_start is Some {
                agg->0.t_start
            } else if agg is Some && agg->0.t_first_step is Some {
                agg->0.t_first_step
            } else {
                raw.t_p3_start
            };
            let end = if agg is Some && agg->0.t_end is Some {
                agg->0.t_end
            } else {
                raw.t_p3_end
            };
            match aggregate_of(raw, agg) {
                Some((from, to)) => {
                    &&& start is Some && from == ms_of(start->0)
                    &&& end is Some && to == ms_of(end->0)
                    &&& from <= to
                },
                None => start is None || end is None || ms_of(end->0) < ms_of(start->0),
            }
        }),
{
}

/// A node's record holds the node's id, its end, and its items as they were extracted, and its five
/// windows span its own markers. A node is dropped only where it has no window, no item, and no end,
/// or where nothing cuts an incomplete job.
pub proof fn node_record_holds_what_the_logs_show(
    raw: JobModel,
    agg: Option<AggModel>,
    stages: Option<Map<Seq<char>, StagesModel>>,
    items: Option<Map<Seq<char>, Seq<ItemModel>>>,
    id: Seq<char>,
)
    ensures
        match node_of(raw, agg, stages, items, id) {
            Some(node) => {
                &&& node.id == id
                &&& node.end == node_end_of(raw, stages, id)
                &&& items is Some && items->0.dom().contains(id) ==> node.items == items->0[id]
                &&& items is None || !items->0.dom().contains(id) ==> node.items.len() == 0
                &&& node.phases.len() == 5
                &&& cap_of(raw, stages, id) is Some
                &&& stages is Some && stages->0.dom().contains(id) ==> {
                    let own = stages->0[id];
                    let cap = cap_of(raw, stages, id)->0;
                    &&& spans_markers(node.phases[0], raw.t_start, own.contribution_start, cap)
                    &&& spans_markers(node.phases[1], own.emulation_start, own.emulation_end, cap)
                    &&& spans_markers(node.phases[2], own.witgen_start, own.witgen_end, cap)
                    &&& spans_markers(node.phases[3], own.prove_start, own.prove_end, cap)
                }
                &&& raw.aggregator != Some(id) ==> node.phases[4] is None
                &&& raw.aggregator == Some(id) && raw.status == LogStatus::Success && aggregate_of(
                    raw,
                    agg,
                ) is Some && (aggregate_of(raw, agg)->0).0 < (aggregate_of(raw, agg)->0).1
                    ==> node.phases[4] == aggregate_of(raw, agg)
            },
            None => {
                ||| cap_of(raw, stages, id) is None
                ||| {
                    &&& node_end_of(raw, stages, id) is None
                    &&& items is None || !items->0.dom().contains(id) || items->0[id].len() == 0
                    &&& stages is Some && stages->0.dom().contains(id) ==> {
                        let own = stages->0[id];
                        let cap = cap_of(raw, stages, id)->0;
                        &&& spans_markers(None, raw.t_start, own.contribution_start, cap)
                        &&& spans_markers(None, own.emulation_start, own.emulation_end, cap)
                        &&& spans_markers(None, own.witgen_start, own.witgen_end, cap)
                        &&& spans_markers(None, own.prove_start, own.prove_end, cap)
                    }
                }
            },
        },
{
    if stages is Some && stages->0.dom().contains(id) && cap_of(raw, stages, id) is Some {
        let aggregate = if raw.aggregator == Some(id) {
            aggregate_of(raw, agg)
        } else {
            None
        };
        let start = match raw.t_start {
            Some(ns) => Some(ms_of(ns)),
            None => None,
        };
        let windows = windows_of(
            Some(stages->0[id]),
            cap_of(raw, stages, id)->0,
            start,
            aggregate,
        );
        if no_window(windows) {
            assert(windows[0] is None && windows[1] is None && windows[2] is None && windows[3] is None);
        }
        phases_span_their_own_markers(
            stages->0[id],
            cap_of(raw, stages, id)->0,
            raw.t_start,
            if raw.aggregator == Some(id) {
                aggregate_of(raw, agg)
            } else {
                None
            },
        );
    }
}

proof fn lemma_node_kept(
    raw: JobModel,
    agg: Option<AggModel>,
    stages: Option<Map<Seq<char>, StagesModel>>,
    items: Option<Map<Seq<char>, Seq<ItemModel>>>,
    ids: Seq<Seq<char>>,
    count: int,
    at: int,
)
    requires
        0 <= at < count <= ids.len(),
        node_of(raw, agg, stages, items, ids[at]) is Some,
    ensures
        nodes_upto(raw, agg, stages, items, ids, count).contains(
            node_of(raw, agg, stages, items, ids[at])->0,
        ),
    decreases count,
{
    let before = nodes_upto(raw, agg, stages, items, ids, count - 1);
    let after = nodes_upto(raw, agg, stages, items, ids, count);
    let node = node_of(raw, agg, stages, items, ids[at])->0;
    if at < count - 1 {
        lemma_node_kept(raw, agg, stages, items, ids, count - 1, at);
        let i = choose|i: int| 0 <= i < before.len() && before[i] == node;
        assert(after[i] == node);
    } else {
        assert(after[before.len() as int] == node);
    }
}

/// Every node that any source of a job names has its record in the job's log, unless there is nothing
/// to record of it.
pub proof fn every_named_node_is_recorded(
    raw: JobModel,
    agg: Option<AggModel>,
    stages: Option<Map<Seq<char>, StagesModel>>,
    items: Option<Map<Seq<char>, Seq<ItemModel>>>,
    id: Seq<char>,
)
    requires
        node_ids(raw, stages, items).finite(),
        ({
            ||| stages is Some && stages->0.dom().contains(id)
            ||| items is Some && items->0.dom().contains(id)
            ||| raw.p1.contains(id)
            ||| raw.p2.contains(id)
            ||| raw.aggregator == Some(id)
            ||| exists|i: int| 0 <= i < raw.node_ends.len() && (#[trigger] raw.node_ends[i]).0 == id
        }),
        node_of(raw, agg, stages, items, id) is Some,
    ensures
        nodes_of(raw, agg, stages, items).contains(node_of(raw, agg, stages, items, id)->0),
        log_of(raw, agg, stages, items).nodes.contains(node_of(raw, agg, stages, items, id)->0),
{
    let set = node_ids(raw, stages, items);
    lemma_finite_sorted(set);
    lemma_participants(raw, stages, id);
    assert(set.contains(id));
    let ids = sorted_members(set);
    assert(ids.contains(id));
    let at = choose|at: int| 0 <= at < ids.len() && ids[at] == id;
    lemma_node_kept(raw, agg, stages, items, ids, ids.len() as int, at);
}

proof fn lemma_participants(
    raw: JobModel,
    stages: Option<Map<Seq<char>, StagesModel>>,
    id: Seq<char>,
)
    ensures
        participant_set(raw, stages).contains(id) <==> {
            ||| stages is Some && stages->0.dom().contains(id)
            ||| raw.p1.contains(id)
            ||| raw.p2.contains(id)
            ||| raw.aggregator == Some(id)
            ||| exists|i: int| 0 <= i < raw.node_ends.len() && (#[trigger] raw.node_ends[i]).0 == id
        },
{
    let workers = raw.node_ends.map_values(|end: (Seq<char>, int, NodeEndKind)| end.0);
    if workers.contains(id) {
        let i = choose|i: int| 0 <= i < workers.len() && workers[i] == id;
        assert(raw.node_ends[i].0 == id);
    }
    if exists|i: int| 0 <= i < raw.node_ends.len() && (#[trigger] raw.node_ends[i]).0 == id {
        let i = choose|i: int|
            0 <= i < raw.node_ends.len() && (#[trigger] raw.node_ends[i]).0 == id;
        assert(workers[i] == id);
    }
}

/// A node took part in a job if and only if its stages, a finished phase, the aggregation, or a crash
/// or cancel line names it.
pub proof fn participants_are_the_named_nodes(
    raw: JobModel,
    agg: Option<AggModel>,
    stages: Option<Map<Seq<char>, StagesModel>>,
    items: Option<Map<Seq<char>, Seq<ItemModel>>>,
    id: Seq<char>,
)
    requires
        participant_set(raw, stages).finite(),
    ensures
        log_of(raw, agg, stages, items).participants.contains(id) <==> {
            ||| stages is Some && stages->0.dom().contains(id)
            ||| raw.p1.contains(id)
            ||| raw.p2.contains(id)
            ||| raw.aggregator == Some(id)
            ||| exists|i: int| 0 <= i < raw.node_ends.len() && (#[trigger] raw.node_ends[i]).0 == id
        },
{
    lemma_finite_sorted(participant_set(raw, stages));
    lemma_participants(raw, stages, id);
}

/// A log carries its job's id, outcome, moments, and duration as the coordinator gave them, and each
/// scalar of the job that is known under its own field name.
pub proof fn log_carries_its_job(
    raw: JobModel,
    agg: Option<AggModel>,
    stages: Option<Map<Seq<char>, StagesModel>>,
    items: Option<Map<Seq<char>, Seq<ItemModel>>>,
    value: u64,
)
    ensures
        ({
            let log = log_of(raw, agg, stages, items);
            &&& log.id == raw.id
            &&& log.status == raw.status
            &&& log.t_start == raw.t_start
            &&& log.t_end == raw.t_end
            &&& log.duration_s == raw.duration_s
            &&& log.meta.contains(("input_size"@, value)) <==> raw.input_bytes == Some(value)
            &&& log.meta.contains(("instances"@, value)) <==> raw.instances == Some(value)
            &&& log.meta.contains(("steps"@, value)) <==> raw.steps == Some(value)
            &&& log.meta.len() == (if raw.input_bytes is Some {
                1int
            } else {
                0
            }) + (if raw.instances is Some {
                1int
            } else {
                0
            }) + (if raw.steps is Some {
                1int
            } else {
                0
            })
        }),
{
    reveal_strlit("input_size");
    reveal_strlit("instances");
    reveal_strlit("steps");
    let meta = log_of(raw, agg, stages, items).meta;
    let first = if raw.input_bytes is Some {
        1int
    } else {
        0
    };
    let second = first + if raw.instances is Some {
        1int
    } else {
        0
    };
    assert("input_size"@[0] == 'i' && "steps"@[0] == 's' && "instances"@[0] == 'i');
    assert("input_size"@.len() == 10 && "instances"@.len() == 9 && "steps"@.len() == 5);
    if raw.input_bytes is Some {
        assert(meta[0] == ("input_size"@, raw.input_bytes->0));
    }
    if raw.instances is Some {
        assert(meta[first] == ("instances"@, raw.instances->0));
    }
    if raw.steps is Some {
        assert(meta[second] == ("steps"@, raw.steps->0));
    }
}

} // verus!
