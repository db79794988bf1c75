//! What holds of every node record that a backend builds.

use vstd::prelude::*;

use crate::log::{ItemModel, NodeModel};
use crate::openvm::phases as openvm;
use crate::text::precedes;
use crate::text_map::{lemma_finite_sorted, lists, sorted_members, strictly_sorted};
use crate::zisk::coordinator::JobModel;
use crate::zisk::kinds::{kind_row, KIND_COUNT};
use crate::zisk::phases::{node_ids, node_of, nodes_of, nodes_upto, participant_set, windows_of};
use crate::zisk::phase_preset;
use crate::zisk::worker::{AggModel, StagesModel};

verus! {

/// Whether node records come in the order of their ids, each once.
pub open spec fn in_id_order(nodes: Seq<NodeModel>) -> bool {
    forall|i: int, j: int|
        0 <= i < j < nodes.len() ==> precedes((#[trigger] nodes[i]).id, (#[trigger] nodes[j]).id)
}

proof fn lemma_zisk_nodes_upto(
    raw: JobModel,
    agg: Option<AggModel>,
    stages: Option<Map<Seq<char>, StagesModel>>,
    items: Option<Map<Seq<char>, Seq<ItemModel>>>,
    ids: Seq<Seq<char>>,
    count: int,
)
    requires
        strictly_sorted(ids),
        0 <= count <= ids.len(),
    ensures
        ({
            let nodes = nodes_upto(raw, agg, stages, items, ids, count);
            &&& in_id_order(nodes)
            &&& forall|i: int|
                #![trigger nodes[i]]
                0 <= i < nodes.len() ==> exists|k: int|
                    0 <= k < count && ids[k] == nodes[i].id && node_of(
                        raw,
                        agg,
                        stages,
                        items,
                        #[trigger] ids[k],
                    ) == Some(nodes[i])
        }),
    decreases count,
{
    if count > 0 {
        lemma_zisk_nodes_upto(raw, agg, stages, items, ids, count - 1);
        let before = nodes_upto(raw, agg, stages, items, ids, count - 1);
        let after = nodes_upto(raw, agg, stages, items, ids, count);
        assert forall|i: int|
            #![trigger after[i]]
            0 <= i < after.len() implies exists|k: int|
            0 <= k < count && ids[k] == after[i].id && node_of(
                raw,
                agg,
                stages,
                items,
                #[trigger] ids[k],
            ) == Some(after[i]) by {
            if i < before.len() {
                assert(after[i] == before[i]);
                let k = choose|k: int|
                    0 <= k < count - 1 && ids[k] == before[i].id && node_of(
                        raw,
                        agg,
                        stages,
                        items,
                        #[trigger] ids[k],
                    ) == Some(before[i]);
                assert(ids[k] == after[i].id);
            } else {
                assert(node_of(raw, agg, stages, items, ids[count - 1]) == Some(after[i]));
            }
        }
        assert forall|i: int, j: int| 0 <= i < j < after.len() implies precedes(
            (#[trigger] after[i]).id,
            (#[trigger] after[j]).id,
        ) by {
            assert(after[i] == before[i]);
            if j < before.len() {
                assert(after[j] == before[j]);
            } else {
                let k = choose|k: int|
                    0 <= k < count - 1 && ids[k] == before[i].id && node_of(
                        raw,
                        agg,
                        stages,
                        items,
                        #[trigger] ids[k],
                    ) == Some(before[i]);
                assert(precedes(ids[k], ids[count - 1]));
            }
        }
    }
}

/// A zisk log's node records come in the order of their ids, each once, and only the aggregator
/// carries the final aggregate window, which is how it is identified.
pub proof fn only_the_aggregator_aggregates(
    raw: JobModel,
    agg: Option<AggModel>,
    stages: Option<Map<Seq<char>, StagesModel>>,
    items: Option<Map<Seq<char>, Seq<ItemModel>>>,
)
    requires
        node_ids(raw, stages, items).finite(),
    ensures
        in_id_order(nodes_of(raw, agg, stages, items)),
        forall|i: int|
            #![trigger nodes_of(raw, agg, stages, items)[i]]
            0 <= i < nodes_of(raw, agg, stages, items).len() ==> {
                let node = nodes_of(raw, agg, stages, items)[i];
                &&& node.phases.len() == 5
                &&& node.phases[4] is Some ==> raw.aggregator == Some(node.id)
            },
{
    let ids = sorted_members(node_ids(raw, stages, items));
    lemma_finite_sorted(node_ids(raw, stages, items));
    lemma_zisk_nodes_upto(raw, agg, stages, items, ids, ids.len() as int);
}

/// A zisk phase window never runs backward or past the cap it is clipped to.
pub proof fn windows_are_clipped(
    stages: Option<StagesModel>,
    cap: i64,
    job_start: Option<i64>,
    aggregate: Option<(i64, i64)>,
    phase: int,
)
    requires
        0 <= phase < windows_of(stages, cap, job_start, aggregate).len(),
        windows_of(stages, cap, job_start, aggregate)[phase] is Some,
    ensures
        ({
            let (start, end) = windows_of(stages, cap, job_start, aggregate)[phase]->0;
            start < end <= cap
        }),
{
}

/// The participants of a job are listed in the order of their ids, each once.
pub proof fn participants_are_in_order(
    raw: JobModel,
    stages: Option<Map<Seq<char>, StagesModel>>,
)
    requires
        participant_set(raw, stages).finite(),
    ensures
        lists(sorted_members(participant_set(raw, stages)), participant_set(raw, stages)),
{
    lemma_finite_sorted(participant_set(raw, stages));
}

/// Every zisk pipeline kind is owned by a phase of the preset.
pub proof fn zisk_kinds_name_preset_phases(kind: int)
    requires
        0 <= kind < KIND_COUNT,
    ensures
        exists|phase: int|
            0 <= phase < phase_preset().len() && (#[trigger] phase_preset()[phase]).0 == kind_row(
                kind,
            ).phase@,
{
    let preset = phase_preset();
    assert(preset[1].0 == "emulation"@);
    assert(preset[2].0 == "commit"@);
    assert(preset[3].0 == "prove"@);
    assert(preset[4].0 == "aggregate"@);
}

/// Every openvm pipeline kind is owned by a phase of the preset.
pub proof fn openvm_kinds_name_preset_phases(kind: int)
    requires
        0 <= kind < openvm::KIND_COUNT,
    ensures
        exists|phase: int|
            0 <= phase < crate::openvm::phase_preset().len() && (
            #[trigger] crate::openvm::phase_preset()[phase]).0 == openvm::kind_template()[kind].2,
{
    let preset = crate::openvm::phase_preset();
    assert(preset[1].0 == "metered_execution"@);
    assert(preset[2].0 == "segment"@);
    assert(preset[3].0 == "recursion"@);
    assert(preset[4].0 == "wrap"@);
}

/// The openvm component kinds mirror the sub-phases slot by slot, each owned by a phase of the
/// preset.
pub proof fn openvm_components_mirror_subphases(slot: int)
    requires
        0 <= slot < openvm::OWNER_COUNT * openvm::STEP_COUNT,
    ensures
        openvm::component_at(slot) == (
            openvm::subphase_at(slot).0,
            openvm::subphase_at(slot).1,
            openvm::subphase_at(slot).2,
            false,
        ),
        exists|phase: int|
            0 <= phase < crate::openvm::phase_preset().len() && (
            #[trigger] crate::openvm::phase_preset()[phase]).0 == openvm::subphase_at(slot).2,
{
    let preset = crate::openvm::phase_preset();
    assert(preset[2].0 == "segment"@);
    assert(preset[3].0 == "recursion"@);
}

} // verus!
