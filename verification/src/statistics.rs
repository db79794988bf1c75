//! What the run statistics are computed from: the proving times and gas of the successful proofs,
//! and the telemetry samples taken under proving load.

use vstd::prelude::*;

use crate::log::{ms_of, Log, LogModel, LogStatus, NodeModel};
use crate::metrics::{among, MetricBlock, MetricModel, MetricStatus};
use crate::sort::{arranged, sort_places, stable_order};
use crate::telemetry::{sampled_gpus, Sample};
use crate::text::to_chars;
use crate::text_map::{at_or, lemma_replace, TextMap};

verus! {

/// The proving milliseconds of the successes among the first `count` results.
pub open spec fn proving_upto(blocks: Seq<MetricModel>, count: int) -> Seq<i64>
    decreases count,
{
    if count <= 0 {
        seq![]
    } else {
        let before = proving_upto(blocks, count - 1);
        let block = blocks[count - 1];
        if block.status == MetricStatus::Success && block.proving_time_ms is Some {
            before.push(block.proving_time_ms->0 as i64)
        } else {
            before
        }
    }
}

/// The gas of the successes among the first `count` results.
pub open spec fn gas_upto(blocks: Seq<MetricModel>, count: int) -> u64
    decreases count,
{
    if count <= 0 {
        0
    } else {
        let before = gas_upto(blocks, count - 1);
        let block = blocks[count - 1];
        if block.status == MetricStatus::Success && block.block_used_gas is Some {
            before.wrapping_add(block.block_used_gas->0)
        } else {
            before
        }
    }
}

/// The sum of the first `count` numbers.
pub open spec fn sum_upto(values: Seq<i64>, count: int) -> i64
    decreases count,
{
    if count <= 0 {
        0
    } else {
        sum_upto(values, count - 1).wrapping_add(values[count - 1])
    }
}

/// Numbers as sort keys.
pub open spec fn value_keys(values: Seq<i64>) -> Seq<(i64, i64)> {
    values.map_values(|value: i64| (value, 0i64))
}

/// Numbers in ascending order.
pub open spec fn sorted_values(values: Seq<i64>) -> Seq<i64> {
    arranged(values, stable_order(value_keys(values)))
}

/// What the cluster proving statistics are computed from: the proving times of the successful
/// proofs in ascending order, their sum, and the gas of the successful proofs.
pub struct Proving {
    pub times_ms: Vec<i64>,
    pub total_ms: i64,
    pub total_gas: u64,
}

fn sort_values(values: &Vec<i64>) -> (sorted: Vec<i64>)
    ensures
        sorted@ == sorted_values(values@),
{
    let mut keys: Vec<(i64, i64)> = Vec::new();
    for i in 0..values.len()
        invariant
            keys@.len() == i,
            forall|k: int| 0 <= k < i ==> #[trigger] keys@[k] == (values@[k], 0i64),
    {
        keys.push((values[i], 0));
    }
    assert(keys@ =~= value_keys(values@));
    let order: Vec<usize> = sort_places(&keys);
    let mut sorted: Vec<i64> = Vec::new();
    for i in 0..order.len()
        invariant
            keys@.len() == values@.len(),
            forall|k: int| 0 <= k < order@.len() ==> #[trigger] order@[k] < keys@.len(),
            sorted@.len() == i,
            forall|k: int| 0 <= k < i ==> #[trigger] sorted@[k] == values@[order@[k] as int],
    {
        sorted.push(values[order[i]]);
    }
    assert(sorted@ =~= sorted_values(values@));
    sorted
}

/// Collects the proving times and the gas of the successful proofs.
pub fn proving_figures(blocks: &Vec<MetricBlock>) -> (figures: Proving)
    ensures
        ({
            let model = blocks.deep_view();
            let count = model.len() as int;
            let times = proving_upto(model, count);
            &&& figures.times_ms@ == sorted_values(times)
            &&& figures.total_ms == sum_upto(times, times.len() as int)
            &&& figures.total_gas == gas_upto(model, count)
        }),
{
    let ghost model = blocks.deep_view();
    let mut times: Vec<i64> = Vec::new();
    let mut total_gas: u64 = 0;
    for i in 0..blocks.len()
        invariant
            model == blocks.deep_view(),
            times@ == proving_upto(model, i as int),
            total_gas == gas_upto(model, i as int),
    {
        assert(model[i as int] == blocks@[i as int].deep_view());
        if blocks[i].status == MetricStatus::Success {
            if let Some(ms) = blocks[i].proving_time_ms {
                times.push(ms as i64);
            }
            if let Some(gas) = blocks[i].block_used_gas {
                total_gas = total_gas.wrapping_add(gas);
            }
        }
    }
    let mut total_ms: i64 = 0;
    for i in 0..times.len()
        invariant
            total_ms == sum_upto(times@, i as int),
    {
        total_ms = total_ms.wrapping_add(times[i]);
    }
    Proving { times_ms: sort_values(&times), total_ms, total_gas }
}

/// Whether a job is a clean block, a success that ran on the full cluster.
pub open spec fn clean_block(log: LogModel, node_ids: Seq<Seq<char>>) -> bool {
    log.status == LogStatus::Success && forall|i: int|
        0 <= i < node_ids.len() ==> log.participants.contains(#[trigger] node_ids[i])
}

/// Whether a job is a clean block, a success that ran on the full cluster with every node taking
/// part. Its telemetry is the normal proving load the per-node rollup averages, so a failed,
/// timed-out, or node-missing job is excluded.
pub fn is_clean_block(log: &Log, node_ids: &Vec<String>) -> (clean: bool)
    ensures
        clean == clean_block(log.deep_view(), node_ids.deep_view()),
{
    if log.status != LogStatus::Success {
        return false;
    }
    for i in 0..node_ids.len()
        invariant
            forall|k: int|
                0 <= k < i ==> log.deep_view().participants.contains(
                    #[trigger] node_ids.deep_view()[k],
                ),
    {
        assert(node_ids.deep_view()[i as int] == node_ids@[i as int]@);
        if !among(&log.participants, node_ids[i].as_str()) {
            return false;
        }
    }
    true
}

/// The present windows among the first `count` phases, after those given.
pub open spec fn windows_added(
    windows: Seq<(i64, i64)>,
    phases: Seq<Option<(i64, i64)>>,
    count: int,
) -> Seq<(i64, i64)>
    decreases count,
{
    if count <= 0 {
        windows
    } else {
        let before = windows_added(windows, phases, count - 1);
        match phases[count - 1] {
            Some(window) => before.push(window),
            None => before,
        }
    }
}

/// Proving windows by node.
pub type Windows = Map<Seq<char>, Seq<(i64, i64)>>;

/// The proving windows with those of the first `count` nodes of a clean block added.
pub open spec fn nodes_windows(windows: Windows, nodes: Seq<NodeModel>, count: int) -> Windows
    decreases count,
{
    if count <= 0 {
        windows
    } else {
        let before = nodes_windows(windows, nodes, count - 1);
        let node = nodes[count - 1];
        before.insert(
            node.id,
            windows_added(
                at_or(before, node.id, seq![]),
                node.phases,
                node.phases.len() as int,
            ),
        )
    }
}

/// The proving windows of the clean blocks among the first `count` logs.
pub open spec fn proving_windows(
    logs: Seq<LogModel>,
    node_ids: Seq<Seq<char>>,
    count: int,
) -> Windows
    decreases count,
{
    if count <= 0 {
        Map::empty()
    } else {
        let before = proving_windows(logs, node_ids, count - 1);
        let log = logs[count - 1];
        if clean_block(log, node_ids) {
            nodes_windows(before, log.nodes, log.nodes.len() as int)
        } else {
            before
        }
    }
}

fn add_node_windows(
    windows: &mut TextMap<Vec<(i64, i64)>>,
    id: &str,
    phases: &Vec<Option<(i64, i64)>>,
)
    ensures
        final(windows)@ == old(windows)@.insert(
            id@,
            windows_added(
                at_or(old(windows)@, id@, seq![]),
                phases@,
                phases@.len() as int,
            ),
        ),
{
    let ghost before = windows@;
    let key: Vec<char> = to_chars(id);
    let mut own: Vec<(i64, i64)> = match windows.remove(key.as_slice()) {
        Some(own) => own,
        None => Vec::new(),
    };
    let ghost held = own@;
    assert(own.deep_view() =~= own@);
    assert(held =~= at_or(before, id@, seq![]));
    for i in 0..phases.len()
        invariant
            own@ == windows_added(held, phases@, i as int),
    {
        if let Some(window) = phases[i] {
            own.push(window);
        }
    }
    proof {
        assert(own.deep_view() =~= own@);
        lemma_replace(before, key@, own.deep_view());
        if !before.dom().contains(key@) {
            assert(before.remove(key@) =~= before);
        }
    }
    windows.insert(key, own);
}

/// Collects each node's absolute proving windows from its clean blocks only, the union of its phase
/// windows. The map is keyed by the node id hardware.nodes and the telemetry share, so a telemetry
/// stream joins to its windows, against which its GPU samples are later filtered.
pub fn node_proving_windows(logs: &Vec<Log>, node_ids: &Vec<String>) -> (windows: TextMap<
    Vec<(i64, i64)>,
>)
    ensures
        windows@ == proving_windows(
            logs.deep_view(),
            node_ids.deep_view(),
            logs@.len() as int,
        ),
{
    let mut windows: TextMap<Vec<(i64, i64)>> = TextMap::new();
    for i in 0..logs.len()
        invariant
            windows@ == proving_windows(logs.deep_view(), node_ids.deep_view(), i as int),
    {
        let log: &Log = &logs[i];
        assert(logs.deep_view()[i as int] == log.deep_view());
        if is_clean_block(log, node_ids) {
            let ghost before = windows@;
            let ghost nodes = log.nodes.deep_view();
            for j in 0..log.nodes.len()
                invariant
                    nodes == log.nodes.deep_view(),
                    windows@ == nodes_windows(before, nodes, j as int),
            {
                assert(nodes[j as int] == log.nodes@[j as int].deep_view());
                add_node_windows(&mut windows, log.nodes[j].id.as_str(), &log.nodes[j].phases);
            }
        }
    }
    windows
}

/// Whether a moment falls within any window, both ends included.
pub open spec fn in_windows(t: i64, windows: Seq<(i64, i64)>) -> bool {
    exists|i: int|
        0 <= i < windows.len() && (#[trigger] windows[i]).0 <= t && t <= windows[i].1
}

/// Reports whether an epoch-ms timestamp falls within any inclusive proving window.
pub fn within_windows(t: i64, windows: &Vec<(i64, i64)>) -> (within: bool)
    ensures
        within == in_windows(t, windows@),
{
    for i in 0..windows.len()
        invariant
            forall|k: int|
                0 <= k < i ==> !((#[trigger] windows@[k]).0 <= t && t <= windows@[k].1),
    {
        if windows[i].0 <= t && t <= windows[i].1 {
            assert(windows@[i as int].0 <= t && t <= windows@[i as int].1);
            return true;
        }
    }
    false
}

/// The places of those of the first `count` samples that fall within the windows.
pub open spec fn proving_places(
    samples: Seq<(int, u32)>,
    windows: Seq<(i64, i64)>,
    count: int,
) -> Seq<usize>
    decreases count,
{
    if count <= 0 {
        seq![]
    } else {
        let before = proving_places(samples, windows, count - 1);
        if in_windows(ms_of(samples[count - 1].0), windows) {
            before.push((count - 1) as usize)
        } else {
            before
        }
    }
}

/// The places of a node's samples taken inside its proving windows, so a rollup over them reflects
/// the GPU under proving load rather than the whole capture, where idle, warmup, and tail seconds
/// would otherwise pull every average toward zero.
pub fn proving_samples(samples: &Vec<Sample>, windows: &Vec<(i64, i64)>) -> (places: Vec<usize>)
    ensures
        places@ == proving_places(samples.deep_view(), windows@, samples@.len() as int),
        forall|i: int| 0 <= i < places@.len() ==> #[trigger] places@[i] < samples@.len(),
{
    let mut places: Vec<usize> = Vec::new();
    for i in 0..samples.len()
        invariant
            places@ == proving_places(samples.deep_view(), windows@, i as int),
            forall|k: int| 0 <= k < places@.len() ==> #[trigger] places@[k] < samples@.len(),
    {
        assert(samples.deep_view()[i as int] == samples@[i as int].deep_view());
        if within_windows(samples[i].t.epoch_ms(), windows) {
            places.push(i);
        }
    }
    places
}

/// The GPUs of the samples at the given places.
pub open spec fn gpus_at(samples: Seq<(int, u32)>, places: Seq<usize>) -> Set<u32> {
    places.map_values(|place: usize| samples[place as int].1).to_set()
}

/// The number of GPUs that the samples at the given places come from, at least one, the divisor that
/// turns throttled samples into throttled seconds.
pub fn proving_gpus(samples: &Vec<Sample>, places: &Vec<usize>) -> (count: usize)
    requires
        forall|i: int| 0 <= i < places@.len() ==> #[trigger] places@[i] < samples@.len(),
    ensures
        gpus_at(samples.deep_view(), places@).finite(),
        count == if gpus_at(samples.deep_view(), places@).len() == 0 {
            1
        } else {
            gpus_at(samples.deep_view(), places@).len()
        },
{
    let ghost model = samples.deep_view();
    let mut chosen: Vec<Sample> = Vec::new();
    for i in 0..places.len()
        invariant
            model == samples.deep_view(),
            forall|k: int| 0 <= k < places@.len() ==> #[trigger] places@[k] < samples@.len(),
            chosen@.len() == i,
            forall|k: int|
                0 <= k < i ==> (#[trigger] chosen@[k]).deep_view() == model[places@[k] as int],
    {
        chosen.push(samples[places[i]]);
    }
    let gpus: Vec<u32> = sampled_gpus(&chosen);
    proof {
        let all = places@.map_values(|place: usize| model[place as int].1);
        let picked = chosen.deep_view();
        assert forall|gpu: u32| gpus@.to_set().contains(gpu) <==> all.to_set().contains(gpu) by {
            assert(gpus@.contains(gpu) <==> crate::telemetry::sampled(picked, gpu));
            if crate::telemetry::sampled(picked, gpu) {
                let k = choose|k: int| 0 <= k < picked.len() && (#[trigger] picked[k]).1 == gpu;
                assert(chosen@[k].deep_view() == model[places@[k] as int]);
                assert(all[k] == gpu);
            }
            if all.contains(gpu) {
                let k = choose|k: int| 0 <= k < all.len() && all[k] == gpu;
                assert(chosen@[k].deep_view() == model[places@[k] as int]);
                assert(picked[k].1 == gpu);
            }
        }
        assert(gpus@.to_set() =~= all.to_set());
        assert(gpus@.no_duplicates()) by {
            assert forall|i: int, j: int|
                0 <= i < gpus@.len() && 0 <= j < gpus@.len() && i != j implies gpus@[i]
                != gpus@[j] by {
                if i < j {
                    assert(gpus@[i] < gpus@[j]);
                } else {
                    assert(gpus@[j] < gpus@[i]);
                }
            }
        }
        gpus@.unique_seq_to_set();
    }
    if gpus.len() == 0 {
        1
    } else {
        gpus.len()
    }
}

} // verus!
