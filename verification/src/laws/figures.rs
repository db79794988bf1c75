//! What holds of the figures that every run's statistics are computed from.

use vstd::prelude::*;

use crate::log::{ms_of, LogModel, LogStatus, NodeModel};
use crate::metrics::{MetricModel, MetricStatus};
use crate::sort::{comes_before, lemma_stable_order_of, stable_order};
use crate::statistics::{
    clean_block, gas_upto, gpus_at, in_windows, nodes_windows, proving_places, proving_upto,
    proving_windows, sorted_values, sum_upto, value_keys, windows_added,
};
use crate::telemetry::{last_sample, lays_out, samples_width, tick_at, width_upto, SamplesModel};
use crate::text_map::at_or;

verus! {

/// Whether a window is a phase window of a node in a clean log: the job succeeded, every node of the
/// axis took part, and one of its records of the node holds the window.
pub open spec fn clean_window(
    logs: Seq<LogModel>,
    node_ids: Seq<Seq<char>>,
    count: int,
    id: Seq<char>,
    window: (i64, i64),
) -> bool {
    exists|l: int, n: int, p: int|
        #![trigger logs[l].nodes[n].phases[p]]
        {
            &&& 0 <= l < count
            &&& logs[l].status == LogStatus::Success
            &&& forall|k: int|
                0 <= k < node_ids.len() ==> logs[l].participants.contains(#[trigger] node_ids[k])
            &&& 0 <= n < logs[l].nodes.len()
            &&& logs[l].nodes[n].id == id
            &&& 0 <= p < logs[l].nodes[n].phases.len()
            &&& logs[l].nodes[n].phases[p] == Some(window)
        }
}

spec fn phase_of(nodes: Seq<NodeModel>, count: int, id: Seq<char>, window: (i64, i64)) -> bool {
    exists|n: int, p: int|
        #![trigger nodes[n].phases[p]]
        0 <= n < count && nodes[n].id == id && 0 <= p < nodes[n].phases.len() && nodes[n].phases[p]
            == Some(window)
}

proof fn lemma_windows_added(
    windows: Seq<(i64, i64)>,
    phases: Seq<Option<(i64, i64)>>,
    count: int,
    window: (i64, i64),
)
    requires
        0 <= count <= phases.len(),
    ensures
        windows_added(windows, phases, count).contains(window) <==> windows.contains(window)
            || exists|p: int| 0 <= p < count && #[trigger] phases[p] == Some(window),
    decreases count,
{
    if count > 0 {
        lemma_windows_added(windows, phases, count - 1, window);
        let before = windows_added(windows, phases, count - 1);
        let after = windows_added(windows, phases, count);
        if before.contains(window) {
            let i = choose|i: int| 0 <= i < before.len() && before[i] == window;
            assert(after[i] == window);
        }
        if phases[count - 1] == Some(window) {
            assert(after[before.len() as int] == window);
        }
        if after.contains(window) {
            let i = choose|i: int| 0 <= i < after.len() && after[i] == window;
            if i < before.len() {
                assert(before[i] == window);
            } else {
                assert(phases[count - 1] == Some(window));
            }
        }
    }
}

proof fn lemma_nodes_windows(
    windows: Map<Seq<char>, Seq<(i64, i64)>>,
    nodes: Seq<NodeModel>,
    count: int,
    id: Seq<char>,
    window: (i64, i64),
)
    requires
        0 <= count <= nodes.len(),
    ensures
        at_or(nodes_windows(windows, nodes, count), id, seq![]).contains(window) <==> at_or(
            windows,
            id,
            seq![],
        ).contains(window) || phase_of(nodes, count, id, window),
    decreases count,
{
    if count > 0 {
        lemma_nodes_windows(windows, nodes, count - 1, id, window);
        let before = nodes_windows(windows, nodes, count - 1);
        let node = nodes[count - 1];
        lemma_windows_added(
            at_or(before, node.id, seq![]),
            node.phases,
            node.phases.len() as int,
            window,
        );
        if phase_of(nodes, count - 1, id, window) {
            let (n, p) = choose|n: int, p: int|
                #![trigger nodes[n].phases[p]]
                0 <= n < count - 1 && nodes[n].id == id && 0 <= p < nodes[n].phases.len()
                    && nodes[n].phases[p] == Some(window);
            assert(nodes[n].phases[p] == Some(window));
        }
        if node.id == id && exists|p: int|
            0 <= p < node.phases.len() && #[trigger] node.phases[p] == Some(window) {
            let p = choose|p: int|
                0 <= p < node.phases.len() && #[trigger] node.phases[p] == Some(window);
            assert(nodes[count - 1].phases[p] == Some(window));
        }
        if phase_of(nodes, count, id, window) {
            let (n, p) = choose|n: int, p: int|
                #![trigger nodes[n].phases[p]]
                0 <= n < count && nodes[n].id == id && 0 <= p < nodes[n].phases.len()
                    && nodes[n].phases[p] == Some(window);
            if n == count - 1 {
                assert(node.phases[p] == Some(window));
            } else {
                assert(nodes[n].phases[p] == Some(window));
            }
        }
    }
}

proof fn lemma_proving_windows(
    logs: Seq<LogModel>,
    node_ids: Seq<Seq<char>>,
    count: int,
    id: Seq<char>,
    window: (i64, i64),
)
    requires
        0 <= count <= logs.len(),
    ensures
        at_or(proving_windows(logs, node_ids, count), id, seq![]).contains(window) <==> clean_window(
            logs,
            node_ids,
            count,
            id,
            window,
        ),
    decreases count,
{
    if count > 0 {
        lemma_proving_windows(logs, node_ids, count - 1, id, window);
        let before = proving_windows(logs, node_ids, count - 1);
        let log = logs[count - 1];
        if clean_block(log, node_ids) {
            lemma_nodes_windows(before, log.nodes, log.nodes.len() as int, id, window);
            if phase_of(log.nodes, log.nodes.len() as int, id, window) {
                let (n, p) = choose|n: int, p: int|
                    #![trigger log.nodes[n].phases[p]]
                    0 <= n < log.nodes.len() && log.nodes[n].id == id && 0 <= p
                        < log.nodes[n].phases.len() && log.nodes[n].phases[p] == Some(window);
                assert(logs[count - 1].nodes[n].phases[p] == Some(window));
            }
        }
        if clean_window(logs, node_ids, count - 1, id, window) {
            let (l, n, p) = choose|l: int, n: int, p: int|
                #![trigger logs[l].nodes[n].phases[p]]
                {
                    &&& 0 <= l < count - 1
                    &&& logs[l].status == LogStatus::Success
                    &&& forall|k: int|
                        0 <= k < node_ids.len() ==> logs[l].participants.contains(
                            #[trigger] node_ids[k],
                        )
                    &&& 0 <= n < logs[l].nodes.len()
                    &&& logs[l].nodes[n].id == id
                    &&& 0 <= p < logs[l].nodes[n].phases.len()
                    &&& logs[l].nodes[n].phases[p] == Some(window)
                };
            assert(logs[l].nodes[n].phases[p] == Some(window));
        }
        if clean_window(logs, node_ids, count, id, window) {
            let (l, n, p) = choose|l: int, n: int, p: int|
                #![trigger logs[l].nodes[n].phases[p]]
                {
                    &&& 0 <= l < count
                    &&& logs[l].status == LogStatus::Success
                    &&& forall|k: int|
                        0 <= k < node_ids.len() ==> logs[l].participants.contains(
                            #[trigger] node_ids[k],
                        )
                    &&& 0 <= n < logs[l].nodes.len()
                    &&& logs[l].nodes[n].id == id
                    &&& 0 <= p < logs[l].nodes[n].phases.len()
                    &&& logs[l].nodes[n].phases[p] == Some(window)
                };
            if l == count - 1 {
                assert(log.nodes[n].phases[p] == Some(window));
                assert(phase_of(log.nodes, log.nodes.len() as int, id, window));
            } else {
                assert(logs[l].nodes[n].phases[p] == Some(window));
                assert(clean_window(logs, node_ids, count - 1, id, window));
            }
        }
    }
}

/// A node's proving windows are the union over all clean logs of the windows of its phases: each such
/// window is among them, and there is no other.
pub proof fn proving_windows_are_the_union(
    logs: Seq<LogModel>,
    node_ids: Seq<Seq<char>>,
    id: Seq<char>,
    window: (i64, i64),
)
    ensures
        ({
            let windows = proving_windows(logs, node_ids, logs.len() as int);
            (windows.dom().contains(id) && windows[id].contains(window)) <==> clean_window(
                logs,
                node_ids,
                logs.len() as int,
                id,
                window,
            )
        }),
{
    lemma_proving_windows(logs, node_ids, logs.len() as int, id, window);
}

/// Whether a number is the proving time of a success among the first `count` results.
pub open spec fn proving_time(blocks: Seq<MetricModel>, count: int, ms: i64) -> bool {
    exists|i: int|
        0 <= i < count && (#[trigger] blocks[i]).status == MetricStatus::Success
            && blocks[i].proving_time_ms is Some && blocks[i].proving_time_ms->0 as i64 == ms
}

proof fn lemma_proving_upto(blocks: Seq<MetricModel>, count: int)
    requires
        0 <= count <= blocks.len(),
    ensures
        proving_upto(blocks, count).len() == blocks.take(count).filter(
            |block: MetricModel|
                block.status == MetricStatus::Success && block.proving_time_ms is Some,
        ).len(),
        forall|ms: i64|
            proving_upto(blocks, count).contains(ms) <==> #[trigger] proving_time(
                blocks,
                count,
                ms,
            ),
    decreases count,
{
    reveal(Seq::filter);
    if count > 0 {
        lemma_proving_upto(blocks, count - 1);
        let before = proving_upto(blocks, count - 1);
        let after = proving_upto(blocks, count);
        let block = blocks[count - 1];
        assert(blocks.take(count).drop_last() =~= blocks.take(count - 1));
        assert(blocks.take(count).last() == block);
        assert forall|ms: i64| after.contains(ms) <==> #[trigger] proving_time(blocks, count, ms) by {
            assert(before.contains(ms) <==> proving_time(blocks, count - 1, ms));
            if before.contains(ms) {
                let i = choose|i: int| 0 <= i < before.len() && before[i] == ms;
                assert(after[i] == ms);
                let j = choose|j: int|
                    0 <= j < count - 1 && (#[trigger] blocks[j]).status == MetricStatus::Success
                        && blocks[j].proving_time_ms is Some && blocks[j].proving_time_ms->0 as i64
                        == ms;
                assert(blocks[j].status == MetricStatus::Success);
            }
            if block.status == MetricStatus::Success && block.proving_time_ms is Some
                && block.proving_time_ms->0 as i64 == ms {
                assert(after[before.len() as int] == ms);
            }
            if after.contains(ms) && !before.contains(ms) {
                let i = choose|i: int| 0 <= i < after.len() && after[i] == ms;
                if i < before.len() {
                    assert(before[i] == ms);
                }
                assert(blocks[count - 1].status == MetricStatus::Success);
            }
            if proving_time(blocks, count, ms) && !proving_time(blocks, count - 1, ms) {
                let j = choose|j: int|
                    0 <= j < count && (#[trigger] blocks[j]).status == MetricStatus::Success
                        && blocks[j].proving_time_ms is Some && blocks[j].proving_time_ms->0 as i64
                        == ms;
                if j < count - 1 {
                    assert(blocks[j].status == MetricStatus::Success);
                }
            }
        }
    }
}

proof fn lemma_sorted_values(values: Seq<i64>)
    requires
        values.len() <= usize::MAX,
    ensures
        sorted_values(values).len() == values.len(),
        forall|i: int, j: int|
            0 <= i < j < values.len() ==> (#[trigger] sorted_values(values)[i])
                <= #[trigger] sorted_values(values)[j],
        forall|value: i64|
            #[trigger] sorted_values(values).contains(value) <==> values.contains(value),
{
    let keys = value_keys(values);
    lemma_stable_order_of(keys);
    let order = stable_order(keys);
    let sorted = sorted_values(values);
    assert forall|i: int, j: int| 0 <= i < j < values.len() implies (#[trigger] sorted[i])
        <= #[trigger] sorted[j] by {
        assert(comes_before(keys, order[i], order[j]));
        assert(order[i] < keys.len() && order[j] < keys.len());
    }
    assert forall|value: i64| #[trigger] sorted.contains(value) <==> values.contains(value) by {
        if sorted.contains(value) {
            let i = choose|i: int| 0 <= i < sorted.len() && sorted[i] == value;
            assert(order[i] < keys.len());
            assert(values[order[i] as int] == value);
        }
        if values.contains(value) {
            let i = choose|i: int| 0 <= i < values.len() && values[i] == value;
            assert(order.contains(i as usize));
            let at = choose|at: int| 0 <= at < order.len() && order[at] == i as usize;
            assert(sorted[at] == value);
        }
    }
}

/// The proving times of a run are those of its successes, as many as there are successes with a
/// proving time, in ascending order.
pub proof fn proving_times_are_those_of_the_successes(blocks: Seq<MetricModel>, ms: i64)
    requires
        blocks.len() <= usize::MAX,
    ensures
        ({
            let times = sorted_values(proving_upto(blocks, blocks.len() as int));
            &&& times.len() == blocks.filter(
                |block: MetricModel|
                    block.status == MetricStatus::Success && block.proving_time_ms is Some,
            ).len()
            &&& times.contains(ms) <==> proving_time(blocks, blocks.len() as int, ms)
            &&& forall|i: int, j: int|
                0 <= i < j < times.len() ==> (#[trigger] times[i]) <= #[trigger] times[j]
        }),
{
    let count = blocks.len() as int;
    lemma_proving_upto(blocks, count);
    assert(blocks.take(count) =~= blocks);
    let keep = |block: MetricModel|
        block.status == MetricStatus::Success && block.proving_time_ms is Some;
    blocks.lemma_filter_len(keep);
    assert(blocks.filter(keep).len() == proving_upto(blocks, count).len());
    lemma_sorted_values(proving_upto(blocks, count));
    assert(proving_time(blocks, count, ms) <==> proving_upto(blocks, count).contains(ms));
}

/// The exact sum of the first `count` numbers.
pub open spec fn exact_sum(values: Seq<int>) -> int
    decreases values.len(),
{
    if values.len() == 0 {
        0
    } else {
        exact_sum(values.drop_last()) + values.last()
    }
}

/// Whether a running sum stays within bounds.
pub open spec fn sums_within(values: Seq<int>, low: int, high: int) -> bool {
    forall|count: int|
        0 <= count <= values.len() ==> low <= exact_sum(#[trigger] values.take(count)) <= high
}

proof fn lemma_sums_within(values: Seq<int>, low: int, high: int)
    requires
        values.len() > 0,
        sums_within(values, low, high),
    ensures
        sums_within(values.drop_last(), low, high),
        low <= exact_sum(values) <= high,
{
    let less = values.drop_last();
    assert forall|count: int| 0 <= count <= less.len() implies low <= exact_sum(
        #[trigger] less.take(count),
    ) <= high by {
        assert(less.take(count) =~= values.take(count));
        assert(low <= exact_sum(values.take(count)) <= high);
    }
    assert(values.take(values.len() as int) =~= values);
}

/// The total proving time is the sum of the proving times, where the sum fits.
pub proof fn total_proving_time_is_the_sum(values: Seq<i64>)
    requires
        sums_within(values.map_values(|v: i64| v as int), i64::MIN as int, i64::MAX as int),
    ensures
        sum_upto(values, values.len() as int) == exact_sum(values.map_values(|v: i64| v as int)),
    decreases values.len(),
{
    let exact = values.map_values(|v: i64| v as int);
    if values.len() > 0 {
        lemma_sums_within(exact, i64::MIN as int, i64::MAX as int);
        let less = values.drop_last();
        assert(less.map_values(|v: i64| v as int) =~= exact.drop_last());
        total_proving_time_is_the_sum(less);
        lemma_sum_prefix(values, less, less.len() as int);
        lemma_last_within(exact);
    }
}

proof fn lemma_last_within(values: Seq<int>)
    requires
        values.len() > 0,
    ensures
        exact_sum(values) == exact_sum(values.drop_last()) + values.last(),
{
}

proof fn lemma_sum_prefix(values: Seq<i64>, less: Seq<i64>, count: int)
    requires
        0 <= count <= less.len() <= values.len(),
        forall|i: int| 0 <= i < less.len() ==> values[i] == #[trigger] less[i],
    ensures
        sum_upto(values, count) == sum_upto(less, count),
    decreases count,
{
    if count > 0 {
        lemma_sum_prefix(values, less, count - 1);
        assert(values[count - 1] == less[count - 1]);
    }
}

/// The gas that a result adds to a run: that of a success, and nothing otherwise.
pub open spec fn gas_added(block: MetricModel) -> int {
    if block.status == MetricStatus::Success && block.block_used_gas is Some {
        block.block_used_gas->0 as int
    } else {
        0
    }
}

proof fn lemma_gas(blocks: Seq<MetricModel>, count: int)
    requires
        0 <= count <= blocks.len(),
        sums_within(
            blocks.take(count).map_values(|block: MetricModel| gas_added(block)),
            0,
            u64::MAX as int,
        ),
    ensures
        gas_upto(blocks, count) == exact_sum(
            blocks.take(count).map_values(|block: MetricModel| gas_added(block)),
        ),
    decreases count,
{
    if count > 0 {
        let all = blocks.take(count).map_values(|block: MetricModel| gas_added(block));
        lemma_sums_within(all, 0, u64::MAX as int);
        assert(all.drop_last() =~= blocks.take(count - 1).map_values(
            |block: MetricModel| gas_added(block),
        ));
        lemma_gas(blocks, count - 1);
        assert(all.last() == gas_added(blocks[count - 1]));
        lemma_last_within(all);
    }
}

/// The total gas of a run is the sum over its successes alone, where the sum fits.
pub proof fn total_gas_is_that_of_the_successes(blocks: Seq<MetricModel>)
    requires
        sums_within(
            blocks.map_values(|block: MetricModel| gas_added(block)),
            0,
            u64::MAX as int,
        ),
    ensures
        gas_upto(blocks, blocks.len() as int) == exact_sum(
            blocks.map_values(|block: MetricModel| gas_added(block)),
        ),
{
    assert(blocks.take(blocks.len() as int) =~= blocks);
    lemma_gas(blocks, blocks.len() as int);
}

/// Whether a moment lies in one of the windows, their ends counted in.
pub open spec fn covered(windows: Seq<(i64, i64)>, at: i64) -> bool {
    exists|i: int| 0 <= i < windows.len() && (#[trigger] windows[i]).0 <= at <= windows[i].1
}

proof fn lemma_proving_places(
    samples: Seq<(int, u32)>,
    windows: Seq<(i64, i64)>,
    count: int,
)
    requires
        0 <= count <= samples.len() <= usize::MAX,
    ensures
        ({
            let places = proving_places(samples, windows, count);
            &&& forall|place: usize|
                #[trigger] places.contains(place) <==> place < count && covered(
                    windows,
                    ms_of(samples[place as int].0),
                )
            &&& forall|i: int, j: int|
                0 <= i < j < places.len() ==> (#[trigger] places[i]) < #[trigger] places[j]
        }),
    decreases count,
{
    if count > 0 {
        lemma_proving_places(samples, windows, count - 1);
        let before = proving_places(samples, windows, count - 1);
        let after = proving_places(samples, windows, count);
        assert forall|place: usize|
            #[trigger] after.contains(place) <==> place < count && covered(
            windows,
            ms_of(samples[place as int].0),
        ) by {
            assert(before.contains(place) <==> place < count - 1 && covered(
                windows,
                ms_of(samples[place as int].0),
            ));
            if before.contains(place) {
                let i = choose|i: int| 0 <= i < before.len() && before[i] == place;
                assert(after[i] == place);
            }
            if place == count - 1 && in_windows(ms_of(samples[count - 1].0), windows) {
                assert(after[before.len() as int] == place);
            }
            if after.contains(place) && !before.contains(place) {
                let i = choose|i: int| 0 <= i < after.len() && after[i] == place;
                if i < before.len() {
                    assert(before[i] == place);
                }
            }
        }
        assert forall|i: int, j: int| 0 <= i < j < after.len() implies (#[trigger] after[i])
            < #[trigger] after[j] by {
            assert(before[i] == after[i]);
            assert(before.contains(before[i]));
            if j < before.len() {
                assert(before[j] == after[j]);
            }
        }
    }
}

/// The samples taken under load are exactly those that lie in a proving window, in their order.
pub proof fn samples_under_load_lie_in_a_window(
    samples: Seq<(int, u32)>,
    windows: Seq<(i64, i64)>,
    place: usize,
)
    requires
        samples.len() <= usize::MAX,
    ensures
        ({
            let places = proving_places(samples, windows, samples.len() as int);
            &&& places.contains(place) <==> place < samples.len() && covered(
                windows,
                ms_of(samples[place as int].0),
            )
            &&& forall|i: int, j: int|
                0 <= i < j < places.len() ==> (#[trigger] places[i]) < #[trigger] places[j]
        }),
{
    lemma_proving_places(samples, windows, samples.len() as int);
}

/// The GPUs under load are those of the samples at the given places.
pub proof fn gpus_under_load_are_sampled(
    samples: Seq<(int, u32)>,
    places: Seq<usize>,
    gpu: u32,
)
    ensures
        gpus_at(samples, places).contains(gpu) <==> exists|i: int|
            0 <= i < places.len() && samples[#[trigger] places[i] as int].1 == gpu,
{
    let gpus = places.map_values(|place: usize| samples[place as int].1);
    if gpus.contains(gpu) {
        let i = choose|i: int| 0 <= i < gpus.len() && gpus[i] == gpu;
        assert(samples[places[i] as int].1 == gpu);
    }
    if exists|i: int| 0 <= i < places.len() && samples[#[trigger] places[i] as int].1 == gpu {
        let i = choose|i: int|
            0 <= i < places.len() && samples[#[trigger] places[i] as int].1 == gpu;
        assert(gpus[i] == gpu);
    }
}

/// A sample's column is the second nearest to its distance from the epoch, a half second counting as
/// the next, and the first column where it lies before the epoch.
pub proof fn tick_is_the_nearest_second(ms: i64, t0: i64)
    ensures
        tick_at(ms, t0) >= 0,
        ms >= t0 ==> -500 <= tick_at(ms, t0) * 1000 - (ms - t0) <= 500 && (tick_at(ms, t0) * 1000
            - (ms - t0) != -500),
        ms < t0 ==> tick_at(ms, t0) == 0,
{
}

proof fn lemma_samples_width(samples: Seq<(int, u32)>, t0: i64, count: int)
    requires
        0 <= count <= samples.len(),
    ensures
        ({
            let width = samples_width(samples, t0, count);
            &&& width >= 0
            &&& forall|i: int|
                0 <= i < count ==> tick_at(ms_of((#[trigger] samples[i]).0), t0) < width
            &&& width > 0 ==> exists|i: int|
                0 <= i < count && tick_at(ms_of((#[trigger] samples[i]).0), t0) == width - 1
        }),
    decreases count,
{
    if count > 0 {
        lemma_samples_width(samples, t0, count - 1);
        let before = samples_width(samples, t0, count - 1);
        let width = samples_width(samples, t0, count);
        tick_is_the_nearest_second(ms_of(samples[count - 1].0), t0);
        if width == before {
            let i = choose|i: int|
                0 <= i < count - 1 && tick_at(ms_of((#[trigger] samples[i]).0), t0) == before - 1;
            assert(tick_at(ms_of(samples[i].0), t0) == width - 1);
        } else {
            assert(tick_at(ms_of(samples[count - 1].0), t0) == width - 1);
        }
    }
}

proof fn lemma_width(nodes: Seq<SamplesModel>, t0: i64, count: int)
    requires
        0 <= count <= nodes.len(),
    ensures
        ({
            let width = width_upto(nodes, t0, count);
            &&& width >= 0
            &&& forall|n: int, i: int|
                #![trigger nodes[n].1[i]]
                0 <= n < count && 0 <= i < nodes[n].1.len() ==> tick_at(
                    ms_of(nodes[n].1[i].0),
                    t0,
                ) < width
            &&& width > 0 ==> exists|n: int, i: int|
                #![trigger nodes[n].1[i]]
                0 <= n < count && 0 <= i < nodes[n].1.len() && tick_at(ms_of(nodes[n].1[i].0), t0)
                    == width - 1
        }),
    decreases count,
{
    if count > 0 {
        lemma_width(nodes, t0, count - 1);
        let before = width_upto(nodes, t0, count - 1);
        let width = width_upto(nodes, t0, count);
        let samples = nodes[count - 1].1;
        lemma_samples_width(samples, t0, samples.len() as int);
        assert forall|n: int, i: int|
            #![trigger nodes[n].1[i]]
            0 <= n < count && 0 <= i < nodes[n].1.len() implies tick_at(
            ms_of(nodes[n].1[i].0),
            t0,
        ) < width by {
            if n == count - 1 {
                assert(samples[i] == nodes[n].1[i]);
            }
        }
        if width > before {
            let i = choose|i: int|
                0 <= i < samples.len() && tick_at(ms_of((#[trigger] samples[i]).0), t0) == width - 1;
            assert(tick_at(ms_of(nodes[count - 1].1[i].0), t0) == width - 1);
        } else if width > 0 {
            let (n, i) = choose|n: int, i: int|
                #![trigger nodes[n].1[i]]
                0 <= n < count - 1 && 0 <= i < nodes[n].1.len() && tick_at(
                    ms_of(nodes[n].1[i].0),
                    t0,
                ) == before - 1;
            assert(tick_at(ms_of(nodes[n].1[i].0), t0) == width - 1);
        }
    }
}

/// The telemetry axis reaches the latest sample of any node and no further: every sample has its
/// column on it, and the last column holds a sample.
pub proof fn axis_reaches_the_latest_sample(
    nodes: Seq<SamplesModel>,
    t0: i64,
    node: int,
    at: int,
)
    ensures
        ({
            let width = width_upto(nodes, t0, nodes.len() as int);
            &&& 0 <= node < nodes.len() && 0 <= at < nodes[node].1.len() ==> tick_at(
                ms_of(nodes[node].1[at].0),
                t0,
            ) < width
            &&& width > 0 ==> exists|n: int, i: int|
                #![trigger nodes[n].1[i]]
                0 <= n < nodes.len() && 0 <= i < nodes[n].1.len() && tick_at(
                    ms_of(nodes[n].1[i].0),
                    t0,
                ) == width - 1
            &&& width >= 0
        }),
{
    lemma_width(nodes, t0, nodes.len() as int);
    if 0 <= node < nodes.len() && 0 <= at < nodes[node].1.len() {
        assert(tick_at(ms_of(nodes[node].1[at].0), t0) < width_upto(
            nodes,
            t0,
            nodes.len() as int,
        ));
    }
}

proof fn lemma_last_sample(
    samples: Seq<(int, u32)>,
    t0: i64,
    gpu: u32,
    tick: int,
    count: int,
)
    requires
        0 <= count <= samples.len() <= usize::MAX,
    ensures
        match last_sample(samples, t0, gpu, tick, count) {
            Some(place) => {
                &&& place < count
                &&& samples[place as int].1 == gpu
                &&& tick_at(ms_of(samples[place as int].0), t0) == tick
                &&& forall|i: int|
                    place < i < count && (#[trigger] samples[i]).1 == gpu ==> tick_at(
                        ms_of(samples[i].0),
                        t0,
                    ) != tick
            },
            None => forall|i: int|
                0 <= i < count && (#[trigger] samples[i]).1 == gpu ==> tick_at(
                    ms_of(samples[i].0),
                    t0,
                ) != tick,
        },
    decreases count,
{
    if count > 0 {
        lemma_last_sample(samples, t0, gpu, tick, count - 1);
    }
}

/// A cell of the telemetry grid holds the last sample of its own GPU in its own second, and is empty
/// where the GPU was not sampled in that second.
pub proof fn cell_holds_the_last_sample_of_its_second(
    cells: Seq<Vec<Option<usize>>>,
    gpus: Seq<u32>,
    samples: Seq<(int, u32)>,
    t0: i64,
    width: int,
    gpu: int,
    tick: int,
)
    requires
        samples.len() <= usize::MAX,
        lays_out(cells, gpus, samples, t0, width, samples.len() as int),
        0 <= gpu < gpus.len(),
        0 <= tick < width,
    ensures
        match cells[gpu]@[tick] {
            Some(place) => {
                &&& place < samples.len()
                &&& samples[place as int].1 == gpus[gpu]
                &&& tick_at(ms_of(samples[place as int].0), t0) == tick
                &&& forall|i: int|
                    place < i < samples.len() && (#[trigger] samples[i]).1 == gpus[gpu] ==> tick_at(
                        ms_of(samples[i].0),
                        t0,
                    ) != tick
            },
            None => forall|i: int|
                0 <= i < samples.len() && (#[trigger] samples[i]).1 == gpus[gpu] ==> tick_at(
                    ms_of(samples[i].0),
                    t0,
                ) != tick,
        },
{
    lemma_last_sample(samples, t0, gpus[gpu], tick, samples.len() as int);
    assert(cells[gpu]@[tick] == last_sample(
        samples,
        t0,
        gpus[gpu],
        tick,
        samples.len() as int,
    ));
}

} // verus!
