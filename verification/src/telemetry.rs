//! The one-second axis that GPU telemetry samples are laid out on.

use vstd::prelude::*;

use crate::log::{ms_of, Ts};

verus! {

/// One GPU telemetry sample: when it was taken, and of which GPU.
#[derive(Clone, Copy)]
pub struct Sample {
    pub t: Ts,
    pub gpu: u32,
}

impl DeepView for Sample {
    type V = (int, u32);

    open spec fn deep_view(&self) -> (int, u32) {
        (self.t@, self.gpu)
    }
}

/// The samples of one node, by its digit.
pub struct NodeSamples {
    pub digit: u32,
    pub samples: Vec<Sample>,
}

/// A node's samples by the values they hold.
pub type SamplesModel = (u32, Seq<(int, u32)>);

impl DeepView for NodeSamples {
    type V = SamplesModel;

    open spec fn deep_view(&self) -> SamplesModel {
        (self.digit, self.samples.deep_view())
    }
}

/// The tick column of a moment, one column per second from the run epoch, the nearest one and the
/// later of two as near. A moment before the epoch falls in the first column.
pub open spec fn tick_at(ms: i64, t0: i64) -> int {
    let since = ms - t0;
    if since < 0 {
        0
    } else {
        (since + 500) / 1000
    }
}

/// The tick column of a moment, one column per second from the run epoch.
pub fn tick_of(ms: i64, t0: i64) -> (tick: u64)
    ensures
        tick == tick_at(ms, t0),
{
    let since: i128 = ms as i128 - t0 as i128;
    if since < 0 {
        0
    } else {
        ((since + 500) / 1000) as u64
    }
}

/// The columns that the first `count` samples need.
pub open spec fn samples_width(samples: Seq<(int, u32)>, t0: i64, count: int) -> int
    decreases count,
{
    if count <= 0 {
        0
    } else {
        let before = samples_width(samples, t0, count - 1);
        let tick = tick_at(ms_of(samples[count - 1].0), t0);
        if tick + 1 > before {
            tick + 1
        } else {
            before
        }
    }
}

/// The columns that the samples of the first `count` nodes need.
pub open spec fn width_upto(nodes: Seq<SamplesModel>, t0: i64, count: int) -> int
    decreases count,
{
    if count <= 0 {
        0
    } else {
        let before = width_upto(nodes, t0, count - 1);
        let samples = nodes[count - 1].1;
        let here = samples_width(samples, t0, samples.len() as int);
        if here > before {
            here
        } else {
            before
        }
    }
}

/// The columns of the axis, from the epoch through the latest tick any node reported, so every node
/// shares it.
pub fn axis_width(nodes: &Vec<NodeSamples>, t0: i64) -> (width: u64)
    ensures
        width == width_upto(nodes.deep_view(), t0, nodes@.len() as int),
{
    let mut width: u64 = 0;
    for i in 0..nodes.len()
        invariant
            width == width_upto(nodes.deep_view(), t0, i as int),
    {
        assert(nodes.deep_view()[i as int] == nodes@[i as int].deep_view());
        let samples: &Vec<Sample> = &nodes[i].samples;
        let ghost model = samples.deep_view();
        let mut here: u64 = 0;
        for j in 0..samples.len()
            invariant
                model == samples.deep_view(),
                here == samples_width(model, t0, j as int),
        {
            assert(model[j as int] == samples@[j as int].deep_view());
            let tick: u64 = tick_of(samples[j].t.epoch_ms(), t0);
            assert(tick < u64::MAX);
            if tick + 1 > here {
                here = tick + 1;
            }
        }
        if here > width {
            width = here;
        }
    }
    width
}

/// Whether a list holds each of its numbers once, in ascending order.
pub open spec fn ascending(list: Seq<u32>) -> bool {
    forall|i: int, j: int| 0 <= i < j < list.len() ==> #[trigger] list[i] < #[trigger] list[j]
}

/// Whether a GPU is among the samples.
pub open spec fn sampled(samples: Seq<(int, u32)>, gpu: u32) -> bool {
    exists|i: int| 0 <= i < samples.len() && (#[trigger] samples[i]).1 == gpu
}

/// Whether a list holds the sampled GPUs, each once and in ascending order.
pub open spec fn lists_gpus(gpus: Seq<u32>, samples: Seq<(int, u32)>) -> bool {
    &&& ascending(gpus)
    &&& forall|gpu: u32| #[trigger] gpus.contains(gpu) <==> sampled(samples, gpu)
}

/// The place of a GPU in an ascending list, or where it would stand, and whether it is there.
fn gpu_place(gpus: &Vec<u32>, gpu: u32) -> (found: (usize, bool))
    requires
        ascending(gpus@),
    ensures
        found.0 <= gpus@.len(),
        found.1 == gpus@.contains(gpu),
        found.1 ==> found.0 < gpus@.len() && gpus@[found.0 as int] == gpu,
        forall|i: int| 0 <= i < found.0 ==> #[trigger] gpus@[i] < gpu,
        !found.1 ==> forall|i: int| found.0 <= i < gpus@.len() ==> #[trigger] gpus@[i] > gpu,
{
    let mut at: usize = 0;
    while at < gpus.len() && gpus[at] < gpu
        invariant
            at <= gpus@.len(),
            forall|i: int| 0 <= i < at ==> #[trigger] gpus@[i] < gpu,
        decreases gpus@.len() - at,
    {
        at += 1;
    }
    let there: bool = at < gpus.len() && gpus[at] == gpu;
    proof {
        if !there {
            assert forall|i: int| at <= i < gpus@.len() implies #[trigger] gpus@[i] > gpu by {
                if i > at {
                    assert(gpus@[at as int] < gpus@[i]);
                }
            }
        }
    }
    (at, there)
}

/// The sampled GPUs, each once and in ascending order.
pub fn sampled_gpus(samples: &Vec<Sample>) -> (gpus: Vec<u32>)
    ensures
        lists_gpus(gpus@, samples.deep_view()),
{
    let mut gpus: Vec<u32> = Vec::new();
    let ghost model = samples.deep_view();
    assert(lists_gpus(gpus@, model.take(0)));
    for i in 0..samples.len()
        invariant
            model == samples.deep_view(),
            lists_gpus(gpus@, model.take(i as int)),
    {
        let gpu: u32 = samples[i].gpu;
        let (at, there) = gpu_place(&gpus, gpu);
        let ghost before = gpus@;
        if !there {
            gpus.insert(at, gpu);
        }
        proof {
            let (less, more) = (model.take(i as int), model.take(i + 1));
            assert(more[i as int] == samples@[i as int].deep_view());
            assert forall|other: u32| #[trigger] gpus@.contains(other) <==> sampled(more, other) by {
                assert(before.contains(other) <==> sampled(less, other));
                if sampled(less, other) {
                    let k = choose|k: int| 0 <= k < less.len() && (#[trigger] less[k]).1 == other;
                    assert(more[k].1 == other);
                }
                if sampled(more, other) && other != gpu {
                    let k = choose|k: int| 0 <= k < more.len() && (#[trigger] more[k]).1 == other;
                    assert(less[k].1 == other);
                }
                if !there {
                    assert(gpus@ == before.insert(at as int, gpu));
                    assert(gpus@[at as int] == gpu);
                    if before.contains(other) {
                        let k = choose|k: int| 0 <= k < before.len() && before[k] == other;
                        assert(gpus@[if k < at { k } else { k + 1 }] == other);
                    }
                    if gpus@.contains(other) && other != gpu {
                        let k = choose|k: int| 0 <= k < gpus@.len() && gpus@[k] == other;
                        assert(before[if k < at { k } else { k - 1 }] == other);
                    }
                }
            }
            assert forall|a: int, b: int| 0 <= a < b < gpus@.len() implies #[trigger] gpus@[a]
                < #[trigger] gpus@[b] by {
                if !there {
                    if a != at {
                        assert(gpus@[a] == before[if a < at { a } else { a - 1 }]);
                    }
                    if b != at {
                        assert(gpus@[b] == before[if b < at { b } else { b - 1 }]);
                    }
                }
            }
        }
    }
    assert(model.take(model.len() as int) =~= model);
    gpus
}

/// The last of the first `count` samples of a GPU in a column.
pub open spec fn last_sample(
    samples: Seq<(int, u32)>,
    t0: i64,
    gpu: u32,
    tick: int,
    count: int,
) -> Option<usize>
    decreases count,
{
    if count <= 0 {
        None
    } else if samples[count - 1].1 == gpu && tick_at(ms_of(samples[count - 1].0), t0) == tick {
        Some((count - 1) as usize)
    } else {
        last_sample(samples, t0, gpu, tick, count - 1)
    }
}

/// A node's samples laid out by GPU and by second: the GPUs in ascending order, and per GPU the
/// place of the last sample in each column, absent where the node did not sample that second.
pub struct NodeGrid {
    pub gpus: Vec<u32>,
    pub cells: Vec<Vec<Option<usize>>>,
}

/// Whether a grid lays out the first `count` samples on an axis of `width` columns.
pub open spec fn lays_out(
    cells: Seq<Vec<Option<usize>>>,
    gpus: Seq<u32>,
    samples: Seq<(int, u32)>,
    t0: i64,
    width: int,
    count: int,
) -> bool {
    &&& cells.len() == gpus.len()
    &&& forall|g: int| 0 <= g < cells.len() ==> (#[trigger] cells[g])@.len() == width
    &&& forall|g: int, tick: int|
        0 <= g < cells.len() && 0 <= tick < width ==> #[trigger] cells[g]@[tick] == last_sample(
            samples,
            t0,
            gpus[g],
            tick,
            count,
        )
}

/// Whether every sample falls in a column of the axis.
pub open spec fn fits(samples: Seq<(int, u32)>, t0: i64, width: int) -> bool {
    forall|i: int|
        0 <= i < samples.len() ==> tick_at(ms_of((#[trigger] samples[i]).0), t0) < width
}

fn empty_grid(gpus: usize, width: usize) -> (cells: Vec<Vec<Option<usize>>>)
    ensures
        cells@.len() == gpus,
        forall|g: int| 0 <= g < gpus ==> (#[trigger] cells@[g])@.len() == width,
        forall|g: int, tick: int|
            0 <= g < gpus && 0 <= tick < width ==> #[trigger] cells@[g]@[tick] is None,
{
    let mut cells: Vec<Vec<Option<usize>>> = Vec::new();
    for g in 0..gpus
        invariant
            cells@.len() == g,
            forall|a: int| 0 <= a < g ==> (#[trigger] cells@[a])@.len() == width,
            forall|a: int, tick: int|
                0 <= a < g && 0 <= tick < width ==> #[trigger] cells@[a]@[tick] is None,
    {
        let mut row: Vec<Option<usize>> = Vec::new();
        for tick in 0..width
            invariant
                row@.len() == tick,
                forall|k: int| 0 <= k < tick ==> #[trigger] row@[k] is None,
        {
            row.push(None);
        }
        cells.push(row);
    }
    cells
}

/// Lays a node's samples out on the axis.
pub fn node_grid(samples: &Vec<Sample>, t0: i64, width: usize) -> (grid: NodeGrid)
    requires
        fits(samples.deep_view(), t0, width as int),
    ensures
        lists_gpus(grid.gpus@, samples.deep_view()),
        lays_out(
            grid.cells@,
            grid.gpus@,
            samples.deep_view(),
            t0,
            width as int,
            samples@.len() as int,
        ),
{
    let gpus: Vec<u32> = sampled_gpus(samples);
    let ghost model = samples.deep_view();
    let mut cells: Vec<Vec<Option<usize>>> = empty_grid(gpus.len(), width);
    for i in 0..samples.len()
        invariant
            model == samples.deep_view(),
            fits(model, t0, width as int),
            lists_gpus(gpus@, model),
            lays_out(cells@, gpus@, model, t0, width as int, i as int),
    {
        assert(model[i as int] == samples@[i as int].deep_view());
        let gpu: u32 = samples[i].gpu;
        let (at, there) = gpu_place(&gpus, gpu);
        assert(sampled(model, gpu));
        assert(gpus@.contains(gpu));
        let tick: u64 = tick_of(samples[i].t.epoch_ms(), t0);
        assert(tick < width);
        let ghost before = cells@;
        let mut row: Vec<Option<usize>> = Vec::new();
        core::mem::swap(&mut cells[at], &mut row);
        row[tick as usize] = Some(i);
        cells[at] = row;
        proof {
            assert(cells@.len() == before.len());
            assert forall|g: int, k: int|
                0 <= g < cells@.len() && 0 <= k < width implies #[trigger] cells@[g]@[k]
                == last_sample(model, t0, gpus@[g], k, i + 1) by {
                assert(before[g]@[k] == last_sample(model, t0, gpus@[g], k, i as int));
                if g != at {
                    if g < at {
                        assert(gpus@[g] < gpus@[at as int]);
                    } else {
                        assert(gpus@[at as int] < gpus@[g]);
                    }
                }
            }
        }
    }
    NodeGrid { gpus, cells }
}

/// Builds the grids of every node on one shared one-second axis.
///
/// Every node aligns to the same axis anchored at the run epoch, where tick i is exactly i seconds
/// after the epoch, so grids line up by index across nodes and against the block windows. A second
/// a node did not sample stays empty, a late start or interior gap, so the frontend renders a break
/// there rather than pulling later readings onto collapsed seconds.
pub fn build_telemetry(nodes: &Vec<NodeSamples>, t0: i64, width: usize) -> (grids: Vec<NodeGrid>)
    requires
        width == width_upto(nodes.deep_view(), t0, nodes@.len() as int),
    ensures
        grids@.len() == nodes@.len(),
        forall|i: int|
            #![trigger grids@[i]]
            0 <= i < grids@.len() ==> {
                let samples = nodes@[i].samples.deep_view();
                &&& lists_gpus(grids@[i].gpus@, samples)
                &&& lays_out(
                    grids@[i].cells@,
                    grids@[i].gpus@,
                    samples,
                    t0,
                    width as int,
                    samples.len() as int,
                )
            },
{
    let ghost model = nodes.deep_view();
    let mut grids: Vec<NodeGrid> = Vec::new();
    for i in 0..nodes.len()
        invariant
            model == nodes.deep_view(),
            width == width_upto(model, t0, nodes@.len() as int),
            grids@.len() == i,
            forall|k: int|
                #![trigger grids@[k]]
                0 <= k < i ==> {
                    let samples = nodes@[k].samples.deep_view();
                    &&& lists_gpus(grids@[k].gpus@, samples)
                    &&& lays_out(
                        grids@[k].cells@,
                        grids@[k].gpus@,
                        samples,
                        t0,
                        width as int,
                        samples.len() as int,
                    )
                },
    {
        let samples: &Vec<Sample> = &nodes[i].samples;
        proof {
            assert(model[i as int] == nodes@[i as int].deep_view());
            let len = samples.deep_view().len() as int;
            lemma_width_covers_node(model, t0, i as int, model.len() as int);
            lemma_width_covers_samples(samples.deep_view(), t0, len);
        }
        grids.push(node_grid(samples, t0, width));
    }
    grids
}

proof fn lemma_width_covers_samples(samples: Seq<(int, u32)>, t0: i64, count: int)
    requires
        0 <= count <= samples.len(),
    ensures
        forall|i: int|
            0 <= i < count ==> tick_at(ms_of((#[trigger] samples[i]).0), t0) < samples_width(
                samples,
                t0,
                count,
            ),
    decreases count,
{
    if count > 0 {
        lemma_width_covers_samples(samples, t0, count - 1);
    }
}

proof fn lemma_width_covers_node(nodes: Seq<SamplesModel>, t0: i64, node: int, count: int)
    requires
        0 <= node < count <= nodes.len(),
    ensures
        samples_width(nodes[node].1, t0, nodes[node].1.len() as int) <= width_upto(
            nodes,
            t0,
            count,
        ),
    decreases count,
{
    if node < count - 1 {
        lemma_width_covers_node(nodes, t0, node, count - 1);
    }
}

} // verus!
