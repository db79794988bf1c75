//! Encodes pipeline items as the document's pipeline rows.

use vstd::prelude::*;

use crate::log::{ItemModel, Log, LogModel, MetaModel, NodeModel, PipelineItem, PipelineItemMeta};
use crate::schema::{Row, RowMeta};
use crate::sort::{arranged, sort_places, stable_order};

verus! {

/// A row by the values it holds.
pub type RowModel = (Seq<i64>, Option<RowMeta>);

/// The trailing object of an item, holding the present fields among id, cpu_heavy, and gpu_heavy,
/// or none when every field is absent.
pub open spec fn item_object(meta: MetaModel) -> Option<RowMeta> {
    if meta.id is None && meta.cpu_heavy is None && meta.gpu_heavy is None {
        None
    } else {
        Some(
            RowMeta {
                id: meta.id,
                cpu_heavy: meta.cpu_heavy,
                gpu_heavy: meta.gpu_heavy,
                group: None,
            },
        )
    }
}

/// The trailing metadata object of an item, holding the present fields among id, cpu_heavy, and
/// gpu_heavy, or None when every field is absent.
pub fn metadata_object(meta: &PipelineItemMeta) -> (object: Option<RowMeta>)
    ensures
        object == item_object(meta.deep_view()),
{
    if meta.id.is_none() && meta.cpu_heavy.is_none() && meta.gpu_heavy.is_none() {
        None
    } else {
        Some(
            RowMeta {
                id: meta.id,
                cpu_heavy: meta.cpu_heavy,
                gpu_heavy: meta.gpu_heavy,
                group: None,
            },
        )
    }
}

/// The integers of a monolithic item, [kind, s, d, s2, d2] truncated where a segment dangles.
pub open spec fn item_cells(item: ItemModel, start_abs: i64) -> Seq<i64> {
    let head = seq![item.kind as i64, item.first.0.wrapping_sub(start_abs)];
    match item.first.1 {
        None => head,
        Some(end) => {
            let one = head.push(end.wrapping_sub(item.first.0));
            match item.second {
                None => one,
                Some((start2, end2)) => {
                    let two = one.push(start2.wrapping_sub(start_abs));
                    match end2 {
                        None => two,
                        Some(end2) => two.push(end2.wrapping_sub(start2)),
                    }
                },
            }
        },
    }
}

/// One monolithic item as a row.
pub open spec fn item_row(item: ItemModel, start_abs: i64) -> RowModel {
    (item_cells(item, start_abs), item_object(item.meta))
}

/// One monolithic item as a [kind, s, d, s2, d2] wire row truncated where a segment dangles, its
/// metadata riding as one trailing object.
pub fn monolithic_row(item: &PipelineItem, start_abs: i64) -> (row: Row)
    ensures
        row.deep_view() == item_row(item.deep_view(), start_abs),
{
    let mut cells: Vec<i64> = Vec::new();
    cells.push(item.kind as i64);
    cells.push(item.first.0.wrapping_sub(start_abs));
    if let Some(end) = item.first.1 {
        cells.push(end.wrapping_sub(item.first.0));
        if let Some((start2, end2)) = item.second {
            cells.push(start2.wrapping_sub(start_abs));
            if let Some(end2) = end2 {
                cells.push(end2.wrapping_sub(start2));
            }
        }
    }
    assert(cells@ =~= item_cells(item.deep_view(), start_abs));
    Row { cells, meta: metadata_object(&item.meta) }
}

/// The milliseconds of the first `count` sub-steps.
pub open spec fn span_sum(spans: Seq<(u64, u64)>, count: int) -> int
    decreases count,
{
    if count <= 0 {
        0
    } else {
        span_sum(spans, count - 1) + spans[count - 1].1
    }
}

/// The milliseconds that an item's sub-steps are packed into.
pub open spec fn span_room(window: (i64, i64)) -> int {
    let room = window.1.wrapping_sub(window.0);
    if room < 0 {
        0
    } else {
        room as int
    }
}

/// The most milliseconds that a breakdown packed at its exact durations may sum to.
pub const EXACT_SUM_MAX: u64 = 9_007_199_254_740_992;

/// Whether a breakdown overruns its window, so its sub-steps are placed by scaled ends rather than
/// at their exact durations.
pub open spec fn overruns(meta: MetaModel) -> bool {
    let sum = span_sum(meta.spans, meta.spans.len() as int);
    &&& meta.spans_window is Some
    &&& (sum > span_room(meta.spans_window->0) || sum > EXACT_SUM_MAX)
}

/// Whether ends are offsets into a window: they start at or after its start, never fall, and stop at
/// or before its end.
pub open spec fn ends_fit(ends: Seq<i64>, room: int) -> bool {
    &&& forall|i: int| 0 <= i < ends.len() ==> 0 <= #[trigger] ends[i] <= room
    &&& forall|i: int, j: int|
        0 <= i <= j < ends.len() ==> #[trigger] ends[i] <= #[trigger] ends[j]
}

/// Whether an item's breakdown can be packed: it has a window, and where it overruns the window one
/// end per sub-step, scaled to fit.
pub open spec fn packable(meta: MetaModel) -> bool {
    meta.spans.len() > 0 ==> {
        &&& meta.spans_window is Some
        &&& overruns(meta) ==> {
            &&& meta.scaled_ends is Some
            &&& meta.scaled_ends->0.len() == meta.spans.len()
            &&& ends_fit(meta.scaled_ends->0, span_room(meta.spans_window->0))
        }
    }
}

/// The offset into the window at which the first `count` sub-steps end.
pub open spec fn span_end(meta: MetaModel, count: int) -> i64 {
    if count <= 0 {
        0
    } else if overruns(meta) {
        meta.scaled_ends->0[count - 1]
    } else {
        span_sum(meta.spans, count) as i64
    }
}

/// The row of one sub-step of an item: its component kind, its start and its duration, each
/// sub-step starting where the one before it ends, with the item's id and the group its siblings
/// share.
pub open spec fn component_row(
    item: ItemModel,
    start_abs: i64,
    component_base: usize,
    group: u64,
    step: int,
) -> RowModel {
    let (from, to) = (span_end(item.meta, step), span_end(item.meta, step + 1));
    let window_start = (item.meta.spans_window->0).0;
    (
        seq![
            component_base.wrapping_add(item.meta.spans[step].0 as usize) as i64,
            window_start.wrapping_sub(start_abs).wrapping_add(from),
            to.wrapping_sub(from),
        ],
        Some(RowMeta { id: item.meta.id, cpu_heavy: None, gpu_heavy: None, group: Some(group) }),
    )
}

/// The rows of an item's sub-steps, in slot order.
pub open spec fn component_rows_of(
    item: ItemModel,
    start_abs: i64,
    component_base: usize,
    group: u64,
) -> Seq<RowModel> {
    Seq::new(
        item.meta.spans.len(),
        |step: int| component_row(item, start_abs, component_base, group, step),
    )
}

/// Sub-steps only add to a sum.
pub proof fn lemma_span_sum_grows(spans: Seq<(u64, u64)>, count: int, more: int)
    requires
        0 <= count <= more,
    ensures
        0 <= span_sum(spans, count) <= span_sum(spans, more),
    decreases more,
{
    if count < more {
        lemma_span_sum_grows(spans, count, more - 1);
    } else if count > 0 {
        lemma_span_sum_grows(spans, count - 1, more - 1);
    }
}

/// Whether a breakdown overruns its window.
pub fn breakdown_overruns(meta: &PipelineItemMeta) -> (yes: bool)
    ensures
        yes == overruns(meta.deep_view()),
{
    let window: (i64, i64) = match meta.spans_window {
        Some(window) => window,
        None => {
            return false;
        },
    };
    let difference: i64 = window.1.wrapping_sub(window.0);
    let room: u128 = if difference < 0 {
        0
    } else {
        difference as u128
    };
    let mut sum: u128 = 0;
    for i in 0..meta.spans.len()
        invariant
            sum == span_sum(meta.spans@, i as int),
            sum <= i * u64::MAX,
            i <= usize::MAX,
    {
        assert(sum + meta.spans@[i as int].1 <= (i + 1) * u64::MAX) by (nonlinear_arith)
            requires
                sum <= i * u64::MAX,
                meta.spans@[i as int].1 <= u64::MAX,
        ;
        assert((i + 1) * u64::MAX <= u128::MAX) by (nonlinear_arith)
            requires
                0 <= i < usize::MAX,
                usize::MAX <= u64::MAX,
        ;
        sum += meta.spans[i].1 as u128;
    }
    sum > room || sum > EXACT_SUM_MAX as u128
}

/// Whether ends are offsets into a window.
pub fn fit(ends: &Vec<i64>, window: (i64, i64)) -> (yes: bool)
    ensures
        yes == ends_fit(ends@, span_room(window)),
{
    let difference: i64 = window.1.wrapping_sub(window.0);
    let room: i64 = if difference < 0 {
        0
    } else {
        difference
    };
    let mut last: i64 = 0;
    for i in 0..ends.len()
        invariant
            room == span_room(window),
            0 <= last <= room,
            i == 0 ==> last == 0,
            i > 0 ==> last == ends@[i - 1],
            ends_fit(ends@.take(i as int), room as int),
    {
        let end: i64 = ends[i];
        let ghost (less, more) = (ends@.take(i as int), ends@.take(i + 1));
        if end < last || end > room {
            proof {
                if i > 0 {
                    assert(ends@[i - 1] == last);
                }
                assert(!ends_fit(ends@, room as int));
            }
            return false;
        }
        last = end;
        proof {
            assert(more =~= less.push(end));
            assert forall|a: int, b: int| 0 <= a <= b < more.len() implies #[trigger] more[a]
                <= #[trigger] more[b] by {
                if b == i && a < i {
                    assert(less[a] <= less[i - 1]);
                }
                if b < i {
                    assert(less[a] <= less[b]);
                }
            }
            assert forall|a: int| 0 <= a < more.len() implies 0 <= #[trigger] more[a] <= room by {
                if a < i {
                    assert(more[a] == less[a]);
                }
            }
        }
    }
    assert(ends@.take(ends@.len() as int) =~= ends@);
    true
}

/// The component rows of a sub-step-carrying item, one [kind, s, d, {id, g}] row per sub-step
/// packed contiguously across the item's spans window in slot order. Each component kind is the
/// component base plus the sub-step's template slot. A merged final-internal breakdown can overrun
/// its window, so the sub-steps scale to fit and never draw past it, while a normal breakdown packs
/// at its exact durations leaving the untimed residual as a trailing gap. Cumulative ends keep the
/// components touching and inside the window.
pub fn component_rows(
    item: &PipelineItem,
    start_abs: i64,
    component_base: usize,
    group: u64,
) -> (rows: Vec<Row>)
    requires
        item.meta.deep_view().spans.len() > 0,
        packable(item.meta.deep_view()),
    ensures
        rows.deep_view() == component_rows_of(item.deep_view(), start_abs, component_base, group),
{
    let ghost model = item.deep_view();
    let ghost meta = item.meta.deep_view();
    let window_start: i64 = match item.meta.spans_window {
        Some(window) => window.0,
        None => 0,
    };
    let scaled: bool = breakdown_overruns(&item.meta);
    let object = RowMeta { id: item.meta.id, cpu_heavy: None, gpu_heavy: None, group: Some(group) };
    let base: i64 = window_start.wrapping_sub(start_abs);
    let mut rows: Vec<Row> = Vec::new();
    let mut cumulative: u64 = 0;
    let mut prev: i64 = 0;
    for step in 0..item.meta.spans.len()
        invariant
            model == item.deep_view(),
            meta == item.meta.deep_view(),
            packable(meta),
            meta.spans.len() > 0,
            scaled == overruns(meta),
            window_start == (meta.spans_window->0).0,
            base == window_start.wrapping_sub(start_abs),
            object == (RowMeta {
                id: meta.id,
                cpu_heavy: None,
                gpu_heavy: None,
                group: Some(group),
            }),
            !scaled ==> cumulative == span_sum(meta.spans, step as int),
            prev == span_end(meta, step as int),
            rows@.len() == step,
            forall|k: int|
                0 <= k < step ==> (#[trigger] rows@[k]).deep_view() == component_row(
                    model,
                    start_abs,
                    component_base,
                    group,
                    k,
                ),
    {
        let (slot, ms) = item.meta.spans[step];
        let end: i64 = if scaled {
            match &item.meta.scaled_ends {
                Some(ends) => ends[step],
                None => 0,
            }
        } else {
            proof {
                lemma_span_sum_grows(meta.spans, step + 1, meta.spans.len() as int);
            }
            cumulative = cumulative + ms;
            cumulative as i64
        };
        let mut cells: Vec<i64> = Vec::new();
        cells.push(component_base.wrapping_add(slot as usize) as i64);
        cells.push(base.wrapping_add(prev));
        cells.push(end.wrapping_sub(prev));
        let ghost expected = component_row(model, start_abs, component_base, group, step as int);
        assert(cells@ =~= expected.0);
        rows.push(Row { cells, meta: Some(object) });
        prev = end;
    }
    assert(rows.deep_view() =~= component_rows_of(model, start_abs, component_base, group));
    rows
}

/// The sort keys of items, their start and kind.
pub open spec fn item_keys(items: Seq<ItemModel>) -> Seq<(i64, i64)> {
    items.map_values(|item: ItemModel| (item.first.0, item.kind as i64))
}

/// Items in the order of their start and then their kind.
pub open spec fn sorted_items(items: Seq<ItemModel>) -> Seq<ItemModel> {
    arranged(items, stable_order(item_keys(items)))
}

/// The rows of the first `count` items, and the number of those that carry a breakdown.
pub open spec fn rows_upto(
    items: Seq<ItemModel>,
    start_abs: i64,
    component_base: usize,
    count: int,
) -> (Seq<RowModel>, u64)
    decreases count,
{
    if count <= 0 {
        (seq![], 0)
    } else {
        let (rows, group) = rows_upto(items, start_abs, component_base, count - 1);
        let item = items[count - 1];
        if item.meta.spans.len() == 0 {
            (rows.push(item_row(item, start_abs)), group)
        } else {
            (
                rows + component_rows_of(item, start_abs, component_base, group),
                group.wrapping_add(1),
            )
        }
    }
}

/// The sort keys of rows, their start and kind.
pub open spec fn row_keys(rows: Seq<RowModel>) -> Seq<(i64, i64)> {
    rows.map_values(|row: RowModel| (row.0[1], row.0[0]))
}

/// A node's items as rows, in the order of their start and then their kind.
pub open spec fn rows_of(items: Seq<ItemModel>, start_abs: i64, component_base: usize) -> Seq<
    RowModel,
> {
    let rows = rows_upto(
        sorted_items(items),
        start_abs,
        component_base,
        items.len() as int,
    ).0;
    arranged(rows, stable_order(row_keys(rows)))
}

/// Whether every item's breakdown can be packed.
pub open spec fn all_packable(items: Seq<ItemModel>) -> bool {
    forall|i: int| 0 <= i < items.len() ==> packable((#[trigger] items[i]).meta)
}

fn copy_row(row: &Row) -> (copy: Row)
    ensures
        copy.deep_view() == row.deep_view(),
{
    let copy = Row { cells: row.cells.clone(), meta: row.meta };
    assert(copy.cells@ =~= row.cells@);
    copy
}

fn sort_rows(rows: &Vec<Row>) -> (sorted: Vec<Row>)
    requires
        forall|i: int| 0 <= i < rows@.len() ==> (#[trigger] rows@[i]).cells@.len() >= 2,
    ensures
        sorted.deep_view() == arranged(
            rows.deep_view(),
            stable_order(row_keys(rows.deep_view())),
        ),
{
    let mut keys: Vec<(i64, i64)> = Vec::new();
    for i in 0..rows.len()
        invariant
            forall|k: int| 0 <= k < rows@.len() ==> (#[trigger] rows@[k]).cells@.len() >= 2,
            keys@.len() == i,
            forall|k: int|
                0 <= k < i ==> #[trigger] keys@[k] == (rows@[k].cells@[1], rows@[k].cells@[0]),
    {
        keys.push((rows[i].cells[1], rows[i].cells[0]));
    }
    assert(keys@ =~= row_keys(rows.deep_view()));
    let order: Vec<usize> = sort_places(&keys);
    let mut sorted: Vec<Row> = Vec::new();
    for i in 0..order.len()
        invariant
            keys@.len() == rows@.len(),
            forall|k: int| 0 <= k < order@.len() ==> #[trigger] order@[k] < keys@.len(),
            sorted@.len() == i,
            forall|k: int|
                0 <= k < i ==> (#[trigger] sorted@[k]).deep_view()
                    == rows@[order@[k] as int].deep_view(),
    {
        sorted.push(copy_row(&rows[order[i]]));
    }
    assert(sorted.deep_view() =~= arranged(
        rows.deep_view(),
        stable_order(row_keys(rows.deep_view())),
    ));
    sorted
}

/// Encodes a node's pipeline items as wire rows rebased to the block start. A monolithic item is
/// one [kind, s, d, s2, d2] row truncated where a segment dangles, so a dangling end is carried by
/// arity rather than a sentinel, its metadata following the integers as one trailing object, absent
/// entirely on a metadata-free item. An item carrying a STARK sub-step breakdown instead emits one
/// component row per sub-step in place of its own row, so the monolithic segment, leaf, and
/// internal bars never render, the components sharing a per-node group and the item's id so the
/// frontend packs them onto one row. Rows sort by start then kind.
pub fn pipeline_rows(items: &Vec<PipelineItem>, start_abs: i64, component_base: usize) -> (rows: Vec<
    Row,
>)
    requires
        all_packable(items.deep_view()),
    ensures
        rows.deep_view() == rows_of(items.deep_view(), start_abs, component_base),
{
    let ghost models = items.deep_view();
    let mut keys: Vec<(i64, i64)> = Vec::new();
    for i in 0..items.len()
        invariant
            keys@.len() == i,
            forall|k: int|
                0 <= k < i ==> #[trigger] keys@[k] == (items@[k].first.0, items@[k].kind as i64),
    {
        keys.push((items[i].first.0, items[i].kind as i64));
    }
    assert(keys@ =~= item_keys(models));
    let order: Vec<usize> = sort_places(&keys);
    let ghost sorted = sorted_items(models);
    let mut rows: Vec<Row> = Vec::new();
    let mut group: u64 = 0;
    assert(rows.deep_view() =~= seq![]);
    for i in 0..order.len()
        invariant
            models == items.deep_view(),
            all_packable(models),
            keys@.len() == items@.len(),
            sorted == arranged(models, order@),
            forall|k: int| 0 <= k < order@.len() ==> #[trigger] order@[k] < keys@.len(),
            (rows.deep_view(), group) == rows_upto(sorted, start_abs, component_base, i as int),
            forall|k: int| 0 <= k < rows@.len() ==> (#[trigger] rows@[k]).cells@.len() >= 2,
    {
        let item: &PipelineItem = &items[order[i]];
        assert(sorted[i as int] == item.deep_view());
        assert(models[order@[i as int] as int] == item.deep_view());
        let ghost before = rows.deep_view();
        if item.meta.spans.len() == 0 {
            let row: Row = monolithic_row(item, start_abs);
            rows.push(row);
            assert(rows.deep_view() =~= before.push(row.deep_view()));
        } else {
            assert(packable(models[order@[i as int] as int].meta));
            let components: Vec<Row> = component_rows(item, start_abs, component_base, group);
            let ghost added = components.deep_view();
            assert forall|k: int| 0 <= k < components@.len() implies (
            #[trigger] components@[k]).cells@.len() >= 2 by {
                assert(added[k] == components@[k].deep_view());
                assert(added.len() == components@.len());
                assert(added == component_rows_of(
                    item.deep_view(),
                    start_abs,
                    component_base,
                    group,
                ));
                assert(added[k] == component_row(
                    item.deep_view(),
                    start_abs,
                    component_base,
                    group,
                    k,
                ));
            }
            let mut components: Vec<Row> = components;
            rows.append(&mut components);
            assert(rows.deep_view() =~= before + added);
            group = group.wrapping_add(1);
        }
    }
    sort_rows(&rows)
}

/// The rows of sub-phase sums with a span added to its slot, in slot order.
pub open spec fn slot_added(rows: Seq<(u64, u64)>, slot: u64, ms: u64) -> Seq<(u64, u64)>
    decreases rows.len(),
{
    if rows.len() == 0 {
        seq![(slot, ms)]
    } else if slot < rows[0].0 {
        seq![(slot, ms)] + rows
    } else if slot == rows[0].0 {
        seq![(slot, rows[0].1.wrapping_add(ms))] + rows.skip(1)
    } else {
        seq![rows[0]] + slot_added(rows.skip(1), slot, ms)
    }
}

/// The rows with the spans of an item added.
pub open spec fn spans_added(rows: Seq<(u64, u64)>, spans: Seq<(u64, u64)>, count: int) -> Seq<
    (u64, u64),
>
    decreases count,
{
    if count <= 0 {
        rows
    } else {
        let before = spans_added(rows, spans, count - 1);
        slot_added(before, spans[count - 1].0, spans[count - 1].1)
    }
}

/// The rows with the spans of the first `count` items added.
pub open spec fn items_added(rows: Seq<(u64, u64)>, items: Seq<ItemModel>, count: int) -> Seq<
    (u64, u64),
>
    decreases count,
{
    if count <= 0 {
        rows
    } else {
        let spans = items[count - 1].meta.spans;
        spans_added(items_added(rows, items, count - 1), spans, spans.len() as int)
    }
}

/// The rows of the spans of the first `count` nodes.
pub open spec fn nodes_added(nodes: Seq<NodeModel>, count: int) -> Seq<(u64, u64)>
    decreases count,
{
    if count <= 0 {
        seq![]
    } else {
        let items = nodes[count - 1].items;
        items_added(nodes_added(nodes, count - 1), items, items.len() as int)
    }
}

/// The sub-phase rows of a log.
pub open spec fn subphase_rows_of(log: LogModel) -> Seq<(u64, u64)> {
    nodes_added(log.nodes, log.nodes.len() as int)
}

fn add_slot(rows: &mut Vec<(u64, u64)>, slot: u64, ms: u64)
    ensures
        final(rows)@ == slot_added(old(rows)@, slot, ms),
{
    let ghost before = rows@;
    let mut at: usize = 0;
    assert(before.skip(0) =~= before);
    assert(before.take(0) + slot_added(before, slot, ms) =~= slot_added(before, slot, ms));
    while at < rows.len() && rows[at].0 < slot
        invariant
            at <= rows@.len(),
            rows@ == before,
            slot_added(before, slot, ms) == before.take(at as int) + slot_added(
                before.skip(at as int),
                slot,
                ms,
            ),
        decreases rows@.len() - at,
    {
        proof {
            let rest = before.skip(at as int);
            assert(rest.skip(1) =~= before.skip(at + 1));
            assert(before.take(at + 1) + slot_added(before.skip(at + 1), slot, ms)
                =~= before.take(at as int) + slot_added(rest, slot, ms));
        }
        at += 1;
    }
    let ghost rest = before.skip(at as int);
    if at < rows.len() && rows[at].0 == slot {
        let held: u64 = rows[at].1;
        rows[at] = (slot, held.wrapping_add(ms));
        assert(rows@ =~= before.take(at as int) + slot_added(rest, slot, ms));
    } else {
        rows.insert(at, (slot, ms));
        assert(rows@ =~= before.take(at as int) + slot_added(rest, slot, ms));
    }
}

/// Aggregates a block's per-item sub-phase spans into compact (slot, ms) rows referencing the
/// sub-phase template, summing each template slot across every item that carries it, in slot order.
/// The app segment items fill the segment slots and the leaf and internal items the recursion
/// slots, their owners already resolved into the slot each pair names. A block whose items carry no
/// spans yields no rows.
pub fn block_subphase_rows(log: &Log) -> (rows: Vec<(u64, u64)>)
    ensures
        rows@ == subphase_rows_of(log.deep_view()),
{
    let ghost nodes = log.deep_view().nodes;
    let mut rows: Vec<(u64, u64)> = Vec::new();
    for i in 0..log.nodes.len()
        invariant
            nodes == log.nodes.deep_view(),
            rows@ == nodes_added(nodes, i as int),
    {
        let ghost before = rows@;
        let list: &Vec<PipelineItem> = &log.nodes[i].items;
        let ghost items = list.deep_view();
        assert(nodes[i as int].items == items);
        for j in 0..list.len()
            invariant
                items == list.deep_view(),
                rows@ == items_added(before, items, j as int),
        {
            let item: &PipelineItem = &list[j];
            assert(items[j as int] == item.deep_view());
            let ghost held = rows@;
            for k in 0..item.meta.spans.len()
                invariant
                    rows@ == spans_added(held, item.meta.spans@, k as int),
            {
                let (slot, ms) = item.meta.spans[k];
                add_slot(&mut rows, slot, ms);
            }
        }
    }
    rows
}

/// Whether any item of a log carries a breakdown.
pub open spec fn log_has_spans(log: LogModel) -> bool {
    exists|i: int, j: int|
        #![trigger log.nodes[i].items[j]]
        0 <= i < log.nodes.len() && 0 <= j < log.nodes[i].items.len()
            && log.nodes[i].items[j].meta.spans.len() > 0
}

/// Whether any item across the run's logs carries a log-derived sub-phase breakdown.
pub open spec fn spans_present(logs: Seq<LogModel>) -> bool {
    exists|i: int| 0 <= i < logs.len() && log_has_spans(#[trigger] logs[i])
}

fn has_spans(log: &Log) -> (yes: bool)
    ensures
        yes == log_has_spans(log.deep_view()),
{
    let ghost model = log.deep_view();
    for i in 0..log.nodes.len()
        invariant
            model == log.deep_view(),
            forall|a: int, b: int|
                #![trigger model.nodes[a].items[b]]
                0 <= a < i && 0 <= b < model.nodes[a].items.len()
                    ==> model.nodes[a].items[b].meta.spans.len() == 0,
    {
        let items: &Vec<PipelineItem> = &log.nodes[i].items;
        assert(model.nodes[i as int].items == items.deep_view());
        for j in 0..items.len()
            invariant
                model == log.deep_view(),
                i < log.nodes@.len(),
                model.nodes[i as int].items == items.deep_view(),
                forall|b: int|
                    #![trigger model.nodes[i as int].items[b]]
                    0 <= b < j ==> model.nodes[i as int].items[b].meta.spans.len() == 0,
        {
            assert(model.nodes[i as int].items[j as int] == items@[j as int].deep_view());
            if items[j].meta.spans.len() > 0 {
                return true;
            }
        }
    }
    false
}

/// Whether any item across the run's logs carries a log-derived sub-phase breakdown, the condition
/// under which the sub-phase template rides the document.
pub fn any_log_spans(logs: &Vec<Log>) -> (yes: bool)
    ensures
        yes == spans_present(logs.deep_view()),
{
    for i in 0..logs.len()
        invariant
            forall|k: int|
                0 <= k < i ==> !log_has_spans(#[trigger] logs.deep_view()[k]),
    {
        assert(logs.deep_view()[i as int] == logs@[i as int].deep_view());
        if has_spans(&logs[i]) {
            return true;
        }
    }
    false
}

} // verus!
