//! What holds of every pipeline row and every sub-phase row.

use vstd::prelude::*;

use crate::log::{ItemModel, LogModel, MetaModel, NodeModel};
use crate::rows::{
    component_rows_of, item_keys, item_row, items_added, lemma_span_sum_grows, nodes_added,
    overruns, packable, row_keys, rows_of, rows_upto, slot_added, sorted_items, span_end, span_room,
    spans_added, subphase_rows_of, RowModel,
};
use crate::sort::{comes_before, key_less, lemma_arranged, lemma_stable_order_of, stable_order};

verus! {

/// The components of an item touch: the first starts where the item's window does, and each of the
/// others where the one before it ends.
pub proof fn components_touch(
    item: ItemModel,
    start_abs: i64,
    component_base: usize,
    group: u64,
    step: int,
)
    requires
        0 <= step < item.meta.spans.len(),
        item.meta.spans_window is Some,
    ensures
        ({
            let rows = component_rows_of(item, start_abs, component_base, group);
            if step == 0 {
                rows[0].0[1] == (item.meta.spans_window->0).0.wrapping_sub(start_abs)
            } else {
                rows[step].0[1] == rows[step - 1].0[1].wrapping_add(rows[step - 1].0[2])
            }
        }),
{
    let base = (item.meta.spans_window->0).0.wrapping_sub(start_abs);
    let (from, to) = (span_end(item.meta, step - 1), span_end(item.meta, step));
    assert(base.wrapping_add(from).wrapping_add(to.wrapping_sub(from)) == base.wrapping_add(to));
    assert(base.wrapping_add(0) == base);
}

/// A breakdown that fits its window packs at its exact durations and stays inside the window.
pub proof fn fitting_components_stay_inside(meta: MetaModel, step: int)
    requires
        0 <= step < meta.spans.len(),
        meta.spans_window is Some,
        !overruns(meta),
    ensures
        0 <= span_end(meta, step) <= span_end(meta, step + 1) <= span_room(meta.spans_window->0),
        span_end(meta, step + 1) - span_end(meta, step) == meta.spans[step].1,
{
    lemma_span_sum_grows(meta.spans, step, step + 1);
    lemma_span_sum_grows(meta.spans, step + 1, meta.spans.len() as int);
}

/// A breakdown that overruns its window is scaled to fit, so no component has a negative duration and
/// none draws past the window.
pub proof fn overrunning_components_stay_inside(meta: MetaModel, step: int)
    requires
        0 <= step < meta.spans.len(),
        packable(meta),
        overruns(meta),
    ensures
        0 <= span_end(meta, step) <= span_end(meta, step + 1) <= span_room(meta.spans_window->0),
{
    let ends = meta.scaled_ends->0;
    assert(0 <= ends[step] <= span_room(meta.spans_window->0));
    if step > 0 {
        assert(0 <= ends[step - 1] <= ends[step]);
    }
}

/// The components of an item cover its window from the start without a gap and never leave it: every
/// duration is at least zero, and the last component ends at or before the end of the window.
pub proof fn components_lie_in_the_window(
    item: ItemModel,
    start_abs: i64,
    component_base: usize,
    group: u64,
    step: int,
)
    requires
        0 <= step < item.meta.spans.len(),
        packable(item.meta),
        (item.meta.spans_window->0).0 <= (item.meta.spans_window->0).1,
        (item.meta.spans_window->0).1 - (item.meta.spans_window->0).0 <= i64::MAX,
        i64::MIN <= (item.meta.spans_window->0).0 - start_abs,
        (item.meta.spans_window->0).1 - start_abs <= i64::MAX,
    ensures
        ({
            let (start, end) = item.meta.spans_window->0;
            let row = component_rows_of(item, start_abs, component_base, group)[step].0;
            &&& start - start_abs <= row[1]
            &&& row[2] >= 0
            &&& row[1] + row[2] <= end - start_abs
            &&& !overruns(item.meta) ==> row[2] == item.meta.spans[step].1
        }),
{
    if overruns(item.meta) {
        overrunning_components_stay_inside(item.meta, step);
    } else {
        fitting_components_stay_inside(item.meta, step);
    }
}

/// A node's rows sort by start and then by kind.
pub proof fn rows_sort_by_start_then_kind(
    items: Seq<ItemModel>,
    start_abs: i64,
    component_base: usize,
    first: int,
    second: int,
)
    requires
        rows_upto(
            sorted_items(items),
            start_abs,
            component_base,
            items.len() as int,
        ).0.len() <= usize::MAX,
        0 <= first < second < rows_of(items, start_abs, component_base).len(),
    ensures
        ({
            let rows = rows_of(items, start_abs, component_base);
            let (left, right) = (rows[first].0, rows[second].0);
            !key_less((right[1], right[0]), (left[1], left[0]))
        }),
{
    let rows = rows_upto(sorted_items(items), start_abs, component_base, items.len() as int).0;
    let keys = row_keys(rows);
    lemma_stable_order_of(keys);
    let order = stable_order(keys);
    assert(comes_before(keys, order[first], order[second]));
    assert(order[first] < keys.len());
    assert(order[second] < keys.len());
}

/// Whether rows are in slot order, each slot once.
pub open spec fn in_slot_order(rows: Seq<(u64, u64)>) -> bool {
    forall|i: int, j: int| 0 <= i < j < rows.len() ==> (#[trigger] rows[i]).0 < (#[trigger] rows[j]).0
}

proof fn lemma_slot_added(rows: Seq<(u64, u64)>, slot: u64, ms: u64)
    requires
        in_slot_order(rows),
    ensures
        in_slot_order(slot_added(rows, slot, ms)),
        slot_added(rows, slot, ms).len() > 0,
        slot_added(rows, slot, ms)[0].0 == if rows.len() > 0 && rows[0].0 <= slot {
            rows[0].0
        } else {
            slot
        },
    decreases rows.len(),
{
    if rows.len() > 0 && rows[0].0 < slot {
        let rest = rows.skip(1);
        lemma_slot_added(rest, slot, ms);
        let tail = slot_added(rest, slot, ms);
        let all = slot_added(rows, slot, ms);
        assert(all == seq![rows[0]] + tail);
        assert forall|i: int, j: int| 0 <= i < j < all.len() implies (#[trigger] all[i]).0 < (
        #[trigger] all[j]).0 by {
            assert(all[j] == tail[j - 1]);
            if i == 0 {
                assert(rows[0].0 < tail[0].0) by {
                    if rest.len() > 0 {
                        assert(rows[0].0 < rows[1].0);
                    }
                }
                if j > 1 {
                    assert(tail[0].0 < tail[j - 1].0);
                }
            } else {
                assert(all[i] == tail[i - 1]);
            }
        }
    } else if rows.len() > 0 && slot < rows[0].0 {
        let all = slot_added(rows, slot, ms);
        assert(all == seq![(slot, ms)] + rows);
        assert forall|i: int, j: int| 0 <= i < j < all.len() implies (#[trigger] all[i]).0 < (
        #[trigger] all[j]).0 by {
            assert(all[j] == rows[j - 1]);
            if i > 0 {
                assert(all[i] == rows[i - 1]);
            } else if j > 1 {
                assert(rows[0].0 < rows[j - 1].0);
            }
        }
    } else if rows.len() > 0 {
        let all = slot_added(rows, slot, ms);
        assert forall|i: int, j: int| 0 <= i < j < all.len() implies (#[trigger] all[i]).0 < (
        #[trigger] all[j]).0 by {
            assert(rows[i].0 < rows[j].0);
        }
    }
}

proof fn lemma_spans_added(rows: Seq<(u64, u64)>, spans: Seq<(u64, u64)>, count: int)
    requires
        in_slot_order(rows),
    ensures
        in_slot_order(spans_added(rows, spans, count)),
    decreases count,
{
    if count > 0 {
        lemma_spans_added(rows, spans, count - 1);
        lemma_slot_added(
            spans_added(rows, spans, count - 1),
            spans[count - 1].0,
            spans[count - 1].1,
        );
    }
}

proof fn lemma_items_added(rows: Seq<(u64, u64)>, items: Seq<ItemModel>, count: int)
    requires
        in_slot_order(rows),
    ensures
        in_slot_order(items_added(rows, items, count)),
    decreases count,
{
    if count > 0 {
        lemma_items_added(rows, items, count - 1);
        let spans = items[count - 1].meta.spans;
        lemma_spans_added(items_added(rows, items, count - 1), spans, spans.len() as int);
    }
}

proof fn lemma_nodes_added(nodes: Seq<NodeModel>, count: int)
    ensures
        in_slot_order(nodes_added(nodes, count)),
    decreases count,
{
    if count > 0 {
        lemma_nodes_added(nodes, count - 1);
        let items = nodes[count - 1].items;
        lemma_items_added(nodes_added(nodes, count - 1), items, items.len() as int);
    }
}

/// A block's sub-phase rows name each template slot once, in slot order.
pub proof fn subphase_rows_are_in_slot_order(log: LogModel)
    ensures
        in_slot_order(subphase_rows_of(log)),
{
    lemma_nodes_added(log.nodes, log.nodes.len() as int);
}

/// A monolithic row reads kind, start, duration, second start, and second duration. It stops where the
/// item does: a first half left open ends it after the start, an item of one half after the duration,
/// and a second half left open after the second start. The starts are offsets from the block's start.
pub proof fn monolithic_row_reads_as_the_item(item: ItemModel, start_abs: i64)
    requires
        item.kind <= i64::MAX,
        i64::MIN <= item.first.0 - start_abs <= i64::MAX,
        item.first.1 is Some ==> i64::MIN <= item.first.1->0 - item.first.0 <= i64::MAX,
        item.second is Some ==> i64::MIN <= (item.second->0).0 - start_abs <= i64::MAX,
        item.second is Some && (item.second->0).1 is Some ==> i64::MIN <= (item.second->0).1->0 - (
        item.second->0).0 <= i64::MAX,
    ensures
        ({
            let cells = item_row(item, start_abs).0;
            &&& cells.len() == (if item.first.1 is None {
                2int
            } else if item.second is None {
                3
            } else if (item.second->0).1 is None {
                4
            } else {
                5
            })
            &&& cells[0] == item.kind
            &&& start_abs + cells[1] == item.first.0
            &&& cells.len() > 2 ==> item.first.0 + cells[2] == item.first.1->0
            &&& cells.len() > 3 ==> start_abs + cells[3] == (item.second->0).0
            &&& cells.len() > 4 ==> (item.second->0).0 + cells[4] == (item.second->0).1->0
        }),
{
}

/// A monolithic row carries the item's id and heavy markers as they are and no group, and no object
/// where the item has none of them.
pub proof fn monolithic_row_carries_the_metadata(item: ItemModel, start_abs: i64)
    ensures
        match item_row(item, start_abs).1 {
            Some(object) => {
                &&& object.id == item.meta.id
                &&& object.cpu_heavy == item.meta.cpu_heavy
                &&& object.gpu_heavy == item.meta.gpu_heavy
                &&& object.group is None
            },
            None => item.meta.id is None && item.meta.cpu_heavy is None && item.meta.gpu_heavy is None,
        },
        item.meta.id is None && item.meta.cpu_heavy is None && item.meta.gpu_heavy is None
            ==> item_row(item, start_abs).1 is None,
{
}

/// A component row names the component kind of its sub-step's slot, and carries the item's id and the
/// group that its siblings share. There is one per sub-step, in their order.
pub proof fn component_rows_name_their_slots(
    item: ItemModel,
    start_abs: i64,
    component_base: usize,
    group: u64,
    step: int,
)
    requires
        0 <= step < item.meta.spans.len(),
        component_base + item.meta.spans[step].0 <= usize::MAX,
        component_base + item.meta.spans[step].0 <= i64::MAX,
    ensures
        ({
            let rows = component_rows_of(item, start_abs, component_base, group);
            &&& rows.len() == item.meta.spans.len()
            &&& rows[step].0.len() == 3
            &&& rows[step].0[0] == component_base + item.meta.spans[step].0
            &&& rows[step].1 is Some
            &&& rows[step].1->0.id == item.meta.id
            &&& rows[step].1->0.group == Some(group)
            &&& rows[step].1->0.cpu_heavy is None && rows[step].1->0.gpu_heavy is None
        }),
{
}

/// The number of rows that an item takes: one, or one per sub-step of its breakdown.
pub open spec fn rows_taken(item: ItemModel) -> int {
    if item.meta.spans.len() == 0 {
        1
    } else {
        item.meta.spans.len() as int
    }
}

/// The number of rows that items take.
pub open spec fn all_rows_taken(items: Seq<ItemModel>) -> int
    decreases items.len(),
{
    if items.len() == 0 {
        0
    } else {
        all_rows_taken(items.drop_last()) + rows_taken(items.last())
    }
}

proof fn lemma_rows_upto(
    items: Seq<ItemModel>,
    start_abs: i64,
    component_base: usize,
    count: int,
)
    requires
        0 <= count <= items.len(),
    ensures
        ({
            let rows = rows_upto(items, start_abs, component_base, count).0;
            &&& rows.len() == all_rows_taken(items.take(count))
            &&& forall|i: int|
                0 <= i < count && (#[trigger] items[i]).meta.spans.len() == 0 ==> rows.contains(
                    item_row(items[i], start_abs),
                )
            &&& forall|i: int|
                0 <= i < count && (#[trigger] items[i]).meta.spans.len() > 0 ==> exists|group: u64|
                    all_among(
                        #[trigger] component_rows_of(items[i], start_abs, component_base, group),
                        rows,
                    )
        }),
    decreases count,
{
    if count > 0 {
        lemma_rows_upto(items, start_abs, component_base, count - 1);
        let (before, group) = rows_upto(items, start_abs, component_base, count - 1);
        let after = rows_upto(items, start_abs, component_base, count).0;
        let last = items[count - 1];
        assert(items.take(count).drop_last() =~= items.take(count - 1));
        assert(items.take(count).last() == last);
        assert forall|row: RowModel| before.contains(row) implies #[trigger] after.contains(row) by {
            let k = choose|k: int| 0 <= k < before.len() && before[k] == row;
            assert(after[k] == row);
        }
        assert forall|i: int|
            0 <= i < count && (#[trigger] items[i]).meta.spans.len() == 0 implies after.contains(
            item_row(items[i], start_abs),
        ) by {
            if i < count - 1 {
                assert(before.contains(item_row(items[i], start_abs)));
            } else {
                assert(after[before.len() as int] == item_row(items[i], start_abs));
            }
        }
        assert forall|i: int|
            0 <= i < count && (#[trigger] items[i]).meta.spans.len() > 0 implies exists|group: u64|
            all_among(
                #[trigger] component_rows_of(items[i], start_abs, component_base, group),
                after,
            ) by {
            if i < count - 1 {
                let own = choose|own: u64|
                    all_among(
                        #[trigger] component_rows_of(items[i], start_abs, component_base, own),
                        before,
                    );
                let rows = component_rows_of(items[i], start_abs, component_base, own);
                assert forall|k: int| 0 <= k < rows.len() implies after.contains(
                    #[trigger] rows[k],
                ) by {
                    assert(before.contains(rows[k]));
                }
                assert(all_among(rows, after));
            } else {
                let rows = component_rows_of(items[i], start_abs, component_base, group);
                assert forall|k: int| 0 <= k < rows.len() implies after.contains(
                    #[trigger] rows[k],
                ) by {
                    assert(after[before.len() + k] == rows[k]);
                }
                assert(all_among(rows, after));
            }
        }
    }
}

/// Whether rows are all among others.
pub open spec fn all_among(rows: Seq<RowModel>, others: Seq<RowModel>) -> bool {
    forall|k: int| 0 <= k < rows.len() ==> others.contains(#[trigger] rows[k])
}

/// Every item of a node is drawn: one without a breakdown by its own row, and one with a breakdown by
/// the component rows of one group.
pub proof fn every_item_is_drawn(
    items: Seq<ItemModel>,
    start_abs: i64,
    component_base: usize,
    item: int,
)
    requires
        items.len() <= usize::MAX,
        rows_upto(
            sorted_items(items),
            start_abs,
            component_base,
            items.len() as int,
        ).0.len() <= usize::MAX,
        0 <= item < items.len(),
    ensures
        ({
            let rows = rows_of(items, start_abs, component_base);
            &&& items[item].meta.spans.len() == 0 ==> rows.contains(
                item_row(items[item], start_abs),
            )
            &&& items[item].meta.spans.len() > 0 ==> exists|group: u64|
                all_among(
                    #[trigger] component_rows_of(items[item], start_abs, component_base, group),
                    rows,
                )
            &&& rows.len() == all_rows_taken(sorted_items(items))
        }),
{
    let sorted = sorted_items(items);
    lemma_arranged(items, item_keys(items));
    let drawn = rows_upto(sorted, start_abs, component_base, items.len() as int).0;
    lemma_rows_upto(sorted, start_abs, component_base, items.len() as int);
    assert(sorted.take(items.len() as int) =~= sorted);
    lemma_arranged(drawn, row_keys(drawn));
    assert(items.contains(items[item]));
    assert(sorted.contains(items[item]));
    let i = choose|i: int| 0 <= i < sorted.len() && sorted[i] == items[item];
    let rows = rows_of(items, start_abs, component_base);
    if items[item].meta.spans.len() > 0 {
        assert(sorted[i].meta.spans.len() > 0);
        let group = choose|group: u64|
            all_among(
                #[trigger] component_rows_of(sorted[i], start_abs, component_base, group),
                drawn,
            );
        let own = component_rows_of(items[item], start_abs, component_base, group);
        assert forall|k: int| 0 <= k < own.len() implies rows.contains(#[trigger] own[k]) by {
            assert(drawn.contains(own[k]));
        }
        assert(all_among(own, rows));
    } else {
        assert(sorted[i].meta.spans.len() == 0);
        assert(drawn.contains(item_row(sorted[i], start_abs)));
    }
}

/// The milliseconds of a slot among spans.
pub open spec fn spans_total(spans: Seq<(u64, u64)>, slot: u64) -> int
    decreases spans.len(),
{
    if spans.len() == 0 {
        0
    } else {
        spans_total(spans.drop_last(), slot) + if spans.last().0 == slot {
            spans.last().1 as int
        } else {
            0
        }
    }
}

/// The milliseconds of a slot among items.
pub open spec fn items_total(items: Seq<ItemModel>, slot: u64) -> int
    decreases items.len(),
{
    if items.len() == 0 {
        0
    } else {
        items_total(items.drop_last(), slot) + spans_total(items.last().meta.spans, slot)
    }
}

/// The milliseconds of a slot among nodes.
pub open spec fn nodes_total(nodes: Seq<NodeModel>, slot: u64) -> int
    decreases nodes.len(),
{
    if nodes.len() == 0 {
        0
    } else {
        nodes_total(nodes.drop_last(), slot) + items_total(nodes.last().items, slot)
    }
}

/// The milliseconds that rows hold for a slot, none where they do not list it.
pub open spec fn slot_ms(rows: Seq<(u64, u64)>, slot: u64) -> int
    decreases rows.len(),
{
    if rows.len() == 0 {
        0
    } else if rows[0].0 == slot {
        rows[0].1 as int
    } else {
        slot_ms(rows.skip(1), slot)
    }
}

proof fn lemma_slot_ms_absent(rows: Seq<(u64, u64)>, slot: u64)
    requires
        forall|i: int| 0 <= i < rows.len() ==> (#[trigger] rows[i]).0 > slot,
    ensures
        slot_ms(rows, slot) == 0,
    decreases rows.len(),
{
    if rows.len() > 0 {
        assert(rows[0].0 > slot);
        let rest = rows.skip(1);
        assert forall|i: int| 0 <= i < rest.len() implies (#[trigger] rest[i]).0 > slot by {
            assert(rows[i + 1].0 > slot);
        }
        lemma_slot_ms_absent(rest, slot);
    }
}

proof fn lemma_slot_added_ms(rows: Seq<(u64, u64)>, slot: u64, ms: u64, other: u64)
    requires
        in_slot_order(rows),
        slot_ms(rows, slot) + ms <= u64::MAX,
    ensures
        slot_ms(slot_added(rows, slot, ms), other) == slot_ms(rows, other) + if other == slot {
            ms as int
        } else {
            0
        },
    decreases rows.len(),
{
    reveal_with_fuel(slot_ms, 3);
    let after = slot_added(rows, slot, ms);
    if rows.len() == 0 {
        assert(after.skip(1) =~= seq![]);
    } else if slot < rows[0].0 {
        assert(after.skip(1) =~= rows);
        if other == slot {
            assert forall|i: int| 0 <= i < rows.len() implies (#[trigger] rows[i]).0 > slot by {
                if i > 0 {
                    assert(rows[0].0 < rows[i].0);
                }
            }
            lemma_slot_ms_absent(rows, slot);
        }
    } else if slot == rows[0].0 {
        assert(after.skip(1) =~= rows.skip(1));
    } else {
        let rest = rows.skip(1);
        assert forall|i: int, j: int| 0 <= i < j < rest.len() implies (#[trigger] rest[i]).0 < (
        #[trigger] rest[j]).0 by {
            assert(rows[i + 1].0 < rows[j + 1].0);
        }
        lemma_slot_added_ms(rest, slot, ms, other);
        assert(after =~= seq![rows[0]] + slot_added(rest, slot, ms));
        assert(after.skip(1) =~= slot_added(rest, slot, ms));
        assert(after[0] == rows[0]);
    }
}

proof fn lemma_totals_grow(spans: Seq<(u64, u64)>, slot: u64)
    ensures
        0 <= spans_total(spans, slot),
    decreases spans.len(),
{
    if spans.len() > 0 {
        lemma_totals_grow(spans.drop_last(), slot);
    }
}

proof fn lemma_items_total_grows(items: Seq<ItemModel>, slot: u64)
    ensures
        0 <= items_total(items, slot),
    decreases items.len(),
{
    if items.len() > 0 {
        lemma_items_total_grows(items.drop_last(), slot);
        lemma_totals_grow(items.last().meta.spans, slot);
    }
}

proof fn lemma_spans_added_ms(
    rows: Seq<(u64, u64)>,
    spans: Seq<(u64, u64)>,
    count: int,
    slot: u64,
)
    requires
        in_slot_order(rows),
        0 <= count <= spans.len(),
        forall|other: u64|
            slot_ms(rows, other) + #[trigger] spans_total(spans.take(count), other) <= u64::MAX,
    ensures
        slot_ms(spans_added(rows, spans, count), slot) == slot_ms(rows, slot) + spans_total(
            spans.take(count),
            slot,
        ),
    decreases count,
{
    if count > 0 {
        let less = spans.take(count - 1);
        let more = spans.take(count);
        assert(more.drop_last() =~= less);
        assert(more.last() == spans[count - 1]);
        let own = spans[count - 1].0;
        assert forall|other: u64|
            slot_ms(rows, other) + #[trigger] spans_total(less, other) <= u64::MAX by {
            assert(slot_ms(rows, other) + spans_total(more, other) <= u64::MAX);
        }
        lemma_spans_added(rows, spans, count - 1);
        lemma_spans_added_ms(rows, spans, count - 1, slot);
        lemma_spans_added_ms(rows, spans, count - 1, own);
        assert(slot_ms(rows, own) + spans_total(more, own) <= u64::MAX);
        lemma_slot_added_ms(
            spans_added(rows, spans, count - 1),
            own,
            spans[count - 1].1,
            slot,
        );
    } else {
        assert(spans.take(0) =~= seq![]);
    }
}

proof fn lemma_items_added_ms(
    rows: Seq<(u64, u64)>,
    items: Seq<ItemModel>,
    count: int,
    slot: u64,
)
    requires
        in_slot_order(rows),
        0 <= count <= items.len(),
        forall|other: u64|
            slot_ms(rows, other) + #[trigger] items_total(items.take(count), other) <= u64::MAX,
    ensures
        slot_ms(items_added(rows, items, count), slot) == slot_ms(rows, slot) + items_total(
            items.take(count),
            slot,
        ),
    decreases count,
{
    if count > 0 {
        let less = items.take(count - 1);
        let more = items.take(count);
        assert(more.drop_last() =~= less);
        assert(more.last() == items[count - 1]);
        let spans = items[count - 1].meta.spans;
        let before = items_added(rows, items, count - 1);
        assert(spans.take(spans.len() as int) =~= spans);
        assert forall|other: u64|
            slot_ms(rows, other) + #[trigger] items_total(less, other) <= u64::MAX by {
            assert(slot_ms(rows, other) + items_total(more, other) <= u64::MAX);
            lemma_totals_grow(spans, other);
        }
        lemma_items_added(rows, items, count - 1);
        lemma_items_added_ms(rows, items, count - 1, slot);
        assert forall|other: u64|
            slot_ms(before, other) + #[trigger] spans_total(
                spans.take(spans.len() as int),
                other,
            ) <= u64::MAX by {
            lemma_items_added_ms(rows, items, count - 1, other);
            assert(slot_ms(rows, other) + items_total(more, other) <= u64::MAX);
        }
        lemma_spans_added_ms(before, spans, spans.len() as int, slot);
    } else {
        assert(items.take(0) =~= seq![]);
    }
}

proof fn lemma_nodes_added_ms(nodes: Seq<NodeModel>, count: int, slot: u64)
    requires
        0 <= count <= nodes.len(),
        forall|other: u64| #[trigger] nodes_total(nodes.take(count), other) <= u64::MAX,
    ensures
        slot_ms(nodes_added(nodes, count), slot) == nodes_total(nodes.take(count), slot),
    decreases count,
{
    if count > 0 {
        let less = nodes.take(count - 1);
        let more = nodes.take(count);
        assert(more.drop_last() =~= less);
        assert(more.last() == nodes[count - 1]);
        let items = nodes[count - 1].items;
        let before = nodes_added(nodes, count - 1);
        assert(items.take(items.len() as int) =~= items);
        assert forall|other: u64| #[trigger] nodes_total(less, other) <= u64::MAX by {
            assert(nodes_total(more, other) <= u64::MAX);
            lemma_items_total_grows(items, other);
        }
        lemma_nodes_added(nodes, count - 1);
        lemma_nodes_added_ms(nodes, count - 1, slot);
        assert forall|other: u64|
            slot_ms(before, other) + #[trigger] items_total(
                items.take(items.len() as int),
                other,
            ) <= u64::MAX by {
            lemma_nodes_added_ms(nodes, count - 1, other);
            assert(nodes_total(more, other) <= u64::MAX);
        }
        lemma_items_added_ms(before, items, items.len() as int, slot);
    } else {
        assert(nodes.take(0) =~= seq![]);
    }
}

/// A block's sub-phase row of a slot is the sum of that slot over every span of every item of every
/// node, where the sums fit.
pub proof fn subphase_rows_sum_their_slots(log: LogModel, slot: u64)
    requires
        forall|other: u64| #[trigger] nodes_total(log.nodes, other) <= u64::MAX,
    ensures
        slot_ms(subphase_rows_of(log), slot) == nodes_total(log.nodes, slot),
{
    let count = log.nodes.len() as int;
    assert(log.nodes.take(count) =~= log.nodes);
    lemma_nodes_added_ms(log.nodes, count, slot);
}

/// The number of items that carry a breakdown.
pub open spec fn breakdowns(items: Seq<ItemModel>) -> int
    decreases items.len(),
{
    if items.len() == 0 {
        0
    } else {
        breakdowns(items.drop_last()) + if items.last().meta.spans.len() > 0 {
            1int
        } else {
            0
        }
    }
}

/// The component rows of an item share a group of their own, the number of breakdowns drawn before it:
/// an item with a breakdown adds its component rows of that group behind the rows before it, and one
/// without adds its own row.
pub proof fn each_breakdown_has_its_own_group(
    items: Seq<ItemModel>,
    start_abs: i64,
    component_base: usize,
    count: int,
)
    requires
        0 < count <= items.len(),
        items.len() < u64::MAX,
    ensures
        ({
            let before = rows_upto(items, start_abs, component_base, count - 1).0;
            let after = rows_upto(items, start_abs, component_base, count).0;
            let item = items[count - 1];
            let group = breakdowns(items.take(count - 1));
            &&& 0 <= group < count
            &&& item.meta.spans.len() == 0 ==> after == before.push(item_row(item, start_abs))
            &&& item.meta.spans.len() > 0 ==> after == before + component_rows_of(
                item,
                start_abs,
                component_base,
                group as u64,
            )
        }),
{
    lemma_groups(items, start_abs, component_base, count - 1);
}

proof fn lemma_groups(
    items: Seq<ItemModel>,
    start_abs: i64,
    component_base: usize,
    count: int,
)
    requires
        0 <= count <= items.len(),
        items.len() < u64::MAX,
    ensures
        rows_upto(items, start_abs, component_base, count).1 == breakdowns(items.take(count)),
        0 <= breakdowns(items.take(count)) <= count,
    decreases count,
{
    if count > 0 {
        lemma_groups(items, start_abs, component_base, count - 1);
        assert(items.take(count).drop_last() =~= items.take(count - 1));
        assert(items.take(count).last() == items[count - 1]);
    } else {
        assert(items.take(0) =~= seq![]);
    }
}

} // verus!
