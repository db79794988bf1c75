//! What holds of every pairing of a job's marker brackets.

use vstd::prelude::*;

use crate::log::{no_meta, ItemModel};
use crate::text_map::{at_or, lemma_sorted_keys, sorted_keys, strictly_sorted};
use crate::zisk::kinds::{
    classified, compute_kind, kind_row, witness_kind, Claim, HitModel, Side, KIND_COUNT,
};
use crate::zisk::pairing::{
    all_items, claimed, closed_state, dangling_all, dangling_under, earliest, earliest_of_all,
    item_of, late_attached, least_distance, lone, lone_held, lone_held_all, lone_queued,
    lone_queued_all, nearest, new_pairing, opened, or_empty, paired_open, pending_under, policy,
    popped, queue_under, stored, suffix_of, with_pending, Open, Pairing,
};
use crate::zisk::pipeline::{
    contributes, routed_close, slot_closed, slot_distance, slot_opened, Slots,
};

verus! {

/// How far an open lies from the moment that a close names, its own moment less the printed duration.
pub open spec fn away(open: Open, close_ts: i64, duration: i64) -> int {
    if close_ts - duration >= open.ts {
        close_ts - duration - open.ts
    } else {
        open.ts - (close_ts - duration)
    }
}

proof fn lemma_nearest(pending: Seq<Open>, close_ts: i64, duration: i64, count: int)
    requires
        1 <= count <= pending.len(),
    ensures
        ({
            let at = nearest(pending, close_ts, duration, count);
            &&& 0 <= at < count
            &&& forall|i: int|
                0 <= i < count ==> {
                    let (own, other) = (
                        away(pending[at], close_ts, duration),
                        away(#[trigger] pending[i], close_ts, duration),
                    );
                    own < other || own == other && pending[at].ts <= pending[i].ts
                }
        }),
    decreases count,
{
    if count > 1 {
        lemma_nearest(pending, close_ts, duration, count - 1);
    }
}

/// A close with a printed duration pairs with the pending open that lies nearest to the moment that it
/// names, and of two as near with the earlier; without a duration it pairs with the first.
pub proof fn close_pairs_with_the_nearest_open(
    pending: Seq<Open>,
    close_ts: i64,
    duration: Option<i64>,
    other: int,
)
    requires
        0 <= other < pending.len(),
    ensures
        ({
            let at = paired_open(pending, close_ts, duration);
            &&& 0 <= at < pending.len()
            &&& duration is None ==> at == 0
            &&& duration is Some ==> {
                let (own, that) = (
                    away(pending[at], close_ts, duration->0),
                    away(pending[other], close_ts, duration->0),
                );
                own < that || own == that && pending[at].ts <= pending[other].ts
            }
        }),
{
    if duration is Some {
        lemma_nearest(pending, close_ts, duration->0, pending.len() as int);
    }
}

proof fn lemma_earliest(pending: Seq<Open>, count: int)
    requires
        0 <= count <= pending.len(),
    ensures
        match earliest(pending, count) {
            Some(at) => 0 <= at < count && pending[at].claimed is None && forall|i: int|
                0 <= i < count && (#[trigger] pending[i]).claimed is None ==> pending[at].ts
                    <= pending[i].ts,
            None => forall|i: int| 0 <= i < count ==> (#[trigger] pending[i]).claimed is Some,
        },
    decreases count,
{
    if count > 0 {
        lemma_earliest(pending, count - 1);
    }
}

/// A late witness goes to the earliest of the opens that claimed none, and to none only where each
/// claimed one.
pub proof fn late_witness_goes_to_the_earliest_unclaimed(pending: Seq<Open>)
    ensures
        match earliest(pending, pending.len() as int) {
            Some(at) => 0 <= at < pending.len() && pending[at].claimed is None && forall|i: int|
                0 <= i < pending.len() && (#[trigger] pending[i]).claimed is None ==> pending[at].ts
                    <= pending[i].ts,
            None => forall|i: int| 0 <= i < pending.len() ==> (#[trigger] pending[i]).claimed is Some,
        },
{
    lemma_earliest(pending, pending.len() as int);
}

/// A queue of witnesses is first in, first out: the oldest is taken, the rest stay in their order, and
/// a stored witness comes last.
pub proof fn witnesses_queue_in_order(state: Pairing, kind: int, tag: Seq<char>)
    requires
        0 <= kind < state.queues.len(),
    ensures
        ({
            let queue = queue_under(state, kind, tag);
            let (after, taken) = popped(state, kind, tag);
            &&& queue.len() == 0 ==> taken is None && after == state
            &&& queue.len() > 0 ==> {
                &&& taken == Some(queue[0])
                &&& queue_under(after, kind, tag) == queue.skip(1)
                &&& after.opens == state.opens && after.witnesses == state.witnesses && after.items
                    == state.items && after.job == state.job && after.skip == state.skip
                &&& forall|other: int|
                    0 <= other < state.queues.len() && other != kind ==> #[trigger] after.queues[other]
                        == state.queues[other]
            }
        }),
{
}

/// An item made of an open that claimed a witness has the witness first and the open's own half
/// second. One made of an open that claimed none has the open's half alone. A missing end leaves the
/// open's half open.
pub proof fn item_is_the_witness_and_the_open(open: Open, end: Option<i64>)
    ensures
        ({
            let item = item_of(open, end);
            &&& item.kind == open.kind
            &&& item.meta == no_meta()
            &&& open.claimed is None ==> item.first == (open.ts, end) && item.second is None
            &&& open.claimed is Some ==> item.first == ((open.claimed->0).0, Some(
                (open.claimed->0).1,
            )) && item.second == Some((open.ts, end))
        }),
{
}

/// An open stands behind those that are pending under its stem and suffix, at its moment and under its
/// kind and side, and changes no other pending open and no item.
pub proof fn open_is_pending_until_it_closes(
    state: Pairing,
    hit: HitModel,
    tag: Seq<char>,
    ts: i64,
    stem: Seq<char>,
    suffix: Seq<char>,
)
    ensures
        ({
            let after = opened(state, hit, tag, ts);
            let own = suffix_of(hit, tag);
            let was = pending_under(state, hit.stem, own);
            let now = pending_under(after, hit.stem, own);
            &&& now.len() == was.len() + 1
            &&& now.drop_last() == was
            &&& now.last().kind == hit.kind && now.last().side == hit.side && now.last().ts == ts
            &&& hit.side == Side::Witness ==> now.last().claimed is None
            &&& stem != hit.stem || suffix != own ==> pending_under(after, stem, suffix)
                == pending_under(state, stem, suffix)
            &&& after.items == state.items && after.job == state.job && after.skip == state.skip
        }),
{
    let after = opened(state, hit, tag, ts);
    let own = suffix_of(hit, tag);
    assert(pending_under(after, hit.stem, own).drop_last() =~= pending_under(
        state,
        hit.stem,
        own,
    ));
}

/// A close takes its open off the pending ones. A compute close adds the item of its open, ended at
/// the close, behind the items. A close without a pending open is dropped.
pub proof fn compute_close_makes_the_item(
    state: Pairing,
    hit: HitModel,
    tag: Seq<char>,
    ts: i64,
    duration: Option<i64>,
)
    ensures
        ({
            let suffix = suffix_of(hit, tag);
            let pending = pending_under(state, hit.stem, suffix);
            let at = paired_open(pending, ts, duration);
            &&& pending.len() == 0 <==> closed_state(state, hit, tag, ts, duration) is None
            &&& pending.len() > 0 && pending[at].side == Side::Compute ==> {
                let after = closed_state(state, hit, tag, ts, duration)->0;
                &&& pending_under(after, hit.stem, suffix) == pending.remove(at)
                &&& after.items.len() == state.items.len() + 1
                &&& after.items.drop_last() == state.items
                &&& after.items.last() == item_of(pending[at], Some(ts))
                &&& after.witnesses == state.witnesses && after.queues == state.queues
            }
            &&& pending.len() > 0 && pending[at].side == Side::Witness ==> closed_state(
                state,
                hit,
                tag,
                ts,
                duration,
            )->0.items == state.items
        }),
{
    let suffix = suffix_of(hit, tag);
    let pending = pending_under(state, hit.stem, suffix);
    if pending.len() > 0 {
        let at = paired_open(pending, ts, duration);
        let after = closed_state(state, hit, tag, ts, duration)->0;
        if pending[at].side == Side::Compute {
            assert(after.items.drop_last() =~= state.items);
        }
    }
}

proof fn lemma_one_key<T>(key: Seq<char>, value: T)
    ensures
        sorted_keys(Map::<Seq<char>, T>::empty().insert(key, value)) == seq![key],
{
    let map = Map::<Seq<char>, T>::empty().insert(key, value);
    let keys = seq![key];
    assert(strictly_sorted(keys));
    assert forall|other: Seq<char>|
        #![trigger keys.contains(other)]
        #![trigger map.dom().contains(other)]
        keys.contains(other) <==> map.dom().contains(other) by {
        assert(keys[0] == key);
    }
    lemma_sorted_keys(keys, map);
}

/// A bracket of an unpaired kind makes one item, from its open to its close.
pub proof fn bracket_makes_one_item(
    job: Seq<char>,
    hit: HitModel,
    tag: Seq<char>,
    start: i64,
    end: i64,
    duration: Option<i64>,
)
    requires
        hit.side == Side::Compute,
        policy(hit.kind as int) is None,
    ensures
        ({
            let after = closed_state(
                opened(new_pairing(job, false), hit, tag, start),
                hit,
                tag,
                end,
                duration,
            );
            after is Some && after->0.items == seq![
                ItemModel {
                    kind: hit.kind,
                    first: (start, Some(end)),
                    second: None,
                    meta: no_meta(),
                },
            ]
        }),
{
    let state = opened(new_pairing(job, false), hit, tag, start);
    let suffix = suffix_of(hit, tag);
    let pending = pending_under(state, hit.stem, suffix);
    assert(pending =~= seq![Open { kind: hit.kind, side: hit.side, ts: start, claimed: None }]);
    if duration is Some {
        lemma_nearest(pending, end, duration->0, 1);
    }
    let after = closed_state(state, hit, tag, end, duration)->0;
    assert(after.items =~= seq![item_of(pending[0], Some(end))]);
}

/// Whether two markers are the two halves of one paired kind, of the same instance and tag.
pub open spec fn halves(witness: HitModel, compute: HitModel) -> bool {
    &&& witness.side == Side::Witness && compute.side == Side::Compute
    &&& witness.kind == compute.kind < KIND_COUNT
    &&& policy(compute.kind as int) is Some
    &&& compute.stem == kind_row(compute.kind as int).compute.text@
    &&& witness.stem != compute.stem
    &&& policy(compute.kind as int) == Some(Claim::ByX) ==> or_empty(witness.x) == or_empty(
        compute.x,
    ) && (kind_row(compute.kind as int).compute.numbered ==> compute.x is Some)
    &&& policy(compute.kind as int) == Some(Claim::TagFifo) ==> compute.x is None
}

/// A witness that closes before its compute bracket opens is the first half of the item that the
/// compute bracket makes.
pub proof fn witness_and_compute_make_one_item(
    job: Seq<char>,
    witness: HitModel,
    compute: HitModel,
    tag: Seq<char>,
    first: (i64, i64),
    second: (i64, i64),
)
    requires
        halves(witness, compute),
    ensures
        ({
            let state = opened(new_pairing(job, false), witness, tag, first.0);
            let closed = closed_state(state, witness, tag, first.1, None);
            let state = opened(closed->0, compute, tag, second.0);
            let after = closed_state(state, compute, tag, second.1, None);
            &&& closed is Some
            &&& after is Some
            &&& after->0.items == seq![
                ItemModel {
                    kind: compute.kind,
                    first: (first.0, Some(first.1)),
                    second: Some((second.0, Some(second.1))),
                    meta: no_meta(),
                },
            ]
        }),
{
    let fresh = new_pairing(job, false);
    let kind = compute.kind as int;
    let state = opened(fresh, witness, tag, first.0);
    let w = suffix_of(witness, tag);
    let pending = pending_under(state, witness.stem, w);
    assert(pending =~= seq![
        Open { kind: witness.kind, side: Side::Witness, ts: first.0, claimed: None },
    ]);
    let mid = with_pending(state, witness.stem, w, pending.remove(0));
    let stem = kind_row(kind).compute.text@;
    let pendings = at_or(mid.opens, stem, Map::empty());
    assert(pendings =~= Map::empty());
    lemma_no_keys::<Seq<Open>>();
    let x = or_empty(witness.x);
    assert(late_attached(mid, kind, x, tag, first) is None);
    let closed = stored(mid, kind, x, tag, first);
    assert(closed_state(state, witness, tag, first.1, None) == Some(closed));
    let (claimed_state, taken) = claimed(closed, kind, compute.x, tag);
    assert(taken == Some(first));
    let again = opened(closed, compute, tag, second.0);
    let c = suffix_of(compute, tag);
    assert(pending_under(claimed_state, compute.stem, c) =~= seq![]);
    let own = pending_under(again, compute.stem, c);
    assert(own =~= seq![
        Open { kind: compute.kind, side: Side::Compute, ts: second.0, claimed: Some(first) },
    ]);
    let after = closed_state(again, compute, tag, second.1, None)->0;
    assert(after.items =~= seq![item_of(own[0], Some(second.1))]);
}

proof fn lemma_no_keys<T>()
    ensures
        sorted_keys(Map::<Seq<char>, T>::empty()) == Seq::<Seq<char>>::empty(),
{
    let map = Map::<Seq<char>, T>::empty();
    let keys: Seq<Seq<char>> = seq![];
    assert(strictly_sorted(keys));
    assert forall|other: Seq<char>|
        #![trigger keys.contains(other)]
        #![trigger map.dom().contains(other)]
        keys.contains(other) <==> map.dom().contains(other) by {}
    lemma_sorted_keys(keys, map);
}

/// A witness that closes after its compute bracket opened still becomes the first half of the item
/// that the compute bracket makes.
pub proof fn late_witness_still_makes_one_item(
    job: Seq<char>,
    witness: HitModel,
    compute: HitModel,
    tag: Seq<char>,
    first: (i64, i64),
    second: (i64, i64),
)
    requires
        halves(witness, compute),
    ensures
        ({
            let state = opened(
                opened(new_pairing(job, false), witness, tag, first.0),
                compute,
                tag,
                second.0,
            );
            let closed = closed_state(state, witness, tag, first.1, None);
            let after = closed_state(closed->0, compute, tag, second.1, None);
            &&& closed is Some
            &&& after is Some
            &&& after->0.items == seq![
                ItemModel {
                    kind: compute.kind,
                    first: (first.0, Some(first.1)),
                    second: Some((second.0, Some(second.1))),
                    meta: no_meta(),
                },
            ]
        }),
{
    let fresh = new_pairing(job, false);
    let kind = compute.kind as int;
    let begun = opened(fresh, witness, tag, first.0);
    let state = opened(begun, compute, tag, second.0);
    let w = suffix_of(witness, tag);
    let c = suffix_of(compute, tag);
    assert(claimed(begun, kind, compute.x, tag).1 is None);
    assert(claimed(begun, kind, compute.x, tag).0 == begun);
    let pending = pending_under(state, witness.stem, w);
    assert(pending =~= seq![
        Open { kind: witness.kind, side: Side::Witness, ts: first.0, claimed: None },
    ]);
    let mid = with_pending(state, witness.stem, w, pending.remove(0));
    let stem = kind_row(kind).compute.text@;
    let pendings = at_or(mid.opens, stem, Map::empty());
    let list = seq![
        Open { kind: compute.kind, side: Side::Compute, ts: second.0, claimed: None },
    ];
    assert(pending_under(mid, stem, c) =~= list);
    assert(pendings =~= Map::empty().insert(c, list));
    lemma_one_key(c, list);
    lemma_earliest(list, 1);
    assert(earliest(list, 1) == Some(0int));
    reveal_with_fuel(earliest_of_all, 3);
    let x = or_empty(witness.x);
    let attached = late_attached(mid, kind, x, tag, first);
    assert(attached is Some);
    let closed = attached->0;
    let own = pending_under(closed, compute.stem, c);
    assert(own =~= seq![
        Open { kind: compute.kind, side: Side::Compute, ts: second.0, claimed: Some(first) },
    ]);
    let after = closed_state(closed, compute, tag, second.1, None)->0;
    assert(after.items =~= seq![item_of(own[0], Some(second.1))]);
}

/// What is left when a job ends is kept: a bracket that never closed dangles from its open, and a
/// witness that no compute bracket claimed stands alone.
pub proof fn leftovers_dangle_or_stand_alone(
    job: Seq<char>,
    hit: HitModel,
    tag: Seq<char>,
    start: i64,
)
    requires
        hit.side == Side::Witness || policy(hit.kind as int) is None,
    ensures
        all_items(opened(new_pairing(job, false), hit, tag, start)) == seq![
            ItemModel { kind: hit.kind, first: (start, None), second: None, meta: no_meta() },
        ],
        all_items(new_pairing(job, false)).len() == 0,
{
    let fresh = new_pairing(job, false);
    let state = opened(fresh, hit, tag, start);
    let suffix = suffix_of(hit, tag);
    let list = seq![Open { kind: hit.kind, side: hit.side, ts: start, claimed: None }];
    let inner = Map::<Seq<char>, Seq<Open>>::empty().insert(suffix, list);
    assert(state.opens =~= Map::empty().insert(hit.stem, inner)) by {
        assert(pending_under(fresh, hit.stem, suffix) =~= seq![]);
        assert(pending_under(fresh, hit.stem, suffix).push(list[0]) =~= list);
        assert(at_or(fresh.opens, hit.stem, Map::empty()).insert(suffix, list) =~= inner);
    }
    lemma_one_key(suffix, list);
    lemma_one_key(hit.stem, inner);
    lemma_no_keys::<Map<Seq<char>, Seq<Open>>>();
    reveal_with_fuel(dangling_all, 3);
    reveal_with_fuel(dangling_under, 3);
    assert(dangling_under(inner, 1) =~= seq![item_of(list[0], None)]);
    assert(dangling_all(state.opens, 1) =~= seq![item_of(list[0], None)]);
    lemma_no_lone(KIND_COUNT as int);
    assert(state.witnesses == fresh.witnesses && state.queues == fresh.queues);
    assert(all_items(state) =~= seq![item_of(list[0], None)]);
}

proof fn lemma_no_lone(count: int)
    requires
        0 <= count <= KIND_COUNT,
    ensures
        lone_held_all(
            Seq::new(KIND_COUNT as nat, |kind: int| Map::<Seq<char>, (i64, i64)>::empty()),
            count,
        ) == Seq::<ItemModel>::empty(),
        lone_queued_all(
            Seq::new(KIND_COUNT as nat, |kind: int| Map::<Seq<char>, Seq<(i64, i64)>>::empty()),
            count,
        ) == Seq::<ItemModel>::empty(),
    decreases count,
{
    lemma_no_keys::<(i64, i64)>();
    lemma_no_keys::<Seq<(i64, i64)>>();
    if count > 0 {
        lemma_no_lone(count - 1);
        let held = Map::<Seq<char>, (i64, i64)>::empty();
        let queues = Map::<Seq<char>, Seq<(i64, i64)>>::empty();
        assert(lone_held(count - 1, held, 0) =~= seq![]);
        assert(lone_queued(count - 1, queues, 0) =~= seq![]);
    }
}

/// An unclaimed witness is kept as its own half, closed.
pub proof fn lone_witness_is_its_own_half(kind: int, interval: (i64, i64))
    requires
        0 <= kind < KIND_COUNT,
    ensures
        lone(kind, interval).kind == kind,
        lone(kind, interval).first == (interval.0, Some(interval.1)),
        lone(kind, interval).second is None,
        lone(kind, interval).meta == no_meta(),
{
}

/// An open of the emulation or commit phase belongs to the contribution slot, and any other to the
/// prove slot.
pub proof fn opens_go_to_the_slot_of_their_phase(kind: int)
    ensures
        contributes(kind) <==> kind_row(kind).phase@ == "emulation"@ || kind_row(kind).phase@
            == "commit"@,
{
}

/// A close goes to the slot that holds an open for it. Where both do it goes to the one whose open
/// lies nearer to the moment that the close names, and to the contribution slot on a tie; it changes
/// the other slot and the recorded items in no case.
pub proof fn close_goes_to_the_nearer_slot(
    slots: Slots,
    hit: HitModel,
    tag: Seq<char>,
    ts: i64,
    duration: Option<i64>,
)
    ensures
        ({
            let after = routed_close(slots, hit, tag, ts, duration);
            let first = slot_closed(slots.p1, hit, tag, ts, duration);
            let second = slot_closed(slots.p2, hit, tag, ts, duration);
            let d1 = slot_distance(slots.p1, hit, tag, ts, duration);
            let d2 = slot_distance(slots.p2, hit, tag, ts, duration);
            &&& after.pipelines == slots.pipelines
            &&& first is None && second is None ==> after == slots
            &&& first is Some && second is None ==> after.p1 == first && after.p2 == slots.p2
            &&& first is None && second is Some ==> after.p1 == slots.p1 && after.p2 == second
            &&& first is Some && second is Some && d1 is Some && d2 is Some && d2->0 < d1->0
                ==> after.p1 == slots.p1 && after.p2 == second
            &&& first is Some && second is Some && d1 is Some && d2 is Some && d2->0 >= d1->0
                ==> after.p1 == first && after.p2 == slots.p2
        }),
{
}

proof fn lemma_least(pending: Seq<Open>, ts: i64, duration: Option<i64>, count: int)
    requires
        0 <= count <= pending.len(),
    ensures
        match least_distance(pending, ts, duration, count) {
            Some(least) => {
                &&& count > 0
                &&& duration is None ==> least == 0
                &&& duration is Some ==> (forall|i: int|
                    0 <= i < count ==> least <= away(#[trigger] pending[i], ts, duration->0))
                    && exists|i: int|
                    0 <= i < count && least == away(#[trigger] pending[i], ts, duration->0)
            },
            None => count == 0,
        },
    decreases count,
{
    if count > 0 {
        lemma_least(pending, ts, duration, count - 1);
        let before = least_distance(pending, ts, duration, count - 1);
        let now = least_distance(pending, ts, duration, count);
        if duration is Some {
            if before is Some && now == before {
                let i = choose|i: int|
                    0 <= i < count - 1 && before->0 == away(
                        #[trigger] pending[i],
                        ts,
                        duration->0,
                    );
                assert(now->0 == away(pending[i], ts, duration->0));
            } else {
                assert(now->0 == away(pending[count - 1], ts, duration->0));
            }
        }
    }
}

/// The distance of a slot from a close is that of its nearest open, and there is none only where the
/// slot holds no open for it.
pub proof fn slot_distance_is_that_of_the_nearest(
    pending: Seq<Open>,
    ts: i64,
    duration: Option<i64>,
)
    ensures
        match least_distance(pending, ts, duration, pending.len() as int) {
            Some(least) => {
                &&& pending.len() > 0
                &&& duration is None ==> least == 0
                &&& duration is Some ==> (forall|i: int|
                    0 <= i < pending.len() ==> least <= away(#[trigger] pending[i], ts, duration->0))
                    && exists|i: int|
                    0 <= i < pending.len() && least == away(#[trigger] pending[i], ts, duration->0)
            },
            None => pending.len() == 0,
        },
{
    lemma_least(pending, ts, duration, pending.len() as int);
}

/// A slot collects the opens of its own job alone: an empty slot and one whose job is skipped stay as
/// they are.
pub proof fn skipped_slot_collects_nothing(
    slot: Option<Pairing>,
    hit: HitModel,
    tag: Seq<char>,
    ts: i64,
)
    ensures
        slot is None ==> slot_opened(slot, hit, tag, ts) is None,
        slot is Some && slot->0.skip ==> slot_opened(slot, hit, tag, ts) == slot,
        slot is Some && !slot->0.skip ==> slot_opened(slot, hit, tag, ts) == Some(
            opened(slot->0, hit, tag, ts),
        ),
{
}

proof fn lemma_compute_kind(text: Seq<char>, numbered: bool, from: int)
    requires
        0 <= from,
    ensures
        match compute_kind(text, numbered, from) {
            Some(kind) => from <= kind < KIND_COUNT && kind_row(kind as int).compute.text@ == text
                && kind_row(kind as int).compute.numbered == numbered,
            None => forall|kind: int|
                from <= kind < KIND_COUNT ==> !((#[trigger] kind_row(kind)).compute.text@ == text
                    && kind_row(kind).compute.numbered == numbered),
        },
    decreases KIND_COUNT - from,
{
    if from < KIND_COUNT {
        lemma_compute_kind(text, numbered, from + 1);
    }
}

/// Whether a stem is the witness stem of a kind.
pub open spec fn witness_stem(kind: int, text: Seq<char>, numbered: bool) -> bool {
    kind_row(kind).witness is Some && (kind_row(kind).witness->0).0.text@ == text && (kind_row(
        kind,
    ).witness->0).0.numbered == numbered
}

proof fn lemma_witness_kind(text: Seq<char>, numbered: bool, last: bool, count: int)
    requires
        0 <= count <= KIND_COUNT,
    ensures
        match witness_kind(text, numbered, last, count) {
            Some(kind) => kind < count && witness_stem(kind as int, text, numbered) && forall|
                other: int,
            |
                0 <= other < count && #[trigger] witness_stem(other, text, numbered) ==> if last {
                    other <= kind
                } else {
                    kind <= other
                },
            None => forall|other: int|
                0 <= other < count ==> !#[trigger] witness_stem(other, text, numbered),
        },
    decreases count,
{
    if count > 0 {
        lemma_witness_kind(text, numbered, last, count - 1);
    }
}

/// A marker token names a kind by its stem: the token is the stem, or the stem, an underscore, and the
/// digits of an instance. A compute stem names the kind that computes under it. A witness stem names
/// the kind that it is the witness of, and where kinds share it the first of them while a
/// contribution runs and the last otherwise.
pub proof fn marker_token_names_its_kind(token: Seq<char>, proof_side: bool)
    ensures
        match classified(token, proof_side) {
            Some(hit) => {
                &&& hit.kind < KIND_COUNT
                &&& hit.x is None ==> token == hit.stem
                &&& hit.x is Some ==> token == hit.stem + seq!['_'] + hit.x->0 && hit.x->0.len() > 0
                &&& hit.side == Side::Compute ==> kind_row(hit.kind as int).compute.text@ == hit.stem
                    && kind_row(hit.kind as int).compute.numbered == (hit.x is Some)
                &&& hit.side == Side::Witness ==> {
                    &&& witness_stem(hit.kind as int, hit.stem, hit.x is Some)
                    &&& forall|other: int|
                        0 <= other < KIND_COUNT && #[trigger] witness_stem(
                            other,
                            hit.stem,
                            hit.x is Some,
                        ) ==> if proof_side {
                            other <= hit.kind
                        } else {
                            hit.kind <= other
                        }
                }
            },
            None => forall|kind: int|
                0 <= kind < KIND_COUNT ==> !((#[trigger] kind_row(kind)).compute.text@ == token
                    && !kind_row(kind).compute.numbered),
        },
{
    lemma_compute_kind(token, false, 0);
    lemma_witness_kind(token, false, proof_side, KIND_COUNT as int);
    crate::laws::texts::last_place_is_the_last(token, '_');
    match crate::text::last_of(token, '_') {
        Some(at) => {
            lemma_compute_kind(token.take(at), true, 0);
            lemma_witness_kind(token.take(at), true, proof_side, KIND_COUNT as int);
            assert(token =~= token.take(at) + seq!['_'] + token.skip(at + 1));
        },
        None => {},
    }
}

/// A late witness of a numbered kind goes to a compute of its own instance alone, and one of a tagged
/// kind to a compute of its own tag.
pub proof fn late_witness_keeps_to_its_own(
    state: Pairing,
    kind: int,
    x: Seq<char>,
    tag: Seq<char>,
    interval: (i64, i64),
    suffix: Seq<char>,
)
    requires
        late_attached(state, kind, x, tag, interval) is Some,
        ({
            ||| policy(kind) == Some(Claim::ByX) && kind_row(kind).compute.numbered && suffix != x
            ||| policy(kind) == Some(Claim::TagFifo) && suffix != tag
        }),
    ensures
        pending_under(
            late_attached(state, kind, x, tag, interval)->0,
            kind_row(kind).compute.text@,
            suffix,
        ) == pending_under(state, kind_row(kind).compute.text@, suffix),
        late_attached(state, kind, x, tag, interval)->0.items == state.items,
{
}

/// A completed witness waits where its kind's compute brackets look for it: by its instance, by its
/// tag, or in the one queue of its kind, and a compute bracket that finds none takes none.
pub proof fn stored_witness_is_found_by_its_compute(
    state: Pairing,
    kind: int,
    x: Seq<char>,
    tag: Seq<char>,
    interval: (i64, i64),
)
    requires
        0 <= kind < KIND_COUNT,
        state.witnesses.len() == KIND_COUNT,
        state.queues.len() == KIND_COUNT,
        policy(kind) is Some,
    ensures
        ({
            let kept = stored(state, kind, x, tag, interval);
            let taken = claimed(kept, kind, Some(x), tag).1;
            &&& policy(kind) == Some(Claim::ByX) ==> taken == Some(interval)
            &&& policy(kind) == Some(Claim::TagFifo) && queue_under(state, kind, tag).len() == 0
                ==> taken == Some(interval)
            &&& policy(kind) == Some(Claim::TagFifo) && queue_under(state, kind, tag).len() > 0
                ==> taken == Some(queue_under(state, kind, tag)[0])
            &&& policy(kind) == Some(Claim::GlobalFifo) && queue_under(state, kind, seq![]).len()
                == 0 ==> taken == Some(interval)
            &&& policy(kind) == Some(Claim::GlobalFifo) && queue_under(state, kind, seq![]).len()
                > 0 ==> taken == Some(queue_under(state, kind, seq![])[0])
        }),
{
}

proof fn lemma_lone_at(
    held: Seq<Map<Seq<char>, (i64, i64)>>,
    kind: int,
    key: Seq<char>,
    interval: (i64, i64),
    count: int,
)
    requires
        held.len() == KIND_COUNT,
        0 <= kind < KIND_COUNT,
        0 <= count <= KIND_COUNT,
        held[kind] == Map::<Seq<char>, (i64, i64)>::empty().insert(key, interval),
        forall|other: int|
            0 <= other < KIND_COUNT && other != kind ==> #[trigger] held[other] == Map::<
                Seq<char>,
                (i64, i64),
            >::empty(),
    ensures
        lone_held_all(held, count) == if count > kind {
            seq![lone(kind, interval)]
        } else {
            Seq::<ItemModel>::empty()
        },
    decreases count,
{
    lemma_no_keys::<(i64, i64)>();
    lemma_one_key(key, interval);
    reveal_with_fuel(lone_held, 3);
    if count > 0 {
        lemma_lone_at(held, kind, key, interval, count - 1);
        if count - 1 == kind {
            assert(lone_held(kind, held[kind], 1) =~= seq![lone(kind, interval)]);
            assert(lone_held_all(held, count) =~= seq![lone(kind, interval)]);
        } else {
            assert(lone_held(count - 1, held[count - 1], 0) =~= seq![]);
            assert(lone_held_all(held, count) =~= lone_held_all(held, count - 1));
        }
    }
}

proof fn lemma_lone_queued_at(
    queues: Seq<Map<Seq<char>, Seq<(i64, i64)>>>,
    kind: int,
    key: Seq<char>,
    interval: (i64, i64),
    count: int,
)
    requires
        queues.len() == KIND_COUNT,
        0 <= kind < KIND_COUNT,
        0 <= count <= KIND_COUNT,
        queues[kind] == Map::<Seq<char>, Seq<(i64, i64)>>::empty().insert(key, seq![interval]),
        forall|other: int|
            0 <= other < KIND_COUNT && other != kind ==> #[trigger] queues[other] == Map::<
                Seq<char>,
                Seq<(i64, i64)>,
            >::empty(),
    ensures
        lone_queued_all(queues, count) == if count > kind {
            seq![lone(kind, interval)]
        } else {
            Seq::<ItemModel>::empty()
        },
    decreases count,
{
    lemma_no_keys::<Seq<(i64, i64)>>();
    lemma_one_key(key, seq![interval]);
    reveal_with_fuel(lone_queued, 3);
    if count > 0 {
        lemma_lone_queued_at(queues, kind, key, interval, count - 1);
        if count - 1 == kind {
            assert(lone_queued(kind, queues[kind], 1) =~= seq![lone(kind, interval)]);
            assert(lone_queued_all(queues, count) =~= seq![lone(kind, interval)]);
        } else {
            assert(lone_queued(count - 1, queues[count - 1], 0) =~= seq![]);
            assert(lone_queued_all(queues, count) =~= lone_queued_all(queues, count - 1));
        }
    }
}

/// A completed witness that no compute bracket claims before the job ends is kept as one item of its
/// kind, its own half.
pub proof fn unclaimed_witness_is_kept(
    job: Seq<char>,
    kind: int,
    x: Seq<char>,
    tag: Seq<char>,
    interval: (i64, i64),
)
    requires
        0 <= kind < KIND_COUNT,
        policy(kind) is Some,
    ensures
        all_items(stored(new_pairing(job, false), kind, x, tag, interval)) == seq![
            ItemModel {
                kind: kind as usize,
                first: (interval.0, Some(interval.1)),
                second: None,
                meta: no_meta(),
            },
        ],
{
    let fresh = new_pairing(job, false);
    let state = stored(fresh, kind, x, tag, interval);
    lemma_no_keys::<Map<Seq<char>, Seq<Open>>>();
    lemma_no_lone(KIND_COUNT as int);
    assert(dangling_all(state.opens, 0) =~= seq![]);
    if policy(kind) == Some(Claim::ByX) {
        lemma_lone_at(state.witnesses, kind, x, interval, KIND_COUNT as int);
        assert(state.queues == fresh.queues);
    } else {
        let key = if policy(kind) == Some(Claim::TagFifo) {
            tag
        } else {
            seq![]
        };
        let none: Seq<(i64, i64)> = seq![];
        assert(none.push(interval) =~= seq![interval]);
        assert(queue_under(fresh, kind, key) =~= none);
        lemma_lone_queued_at(state.queues, kind, key, interval, KIND_COUNT as int);
        assert(state.witnesses == fresh.witnesses);
    }
    assert(all_items(state) =~= seq![lone(kind, interval)]);
}

} // verus!
