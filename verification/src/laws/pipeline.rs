//! What holds of every read of a worker log's pipeline markers.

use vstd::prelude::*;

use crate::error::Failure;
use crate::log::{ms_of, ts_read, ItemModel};
use crate::text::{around_first, last_of, lines_of, words_of};
use crate::text_map::{at_or, lemma_finite_listed, sorted_keys};
use crate::zisk::kinds::{
    classified, compute_kind, definition, kind_row, witness_kind, HitModel, Side, KIND_COUNT,
};
use crate::zisk::pairing::{
    all_items, claimed, closed_state, dangling_all, dangling_under, earliest, earliest_of_all,
    item_of, kinds_known, late_attached, late_place, late_suffix, lone_held, lone_held_all,
    lone_queued, lone_queued_all, nearest, new_pairing, opened, or_empty, paired_open,
    pending_under, stored, suffix_of, well_formed, with_pending, Open, Pairing,
};
use crate::zisk::pipeline::{
    announced, marked, parsed, scanned, slot_flushed, stepped, tag_and_duration, Pipelines, Slots,
};
use crate::zisk::worker::{first_token, stamped};

verus! {

/// Whether a node has items recorded for a job.
pub open spec fn recorded(pipelines: Pipelines, job: Seq<char>, node: Seq<char>) -> bool {
    pipelines.dom().contains(job) && pipelines[job].dom().contains(node)
}

/// Whether whatever is recorded in one is recorded alike in the other.
pub open spec fn keeps(before: Pipelines, after: Pipelines) -> bool {
    forall|job: Seq<char>, node: Seq<char>| #[trigger]
        recorded(before, job, node) ==> recorded(after, job, node) && after[job][node]
            == before[job][node]
}

/// Whether nothing but the items of one node differs.
pub open spec fn touches_only(before: Pipelines, after: Pipelines, node: Seq<char>) -> bool {
    forall|job: Seq<char>, other: Seq<char>|
        other != node ==> (#[trigger] recorded(before, job, other) <==> recorded(after, job, other))
}

proof fn lemma_slot_flushed_keeps(pipelines: Pipelines, slot: Option<Pairing>, node: Seq<char>)
    ensures
        keeps(pipelines, slot_flushed(pipelines, slot, node)),
        touches_only(pipelines, slot_flushed(pipelines, slot, node), node),
{
}

proof fn lemma_scanned_keeps(slots: Slots, lines: Seq<Seq<char>>, node: Seq<char>)
    ensures
        keeps(slots.pipelines, scanned(slots, lines, node).0),
        touches_only(slots.pipelines, scanned(slots, lines, node).0, node),
    decreases lines.len(),
{
    let first = slot_flushed(slots.pipelines, slots.p2, node);
    lemma_slot_flushed_keeps(slots.pipelines, slots.p1, node);
    lemma_slot_flushed_keeps(slots.pipelines, slots.p2, node);
    lemma_slot_flushed_keeps(first, slots.p1, node);
    if lines.len() > 0 {
        match stepped(slots, lines[0], node) {
            Ok(next) => {
                lemma_scanned_keeps(next, lines.skip(1), node);
                let last = scanned(slots, lines, node).0;
                assert(keeps(slots.pipelines, next.pipelines));
                assert(touches_only(slots.pipelines, next.pipelines, node));
                assert forall|job: Seq<char>, other: Seq<char>| other != node implies (
                #[trigger] recorded(slots.pipelines, job, other) <==> recorded(last, job, other)) by {
                    assert(recorded(slots.pipelines, job, other) <==> recorded(
                        next.pipelines,
                        job,
                        other,
                    ));
                }
            },
            Err(_) => {},
        }
    }
}

/// The first write wins: whatever items a node has for a job, no later log changes them.
pub proof fn first_write_wins(
    clean: Seq<char>,
    node: Seq<char>,
    pipelines: Pipelines,
    job: Seq<char>,
    other: Seq<char>,
)
    requires
        recorded(pipelines, job, other),
    ensures
        recorded(parsed(clean, node, pipelines).0, job, other),
        parsed(clean, node, pipelines).0[job][other] == pipelines[job][other],
{
    lemma_scanned_keeps(
        Slots { p1: None, p2: None, pipelines },
        lines_of(clean),
        node,
    );
}

/// A node's log records items of that node alone.
pub proof fn records_own_node_only(
    clean: Seq<char>,
    node: Seq<char>,
    pipelines: Pipelines,
    job: Seq<char>,
    other: Seq<char>,
)
    requires
        other != node,
    ensures
        recorded(parsed(clean, node, pipelines).0, job, other) <==> recorded(pipelines, job, other),
{
    lemma_scanned_keeps(
        Slots { p1: None, p2: None, pipelines },
        lines_of(clean),
        node,
    );
    assert(recorded(pipelines, job, other) <==> recorded(
        parsed(clean, node, pipelines).0,
        job,
        other,
    ));
}

/// Whether a job that may run is recorded for the node.
spec fn slot_recorded(pipelines: Pipelines, slot: Option<Pairing>, node: Seq<char>) -> bool {
    slot is Some ==> recorded(pipelines, slot->0.job, node)
}

/// What holds of the slots of every read: a job is skipped only where it is recorded already.
spec fn skips_recorded(slots: Slots, node: Seq<char>) -> bool {
    &&& slots.p1 is Some && slots.p1->0.skip ==> slot_recorded(slots.pipelines, slots.p1, node)
    &&& slots.p2 is Some && slots.p2->0.skip ==> slot_recorded(slots.pipelines, slots.p2, node)
}

/// Whether two slots run the same job, skipped in both or in neither.
spec fn same_job(slot: Option<Pairing>, other: Option<Pairing>) -> bool {
    match (slot, other) {
        (Some(state), Some(next)) => state.job == next.job && state.skip == next.skip,
        (None, None) => true,
        _ => false,
    }
}

proof fn lemma_marked_same_jobs(slots: Slots, line: Seq<char>, is_open: bool, tail: Seq<char>)
    ensures
        match marked(slots, line, is_open, tail) {
            Ok(next) => {
                &&& same_job(slots.p1, next.p1)
                &&& same_job(slots.p2, next.p2)
                &&& next.pipelines == slots.pipelines
            },
            Err(_) => true,
        },
{
}

proof fn lemma_stepped_recorded(slots: Slots, line: Seq<char>, node: Seq<char>)
    requires
        skips_recorded(slots, node),
    ensures
        match stepped(slots, line, node) {
            Ok(next) => {
                &&& skips_recorded(next, node)
                &&& keeps(slots.pipelines, next.pipelines)
                &&& slot_recorded(next.pipelines, slots.p1, node) || same_job(slots.p1, next.p1)
                    || same_job(slots.p1, next.p2)
                &&& slot_recorded(next.pipelines, slots.p2, node) || same_job(slots.p2, next.p2)
            },
            Err(_) => true,
        },
{
    lemma_slot_flushed_keeps(slots.pipelines, slots.p1, node);
    lemma_slot_flushed_keeps(slots.pipelines, slots.p2, node);
    lemma_slot_flushed_keeps(slot_flushed(slots.pipelines, slots.p2, node), slots.p1, node);
    match around_first(line, " >>> "@) {
        Some((_, tail)) => lemma_marked_same_jobs(slots, line, true, tail),
        None => {},
    }
    match around_first(line, " <<< "@) {
        Some((_, tail)) => lemma_marked_same_jobs(slots, line, false, tail),
        None => {},
    }
}

/// Every job that runs is recorded once a read ends without an error.
proof fn lemma_scanned_records(slots: Slots, lines: Seq<Seq<char>>, node: Seq<char>)
    requires
        skips_recorded(slots, node),
        scanned(slots, lines, node).1 is None,
    ensures
        slot_recorded(scanned(slots, lines, node).0, slots.p1, node),
        slot_recorded(scanned(slots, lines, node).0, slots.p2, node),
    decreases lines.len(),
{
    if lines.len() == 0 {
        let first = slot_flushed(slots.pipelines, slots.p2, node);
        lemma_slot_flushed_keeps(slots.pipelines, slots.p2, node);
        lemma_slot_flushed_keeps(first, slots.p1, node);
    } else {
        match stepped(slots, lines[0], node) {
            Ok(next) => {
                lemma_stepped_recorded(slots, lines[0], node);
                lemma_scanned_records(next, lines.skip(1), node);
                lemma_scanned_keeps(next, lines.skip(1), node);
            },
            Err(_) => {},
        }
    }
}

/// A slot as a second read of the same log holds it: the same job, skipped.
spec fn skipped(slot: Option<Pairing>) -> Option<Pairing> {
    match slot {
        Some(state) => Some(new_pairing(state.job, true)),
        None => None,
    }
}

spec fn skipped_slots(slots: Slots, pipelines: Pipelines) -> Slots {
    Slots { p1: skipped(slots.p1), p2: skipped(slots.p2), pipelines }
}

proof fn lemma_marked_skipped(
    slots: Slots,
    pipelines: Pipelines,
    line: Seq<char>,
    is_open: bool,
    tail: Seq<char>,
)
    requires
        marked(slots, line, is_open, tail) is Ok,
    ensures
        marked(skipped_slots(slots, pipelines), line, is_open, tail) == Ok::<Slots, Failure>(
            skipped_slots(slots, pipelines),
        ),
{
    assert forall|stem: Seq<char>, suffix: Seq<char>, job: Seq<char>|
        (#[trigger] pending_under(new_pairing(job, true), stem, suffix)).len() == 0 by {}
}

proof fn lemma_scanned_again(slots: Slots, lines: Seq<Seq<char>>, node: Seq<char>)
    requires
        skips_recorded(slots, node),
        scanned(slots, lines, node).1 is None,
    ensures
        scanned(skipped_slots(slots, scanned(slots, lines, node).0), lines, node) == scanned(
            slots,
            lines,
            node,
        ),
    decreases lines.len(),
{
    let last = scanned(slots, lines, node).0;
    let again = skipped_slots(slots, last);
    if lines.len() > 0 {
        let line = lines[0];
        match stepped(slots, line, node) {
            Ok(next) => {
                lemma_stepped_recorded(slots, line, node);
                lemma_scanned_records(next, lines.skip(1), node);
                lemma_scanned_again(next, lines.skip(1), node);
                match around_first(line, " >>> "@) {
                    Some((_, tail)) => {
                        if marked(slots, line, true, tail) is Ok {
                            lemma_marked_skipped(slots, last, line, true, tail);
                            lemma_marked_same_jobs(slots, line, true, tail);
                        }
                    },
                    None => {},
                }
                match around_first(line, " <<< "@) {
                    Some((_, tail)) => {
                        if marked(slots, line, false, tail) is Ok {
                            lemma_marked_skipped(slots, last, line, false, tail);
                            lemma_marked_same_jobs(slots, line, false, tail);
                        }
                    },
                    None => {},
                }
                assert(stepped(again, line, node) == Ok::<Slots, Failure>(
                    skipped_slots(next, last),
                ));
            },
            Err(_) => {},
        }
    }
}

/// A worker log that was read without an error adds nothing when it is read again for the same node:
/// every job in it is a re-dispatch then, and keeps its first run's items.
pub proof fn second_parse_changes_nothing(clean: Seq<char>, node: Seq<char>, pipelines: Pipelines)
    requires
        parsed(clean, node, pipelines).1 is None,
    ensures
        parsed(clean, node, parsed(clean, node, pipelines).0) == parsed(clean, node, pipelines),
{
    lemma_scanned_again(Slots { p1: None, p2: None, pipelines }, lines_of(clean), node);
}

/// Whether a line announces a job.
pub open spec fn announces(line: Seq<char>) -> bool {
    &&& stamped(line)
    &&& around_first(line, " INFO: Starting Partial Contribution for "@) is Some || around_first(
        line,
        " INFO: Starting Prove for JobId("@,
    ) is Some
}

/// The lines before the first announced job leave no item, whatever markers they hold: the read goes
/// on as if they were not there.
pub proof fn markers_before_any_job_are_dropped(
    lines: Seq<Seq<char>>,
    node: Seq<char>,
    pipelines: Pipelines,
    count: int,
)
    requires
        0 <= count <= lines.len(),
        forall|i: int| 0 <= i < count ==> !announces(#[trigger] lines[i]),
    ensures
        scanned(Slots { p1: None, p2: None, pipelines }, lines, node) == scanned(
            Slots { p1: None, p2: None, pipelines },
            lines.skip(count),
            node,
        ),
    decreases count,
{
    let slots = Slots { p1: None, p2: None, pipelines };
    if count == 0 {
        assert(lines.skip(0) =~= lines);
    } else {
        let rest = lines.skip(1);
        assert(!announces(lines[0]));
        assert(stepped(slots, lines[0], node) == Ok::<Slots, Failure>(slots));
        assert forall|i: int| 0 <= i < count - 1 implies !announces(#[trigger] rest[i]) by {
            assert(!announces(lines[i + 1]));
        }
        markers_before_any_job_are_dropped(rest, node, pipelines, count - 1);
        assert(rest.skip(count - 1) =~= lines.skip(count));
    }
}

/// A log that announces no job records nothing and never fails.
pub proof fn log_without_a_job_records_nothing(
    clean: Seq<char>,
    node: Seq<char>,
    pipelines: Pipelines,
)
    requires
        forall|i: int| 0 <= i < lines_of(clean).len() ==> !announces(#[trigger] lines_of(clean)[i]),
    ensures
        parsed(clean, node, pipelines) == (pipelines, None::<Failure>),
{
    let lines = lines_of(clean);
    markers_before_any_job_are_dropped(lines, node, pipelines, lines.len() as int);
}

/// A marker whose stem is not in the kinds table changes nothing.
pub proof fn unlisted_marker_is_ignored(
    slots: Slots,
    line: Seq<char>,
    is_open: bool,
    tail: Seq<char>,
)
    requires
        words_of(tail).len() > 0,
        classified(words_of(tail)[0], slots.p1 is None) is None,
    ensures
        marked(slots, line, is_open, tail) == Ok::<Slots, Failure>(slots),
{
}

/// Whether an item fits the template: it names a kind of it, and carries a second half only where
/// that kind is paired and the first half closed.
pub open spec fn item_fits(item: ItemModel) -> bool {
    &&& item.kind < KIND_COUNT
    &&& item.second is Some ==> definition(item.kind as int).3 && item.first.1 is Some
}

/// Whether items fit the template.
pub open spec fn items_fit(items: Seq<ItemModel>) -> bool {
    forall|i: int| 0 <= i < items.len() ==> item_fits(#[trigger] items[i])
}

/// Whether all recorded items fit the template.
pub open spec fn all_fit(pipelines: Pipelines) -> bool {
    forall|job: Seq<char>, node: Seq<char>| #[trigger]
        recorded(pipelines, job, node) ==> items_fit(pipelines[job][node])
}

/// Whether a kind and side may stand under a stem: the stem is the kind's compute stem, or the kind
/// is paired.
spec fn stem_fits(kind: int, side: Side, stem: Seq<char>) -> bool {
    match side {
        Side::Compute => kind_row(kind).compute.text@ == stem,
        Side::Witness => kind_row(kind).witness is Some,
    }
}

spec fn opens_fit(pending: Seq<Open>, stem: Seq<char>) -> bool {
    forall|i: int|
        0 <= i < pending.len() ==> {
            &&& (#[trigger] pending[i]).kind < KIND_COUNT
            &&& stem_fits(pending[i].kind as int, pending[i].side, stem)
            &&& pending[i].claimed is Some ==> kind_row(pending[i].kind as int).witness is Some
        }
}

spec fn state_known(state: Pairing) -> bool {
    &&& well_formed(state)
    &&& forall|stem: Seq<char>, suffix: Seq<char>|
        opens_fit(#[trigger] pending_under(state, stem, suffix), stem)
    &&& items_fit(state.items)
    &&& state.opens.dom().finite()
    &&& forall|stem: Seq<char>| #[trigger]
        state.opens.dom().contains(stem) ==> state.opens[stem].dom().finite()
}

spec fn slot_known(slot: Option<Pairing>) -> bool {
    slot is Some ==> state_known(slot->0)
}

spec fn slots_known(slots: Slots) -> bool {
    slot_known(slots.p1) && slot_known(slots.p2) && all_fit(slots.pipelines)
}

proof fn lemma_dangling_under(pendings: Map<Seq<char>, Seq<Open>>, stem: Seq<char>, count: int)
    requires
        pendings.dom().finite(),
        count <= sorted_keys(pendings).len(),
        forall|suffix: Seq<char>| #[trigger]
            pendings.dom().contains(suffix) ==> opens_fit(pendings[suffix], stem),
    ensures
        items_fit(dangling_under(pendings, count)),
    decreases count,
{
    if count > 0 {
        lemma_dangling_under(pendings, stem, count - 1);
        lemma_finite_listed(pendings);
        let suffix = sorted_keys(pendings)[count - 1];
        assert(sorted_keys(pendings).contains(suffix));
        assert(pendings.dom().contains(suffix));
    }
}

proof fn lemma_dangling_all(state: Pairing, count: int)
    requires
        state_known(state),
        count <= sorted_keys(state.opens).len(),
    ensures
        items_fit(dangling_all(state.opens, count)),
    decreases count,
{
    if count > 0 {
        lemma_dangling_all(state, count - 1);
        lemma_finite_listed(state.opens);
        let stem = sorted_keys(state.opens)[count - 1];
        assert(sorted_keys(state.opens).contains(stem));
        let pendings = state.opens[stem];
        assert forall|suffix: Seq<char>| #[trigger]
            pendings.dom().contains(suffix) implies opens_fit(pendings[suffix], stem) by {
            assert(opens_fit(pending_under(state, stem, suffix), stem));
        }
        lemma_dangling_under(pendings, stem, sorted_keys(pendings).len() as int);
    }
}

proof fn lemma_lone_known(
    kind: int,
    held: Map<Seq<char>, (i64, i64)>,
    queues: Map<Seq<char>, Seq<(i64, i64)>>,
    count: int,
)
    requires
        0 <= kind < KIND_COUNT,
    ensures
        items_fit(lone_held(kind, held, count)),
        items_fit(lone_queued(kind, queues, count)),
    decreases count,
{
    if count > 0 {
        lemma_lone_known(kind, held, queues, count - 1);
    }
}

proof fn lemma_lone_all_fit(state: Pairing, count: int)
    requires
        count <= KIND_COUNT,
    ensures
        items_fit(lone_held_all(state.witnesses, count)),
        items_fit(lone_queued_all(state.queues, count)),
    decreases count,
{
    if count > 0 {
        lemma_lone_all_fit(state, count - 1);
        let held = state.witnesses[count - 1];
        let queues = state.queues[count - 1];
        lemma_lone_known(count - 1, held, queues, sorted_keys(held).len() as int);
        lemma_lone_known(count - 1, held, queues, sorted_keys(queues).len() as int);
    }
}

proof fn lemma_flushed_known(pipelines: Pipelines, slot: Option<Pairing>, node: Seq<char>)
    requires
        slot_known(slot),
        all_fit(pipelines),
    ensures
        all_fit(slot_flushed(pipelines, slot, node)),
{
    if slot is Some && !slot->0.skip {
        let state = slot->0;
        lemma_dangling_all(state, sorted_keys(state.opens).len() as int);
        lemma_lone_all_fit(state, KIND_COUNT as int);
        assert(items_fit(all_items(state)));
        let after = slot_flushed(pipelines, slot, node);
        assert forall|job: Seq<char>, other: Seq<char>| #[trigger]
            recorded(after, job, other) implies items_fit(after[job][other]) by {
            if recorded(pipelines, job, other) {
                assert(items_fit(pipelines[job][other]));
            }
        }
    }
}

proof fn lemma_with_pending_known(
    state: Pairing,
    stem: Seq<char>,
    suffix: Seq<char>,
    pending: Seq<Open>,
)
    requires
        state_known(state),
        opens_fit(pending, stem),
    ensures
        state_known(with_pending(state, stem, suffix, pending)),
{
    let next = with_pending(state, stem, suffix, pending);
    assert forall|a: Seq<char>, b: Seq<char>| kinds_known(#[trigger] pending_under(next, a, b)) by {
        if !(a == stem && b == suffix) {
            assert(pending_under(next, a, b) == pending_under(state, a, b));
        }
    }
    assert forall|a: Seq<char>, b: Seq<char>| opens_fit(#[trigger] pending_under(next, a, b), a) by {
        if !(a == stem && b == suffix) {
            assert(pending_under(next, a, b) == pending_under(state, a, b));
        }
    }
}

proof fn lemma_same_opens_known(state: Pairing, next: Pairing)
    requires
        state_known(state),
        next.opens == state.opens,
        next.witnesses.len() == state.witnesses.len(),
        next.queues.len() == state.queues.len(),
        items_fit(next.items),
    ensures
        state_known(next),
{
    assert forall|a: Seq<char>, b: Seq<char>| kinds_known(#[trigger] pending_under(next, a, b)) by {
        assert(pending_under(next, a, b) == pending_under(state, a, b));
    }
    assert forall|a: Seq<char>, b: Seq<char>| opens_fit(#[trigger] pending_under(next, a, b), a) by {
        assert(pending_under(next, a, b) == pending_under(state, a, b));
    }
}

proof fn lemma_opened_known(state: Pairing, hit: HitModel, tag: Seq<char>, ts: i64)
    requires
        state_known(state),
        hit.kind < KIND_COUNT,
        stem_fits(hit.kind as int, hit.side, hit.stem),
    ensures
        state_known(opened(state, hit, tag, ts)),
{
    let (mid, taken) = match hit.side {
        Side::Compute => claimed(state, hit.kind as int, hit.x, tag),
        Side::Witness => (state, None),
    };
    lemma_same_opens_known(state, mid);
    let suffix = suffix_of(hit, tag);
    assert(opens_fit(pending_under(mid, hit.stem, suffix), hit.stem));
    lemma_with_pending_known(
        mid,
        hit.stem,
        suffix,
        pending_under(mid, hit.stem, suffix).push(
            Open { kind: hit.kind, side: hit.side, ts, claimed: taken },
        ),
    );
}

proof fn lemma_nearest_in_range(pending: Seq<Open>, ts: i64, duration: i64, count: int)
    requires
        1 <= count <= pending.len(),
    ensures
        0 <= nearest(pending, ts, duration, count) < count,
    decreases count,
{
    if count > 1 {
        lemma_nearest_in_range(pending, ts, duration, count - 1);
    }
}

proof fn lemma_earliest_in_range(pending: Seq<Open>, count: int)
    requires
        count <= pending.len(),
    ensures
        earliest(pending, count) is Some ==> 0 <= earliest(pending, count)->0 < count,
    decreases count,
{
    if count > 0 {
        lemma_earliest_in_range(pending, count - 1);
    }
}

proof fn lemma_earliest_of_all_in_range(pendings: Map<Seq<char>, Seq<Open>>, count: int)
    requires
        pendings.dom().finite(),
        count <= sorted_keys(pendings).len(),
    ensures
        match earliest_of_all(pendings, count) {
            Some((suffix, at)) => pendings.dom().contains(suffix) && 0 <= at
                < pendings[suffix].len(),
            None => true,
        },
    decreases count,
{
    if count > 0 {
        lemma_earliest_of_all_in_range(pendings, count - 1);
        lemma_finite_listed(pendings);
        let suffix = sorted_keys(pendings)[count - 1];
        assert(sorted_keys(pendings).contains(suffix));
        lemma_earliest_in_range(pendings[suffix], pendings[suffix].len() as int);
    }
}

/// The compute stem of a paired kind begins with a letter that begins no other kind's, so no unpaired
/// kind shares it.
proof fn lemma_paired_stem(kind: int)
    requires
        0 <= kind < KIND_COUNT,
    ensures
        kind_row(kind).compute.text@.len() > 0,
        kind_row(kind).witness is Some <==> kind_row(kind).compute.text@[0] == 'G',
{
    reveal_strlit("COMPUTE_MINIMAL_TRACE");
    reveal_strlit("PLAN");
    reveal_strlit("GET_CONTRIBUTION_AIR");
    reveal_strlit("WAIT_PLAN_MEM_CPP");
    reveal_strlit("COLLECT_MEM_PLANS");
    reveal_strlit("CALCULATING_TABLES");
    reveal_strlit("CALCULATE_INTERNAL_CONTRIBUTION");
    reveal_strlit("GEN_PROOF");
    reveal_strlit("GEN_RECURSIVE_PROOF_Recursive1");
    reveal_strlit("GEN_RECURSIVE_PROOF_Recursive2");
    reveal_strlit("GEN_RECURSIVE_PROOF_Compressor");
    reveal_strlit("GEN_RECURSIVE_PROOF_VadcopFinal");
    reveal_strlit("GEN_RECURSIVE_PROOF_VadcopFinalCompressed");
}

proof fn lemma_late_known(
    state: Pairing,
    kind: int,
    x: Seq<char>,
    tag: Seq<char>,
    interval: (i64, i64),
)
    requires
        state_known(state),
        0 <= kind < KIND_COUNT,
        kind_row(kind).witness is Some,
    ensures
        slot_known(late_attached(state, kind, x, tag, interval)),
{
    let stem = kind_row(kind).compute.text@;
    let pendings = at_or(state.opens, stem, Map::empty());
    let only = late_suffix(kind, x, tag);
    match late_place(pendings, only) {
        Some((suffix, at)) => {
            let pending = pending_under(state, stem, suffix);
            assert(opens_fit(pending, stem));
            lemma_earliest_in_range(pending, pending.len() as int);
            if only is None {
                lemma_earliest_of_all_in_range(pendings, sorted_keys(pendings).len() as int);
            }
            assert(0 <= at < pending.len());
            lemma_paired_stem(kind);
            lemma_paired_stem(pending[at].kind as int);
            lemma_with_pending_known(
                state,
                stem,
                suffix,
                pending.update(at, Open { claimed: Some(interval), ..pending[at] }),
            );
        },
        None => {},
    }
}

proof fn lemma_closed_known(
    state: Pairing,
    hit: HitModel,
    tag: Seq<char>,
    ts: i64,
    duration: Option<i64>,
)
    requires
        state_known(state),
    ensures
        slot_known(closed_state(state, hit, tag, ts, duration)),
{
    let suffix = suffix_of(hit, tag);
    let pending = pending_under(state, hit.stem, suffix);
    if pending.len() > 0 {
        let at = paired_open(pending, ts, duration);
        if duration is Some {
            lemma_nearest_in_range(pending, ts, duration->0, pending.len() as int);
        }
        let open = pending[at];
        assert(opens_fit(pending, hit.stem));
        let mid = with_pending(state, hit.stem, suffix, pending.remove(at));
        lemma_with_pending_known(state, hit.stem, suffix, pending.remove(at));
        let interval = (open.ts, ts);
        let x = or_empty(hit.x);
        match open.side {
            Side::Witness => {
                lemma_late_known(mid, open.kind as int, x, tag, interval);
                lemma_same_opens_known(mid, stored(mid, open.kind as int, x, tag, interval));
            },
            Side::Compute => {
                lemma_same_opens_known(
                    mid,
                    Pairing { items: mid.items.push(item_of(open, Some(ts))), ..mid },
                );
            },
        }
    }
}

proof fn lemma_compute_kind_known(text: Seq<char>, numbered: bool, from: int)
    ensures
        match compute_kind(text, numbered, from) {
            Some(kind) => kind < KIND_COUNT && stem_fits(kind as int, Side::Compute, text),
            None => true,
        },
    decreases KIND_COUNT - from,
{
    if 0 <= from < KIND_COUNT {
        lemma_compute_kind_known(text, numbered, from + 1);
    }
}

proof fn lemma_witness_kind_known(text: Seq<char>, numbered: bool, last: bool, count: int)
    requires
        count <= KIND_COUNT,
    ensures
        match witness_kind(text, numbered, last, count) {
            Some(kind) => kind < KIND_COUNT && stem_fits(kind as int, Side::Witness, text),
            None => true,
        },
    decreases count,
{
    if count > 0 {
        lemma_witness_kind_known(text, numbered, last, count - 1);
    }
}

proof fn lemma_classified(token: Seq<char>, proof_side: bool)
    ensures
        match classified(token, proof_side) {
            Some(hit) => hit.kind < KIND_COUNT && stem_fits(hit.kind as int, hit.side, hit.stem),
            None => true,
        },
{
    lemma_compute_kind_known(token, false, 0);
    lemma_witness_kind_known(token, false, proof_side, KIND_COUNT as int);
    match last_of(token, '_') {
        Some(at) => {
            lemma_compute_kind_known(token.take(at), true, 0);
            lemma_witness_kind_known(token.take(at), true, proof_side, KIND_COUNT as int);
        },
        None => {},
    }
}

/// A marker that is recognised names a kind of the template.
pub proof fn classified_names_a_kind(token: Seq<char>, proof_side: bool)
    ensures
        classified(token, proof_side) is Some ==> classified(token, proof_side)->0.kind
            < KIND_COUNT,
{
    lemma_classified(token, proof_side);
}

proof fn lemma_marked_known(slots: Slots, line: Seq<char>, is_open: bool, tail: Seq<char>)
    requires
        slots_known(slots),
    ensures
        match marked(slots, line, is_open, tail) {
            Ok(next) => slots_known(next),
            Err(_) => true,
        },
{
    let words = words_of(tail);
    if words.len() > 0 {
        let proof_side = slots.p1 is None;
        lemma_classified(words[0], proof_side);
        match classified(words[0], proof_side) {
            Some(hit) => {
                let rest = words.skip(1);
                let (tag, duration) = tag_and_duration(rest, rest.len() as int);
                match ts_read(first_token(line)) {
                    Ok(ns) => {
                        let ts = ms_of(ns);
                        if slots.p1 is Some {
                            lemma_opened_known(slots.p1->0, hit, tag, ts);
                            lemma_closed_known(slots.p1->0, hit, tag, ts, duration);
                        }
                        if slots.p2 is Some {
                            lemma_opened_known(slots.p2->0, hit, tag, ts);
                            lemma_closed_known(slots.p2->0, hit, tag, ts, duration);
                        }
                    },
                    Err(_) => {},
                }
            },
            None => {},
        }
    }
}

proof fn lemma_announced_known(id: Seq<char>, node: Seq<char>, pipelines: Pipelines)
    ensures
        state_known(announced(id, node, pipelines)),
{
}

proof fn lemma_scanned_known(slots: Slots, lines: Seq<Seq<char>>, node: Seq<char>)
    requires
        slots_known(slots),
    ensures
        all_fit(scanned(slots, lines, node).0),
    decreases lines.len(),
{
    let first = slot_flushed(slots.pipelines, slots.p2, node);
    lemma_flushed_known(slots.pipelines, slots.p1, node);
    lemma_flushed_known(slots.pipelines, slots.p2, node);
    lemma_flushed_known(first, slots.p1, node);
    if lines.len() > 0 {
        let line = lines[0];
        match stepped(slots, line, node) {
            Ok(next) => {
                match around_first(line, " INFO: Starting Partial Contribution for "@) {
                    Some((_, uuid)) => lemma_announced_known(
                        uuid,
                        node,
                        slot_flushed(slots.pipelines, slots.p1, node),
                    ),
                    None => {},
                }
                match around_first(line, " INFO: Starting Prove for JobId("@) {
                    Some((_, id)) => lemma_announced_known(id, node, first),
                    None => {},
                }
                match around_first(line, " >>> "@) {
                    Some((_, tail)) => lemma_marked_known(slots, line, true, tail),
                    None => {},
                }
                match around_first(line, " <<< "@) {
                    Some((_, tail)) => lemma_marked_known(slots, line, false, tail),
                    None => {},
                }
                lemma_scanned_known(next, lines.skip(1), node);
            },
            Err(_) => {},
        }
    }
}

/// Every recorded item names a kind of the wire template, so the template and the items never drift
/// apart, and carries a second half only where that kind is paired and the first half closed.
pub proof fn items_fit_the_template(clean: Seq<char>, node: Seq<char>, pipelines: Pipelines)
    requires
        all_fit(pipelines),
    ensures
        all_fit(parsed(clean, node, pipelines).0),
{
    lemma_scanned_known(Slots { p1: None, p2: None, pipelines }, lines_of(clean), node);
}

} // verus!
