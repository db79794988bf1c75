//! Pairs a job's marker brackets on one node into fine pipeline items.
//!
//! Pairing runs in two layers. Layer A joins each close to its pending open per stem and instance or
//! tag, using the printed duration to pick among overlapping brackets. Layer B assembles a completed
//! witness interval and the compute bracket that claims it into one item, the claim taken at the
//! compute open so a dangling compute keeps its witness. The thread-interleaved logger usually
//! prints a compute open microseconds before its witness close, so a witness that closes after its
//! compute opened attaches late to the earliest unclaimed compute open of its kind.

use vstd::prelude::*;

use crate::log::{no_meta, ItemModel, PipelineItem, PipelineItemMeta};
use crate::text::{copied, is, to_chars};
use crate::text_map::{at_or, lemma_replace, sorted_keys, TextMap};
use crate::zisk::kinds::{kind_at, kind_row, Claim, Hit, HitModel, Kind, Side, KIND_COUNT};

verus! {

/// A pending bracket open, the kind and side its stem resolved to, its open instant, and the
/// witness interval a compute open claimed.
#[derive(Clone, Copy)]
pub struct Open {
    pub kind: usize,
    pub side: Side,
    pub ts: i64,
    pub claimed: Option<(i64, i64)>,
}

impl DeepView for Open {
    type V = Open;

    open spec fn deep_view(&self) -> Open {
        *self
    }
}

/// The pairing state of one job on one node, flushed when the job ends.
pub struct JobState {
    job: Vec<char>,
    skip: bool,
    /// Layer A pending opens per stem and instance-or-tag suffix, in open order.
    opens: TextMap<TextMap<Vec<Open>>>,
    /// Completed witness intervals a ByX compute claims, per kind and instance.
    witnesses: Vec<TextMap<(i64, i64)>>,
    /// Completed witness queues the TagFifo and GlobalFifo computes pop, per kind and tag with the
    /// global queue under the empty tag.
    queues: Vec<TextMap<Vec<(i64, i64)>>>,
    items: Vec<PipelineItem>,
}

/// A pairing state by the values it holds.
#[verifier::ext_equal]
pub struct Pairing {
    pub job: Seq<char>,
    pub skip: bool,
    pub opens: Map<Seq<char>, Map<Seq<char>, Seq<Open>>>,
    pub witnesses: Seq<Map<Seq<char>, (i64, i64)>>,
    pub queues: Seq<Map<Seq<char>, Seq<(i64, i64)>>>,
    pub items: Seq<ItemModel>,
}

impl DeepView for JobState {
    type V = Pairing;

    closed spec fn deep_view(&self) -> Pairing {
        Pairing {
            job: self.job@,
            skip: self.skip,
            opens: self.opens@,
            witnesses: self.witnesses.deep_view(),
            queues: self.queues.deep_view(),
            items: self.items.deep_view(),
        }
    }
}

/// The empty pairing state of a job.
pub open spec fn new_pairing(job: Seq<char>, skip: bool) -> Pairing {
    Pairing {
        job,
        skip,
        opens: Map::empty(),
        witnesses: Seq::new(KIND_COUNT as nat, |kind: int| Map::empty()),
        queues: Seq::new(KIND_COUNT as nat, |kind: int| Map::empty()),
        items: seq![],
    }
}

/// The pending opens under a stem and suffix, in open order.
pub open spec fn pending_under(state: Pairing, stem: Seq<char>, suffix: Seq<char>) -> Seq<Open> {
    at_or(at_or(state.opens, stem, Map::empty()), suffix, seq![])
}

/// The state with the pending opens under a stem and suffix replaced.
pub open spec fn with_pending(
    state: Pairing,
    stem: Seq<char>,
    suffix: Seq<char>,
    pending: Seq<Open>,
) -> Pairing {
    Pairing {
        opens: state.opens.insert(
            stem,
            at_or(state.opens, stem, Map::empty()).insert(suffix, pending),
        ),
        ..state
    }
}

/// The witness queue of a kind under a tag, the oldest first.
pub open spec fn queue_under(state: Pairing, kind: int, tag: Seq<char>) -> Seq<(i64, i64)> {
    at_or(state.queues[kind], tag, seq![])
}

/// The state with the witness queue of a kind under a tag replaced.
pub open spec fn with_queue(
    state: Pairing,
    kind: int,
    tag: Seq<char>,
    queue: Seq<(i64, i64)>,
) -> Pairing {
    Pairing {
        queues: state.queues.update(kind, state.queues[kind].insert(tag, queue)),
        ..state
    }
}

/// The suffix that keys a marker's pending opens under its stem: its instance digits, or its tag.
pub open spec fn suffix_of(hit: HitModel, tag: Seq<char>) -> Seq<char> {
    match hit.x {
        Some(x) => x,
        None => tag,
    }
}

/// A text that may be absent, empty where it is.
pub open spec fn or_empty(text: Option<Seq<char>>) -> Seq<char> {
    match text {
        Some(text) => text,
        None => seq![],
    }
}

/// The way in which compute opens of a kind claim its witnesses, of a paired kind.
pub open spec fn policy(kind: int) -> Option<Claim> {
    match kind_row(kind).witness {
        Some((_, claim)) => Some(claim),
        None => None,
    }
}

/// The oldest witness of a queue taken out of it.
pub open spec fn popped(state: Pairing, kind: int, tag: Seq<char>) -> (Pairing, Option<(i64, i64)>) {
    let queue = queue_under(state, kind, tag);
    if queue.len() > 0 {
        (with_queue(state, kind, tag, queue.skip(1)), Some(queue[0]))
    } else {
        (state, None)
    }
}

/// The completed witness a compute open consumes, per its kind's claim policy, taken out of the
/// state. A miss leaves the state as it is.
pub open spec fn claimed(state: Pairing, kind: int, x: Option<Seq<char>>, tag: Seq<char>) -> (
    Pairing,
    Option<(i64, i64)>,
) {
    match policy(kind) {
        None => (state, None),
        Some(Claim::ByX) => if state.witnesses[kind].dom().contains(or_empty(x)) {
            (
                Pairing {
                    witnesses: state.witnesses.update(
                        kind,
                        state.witnesses[kind].remove(or_empty(x)),
                    ),
                    ..state
                },
                Some(state.witnesses[kind][or_empty(x)]),
            )
        } else {
            (state, None)
        },
        Some(Claim::TagFifo) => popped(state, kind, tag),
        Some(Claim::GlobalFifo) => popped(state, kind, seq![]),
    }
}

/// The state after a bracket opened. A compute open claims its completed witness here.
pub open spec fn opened(state: Pairing, hit: HitModel, tag: Seq<char>, ts: i64) -> Pairing {
    let (state, claimed) = match hit.side {
        Side::Compute => claimed(state, hit.kind as int, hit.x, tag),
        Side::Witness => (state, None),
    };
    let suffix = suffix_of(hit, tag);
    with_pending(
        state,
        hit.stem,
        suffix,
        pending_under(state, hit.stem, suffix).push(
            Open { kind: hit.kind, side: hit.side, ts, claimed },
        ),
    )
}

/// How far a pending open lies from the instant that a close and its printed duration name.
pub open spec fn distance(open: Open, close_ts: i64, duration: i64) -> int {
    let gap = close_ts - duration - open.ts;
    if gap < 0 {
        -gap
    } else {
        gap
    }
}

/// Whether one open lies nearer to the named instant than another, the earlier of two as near.
pub open spec fn nearer(left: Open, right: Open, close_ts: i64, duration: i64) -> bool {
    let (l, r) = (distance(left, close_ts, duration), distance(right, close_ts, duration));
    l < r || l == r && left.ts < right.ts
}

/// The nearest of the first `count` pending opens, the first of those alike.
pub open spec fn nearest(pending: Seq<Open>, close_ts: i64, duration: i64, count: int) -> int
    decreases count,
{
    if count <= 1 {
        0
    } else {
        let before = nearest(pending, close_ts, duration, count - 1);
        if nearer(pending[count - 1], pending[before], close_ts, duration) {
            count - 1
        } else {
            before
        }
    }
}

/// The place of the pending open that a close pairs with. The printed duration back-computes the
/// open instant and picks the nearest pending open, earliest on a tie. Without a duration the first
/// open is taken.
pub open spec fn paired_open(pending: Seq<Open>, close_ts: i64, duration: Option<i64>) -> int {
    match duration {
        Some(duration) => nearest(pending, close_ts, duration, pending.len() as int),
        None => 0,
    }
}

/// The place of the earliest unclaimed of the first `count` opens, the first of those alike.
pub open spec fn earliest(pending: Seq<Open>, count: int) -> Option<int>
    decreases count,
{
    if count <= 0 {
        None
    } else {
        let before = earliest(pending, count - 1);
        let open = pending[count - 1];
        if open.claimed is None && (before is None || open.ts < pending[before->0].ts) {
            Some(count - 1)
        } else {
            before
        }
    }
}

/// The suffix and place of the earliest unclaimed open under the first `count` suffixes of a stem,
/// the first of those alike in the order of suffixes.
pub open spec fn earliest_of_all(pendings: Map<Seq<char>, Seq<Open>>, count: int) -> Option<
    (Seq<char>, int),
>
    decreases count,
{
    if count <= 0 {
        None
    } else {
        let before = earliest_of_all(pendings, count - 1);
        let suffix = sorted_keys(pendings)[count - 1];
        match earliest(pendings[suffix], pendings[suffix].len() as int) {
            Some(at) => if before is None || pendings[suffix][at].ts
                < pendings[(before->0).0][(before->0).1].ts {
                Some((suffix, at))
            } else {
                before
            },
            None => before,
        }
    }
}

/// The suffix and place of the pending compute open that a completed witness attaches to, under
/// one suffix or, where none is given, under all of them.
pub open spec fn late_place(
    pendings: Map<Seq<char>, Seq<Open>>,
    only: Option<Seq<char>>,
) -> Option<(Seq<char>, int)> {
    match only {
        Some(suffix) => {
            let pending = at_or(pendings, suffix, seq![]);
            match earliest(pending, pending.len() as int) {
                Some(at) => Some((suffix, at)),
                None => None,
            }
        },
        None => earliest_of_all(pendings, sorted_keys(pendings).len() as int),
    }
}

/// The one suffix under which a kind's computes may take a late witness, none where any may.
pub open spec fn late_suffix(kind: int, x: Seq<char>, tag: Seq<char>) -> Option<Seq<char>> {
    match policy(kind) {
        Some(Claim::ByX) => if kind_row(kind).compute.numbered {
            Some(x)
        } else {
            None
        },
        Some(Claim::TagFifo) => Some(tag),
        _ => None,
    }
}

/// The state with a completed witness interval attached to the earliest pending compute open of its
/// kind whose claim came up empty, where there is one.
pub open spec fn late_attached(
    state: Pairing,
    kind: int,
    x: Seq<char>,
    tag: Seq<char>,
    interval: (i64, i64),
) -> Option<Pairing> {
    let stem = kind_row(kind).compute.text@;
    match late_place(at_or(state.opens, stem, Map::empty()), late_suffix(kind, x, tag)) {
        Some((suffix, at)) => {
            let pending = pending_under(state, stem, suffix);
            Some(
                with_pending(
                    state,
                    stem,
                    suffix,
                    pending.update(at, Open { claimed: Some(interval), ..pending[at] }),
                ),
            )
        },
        None => None,
    }
}

/// The state with a completed witness interval stored where its kind's claim policy looks for it.
pub open spec fn stored(
    state: Pairing,
    kind: int,
    x: Seq<char>,
    tag: Seq<char>,
    interval: (i64, i64),
) -> Pairing {
    match policy(kind) {
        Some(Claim::ByX) => Pairing {
            witnesses: state.witnesses.update(kind, state.witnesses[kind].insert(x, interval)),
            ..state
        },
        Some(Claim::TagFifo) => with_queue(
            state,
            kind,
            tag,
            queue_under(state, kind, tag).push(interval),
        ),
        Some(Claim::GlobalFifo) => with_queue(
            state,
            kind,
            seq![],
            queue_under(state, kind, seq![]).push(interval),
        ),
        None => state,
    }
}

/// The item an open produced, the claimed witness first and the compute segment second, or the
/// open's own segment alone when nothing was claimed.
pub open spec fn item_of(open: Open, end: Option<i64>) -> ItemModel {
    match open.claimed {
        Some((start, witness_end)) => ItemModel {
            kind: open.kind,
            first: (start, Some(witness_end)),
            second: Some((open.ts, end)),
            meta: no_meta(),
        },
        None => ItemModel {
            kind: open.kind,
            first: (open.ts, end),
            second: None,
            meta: no_meta(),
        },
    }
}

/// The state after a bracket closed, none where no open was pending for it. A completed witness
/// attaches late or is stored under the kind its own open resolved to, and a completed compute
/// emits its item.
pub open spec fn closed_state(
    state: Pairing,
    hit: HitModel,
    tag: Seq<char>,
    ts: i64,
    duration: Option<i64>,
) -> Option<Pairing> {
    let suffix = suffix_of(hit, tag);
    let pending = pending_under(state, hit.stem, suffix);
    if pending.len() == 0 {
        None
    } else {
        let at = paired_open(pending, ts, duration);
        let open = pending[at];
        let state = with_pending(state, hit.stem, suffix, pending.remove(at));
        Some(
            match open.side {
                Side::Witness => {
                    let interval = (open.ts, ts);
                    let x = or_empty(hit.x);
                    match late_attached(state, open.kind as int, x, tag, interval) {
                        Some(state) => state,
                        None => stored(state, open.kind as int, x, tag, interval),
                    }
                },
                Side::Compute => Pairing {
                    items: state.items.push(item_of(open, Some(ts))),
                    ..state
                },
            },
        )
    }
}

/// The least distance of the first `count` pending opens from the instant that a close names, zero
/// without a printed duration.
pub open spec fn least_distance(
    pending: Seq<Open>,
    ts: i64,
    duration: Option<i64>,
    count: int,
) -> Option<int>
    decreases count,
{
    if count <= 0 {
        None
    } else {
        let here = match duration {
            Some(duration) => distance(pending[count - 1], ts, duration),
            None => 0,
        };
        match least_distance(pending, ts, duration, count - 1) {
            Some(before) => if here < before {
                Some(here)
            } else {
                Some(before)
            },
            None => Some(here),
        }
    }
}

/// The dangling items of a list of pending opens.
pub open spec fn dangling(pending: Seq<Open>) -> Seq<ItemModel> {
    pending.map_values(|open: Open| item_of(open, None))
}

/// The dangling items under the first `count` suffixes of a stem.
pub open spec fn dangling_under(pendings: Map<Seq<char>, Seq<Open>>, count: int) -> Seq<ItemModel>
    decreases count,
{
    if count <= 0 {
        seq![]
    } else {
        dangling_under(pendings, count - 1) + dangling(pendings[sorted_keys(pendings)[count - 1]])
    }
}

/// The dangling items under the first `count` stems.
pub open spec fn dangling_all(
    opens: Map<Seq<char>, Map<Seq<char>, Seq<Open>>>,
    count: int,
) -> Seq<ItemModel>
    decreases count,
{
    if count <= 0 {
        seq![]
    } else {
        let pendings = opens[sorted_keys(opens)[count - 1]];
        dangling_all(opens, count - 1) + dangling_under(
            pendings,
            sorted_keys(pendings).len() as int,
        )
    }
}

/// The lone segment of an unclaimed completed witness.
pub open spec fn lone(kind: int, interval: (i64, i64)) -> ItemModel {
    ItemModel {
        kind: kind as usize,
        first: (interval.0, Some(interval.1)),
        second: None,
        meta: no_meta(),
    }
}

/// The lone segments of the held witnesses of a kind, of the first `count` instances.
pub open spec fn lone_held(kind: int, held: Map<Seq<char>, (i64, i64)>, count: int) -> Seq<
    ItemModel,
>
    decreases count,
{
    if count <= 0 {
        seq![]
    } else {
        lone_held(kind, held, count - 1).push(lone(kind, held[sorted_keys(held)[count - 1]]))
    }
}

/// The lone segments of the held witnesses of the first `count` kinds.
pub open spec fn lone_held_all(held: Seq<Map<Seq<char>, (i64, i64)>>, count: int) -> Seq<ItemModel>
    decreases count,
{
    if count <= 0 {
        seq![]
    } else {
        lone_held_all(held, count - 1) + lone_held(
            count - 1,
            held[count - 1],
            sorted_keys(held[count - 1]).len() as int,
        )
    }
}

/// The lone segments of the queued witnesses of a kind, of the first `count` tags.
pub open spec fn lone_queued(kind: int, queues: Map<Seq<char>, Seq<(i64, i64)>>, count: int) -> Seq<
    ItemModel,
>
    decreases count,
{
    if count <= 0 {
        seq![]
    } else {
        lone_queued(kind, queues, count - 1) + queues[sorted_keys(queues)[count - 1]].map_values(
            |interval: (i64, i64)| lone(kind, interval),
        )
    }
}

/// The lone segments of the queued witnesses of the first `count` kinds.
pub open spec fn lone_queued_all(
    queues: Seq<Map<Seq<char>, Seq<(i64, i64)>>>,
    count: int,
) -> Seq<ItemModel>
    decreases count,
{
    if count <= 0 {
        seq![]
    } else {
        lone_queued_all(queues, count - 1) + lone_queued(
            count - 1,
            queues[count - 1],
            sorted_keys(queues[count - 1]).len() as int,
        )
    }
}

/// All items of a job: those that closed, then a dangling item per pending open, then a lone
/// segment per unclaimed completed witness.
pub open spec fn all_items(state: Pairing) -> Seq<ItemModel> {
    state.items + dangling_all(state.opens, sorted_keys(state.opens).len() as int) + lone_held_all(
        state.witnesses,
        KIND_COUNT as int,
    ) + lone_queued_all(state.queues, KIND_COUNT as int)
}

/// Whether opens name kinds of the table.
pub open spec fn kinds_known(pending: Seq<Open>) -> bool {
    forall|i: int| 0 <= i < pending.len() ==> (#[trigger] pending[i]).kind < KIND_COUNT
}

/// What every pairing state keeps: a slot per kind, and opens that name kinds of the table.
pub open spec fn well_formed(state: Pairing) -> bool {
    &&& state.witnesses.len() == KIND_COUNT
    &&& state.queues.len() == KIND_COUNT
    &&& forall|stem: Seq<char>, suffix: Seq<char>|
        kinds_known(#[trigger] pending_under(state, stem, suffix))
}

proof fn lemma_with_pending(
    state: Pairing,
    stem: Seq<char>,
    suffix: Seq<char>,
    pending: Seq<Open>,
)
    requires
        well_formed(state),
        kinds_known(pending),
    ensures
        well_formed(with_pending(state, stem, suffix, pending)),
        pending_under(with_pending(state, stem, suffix, pending), stem, suffix) == pending,
{
    let next = with_pending(state, stem, suffix, pending);
    assert forall|a: Seq<char>, b: Seq<char>| kinds_known(#[trigger] pending_under(next, a, b)) by {
        if a == stem && b == suffix {
        } else {
            assert(pending_under(next, a, b) == pending_under(state, a, b));
        }
    }
}

/// Replacing a witness store keeps a state well formed.
proof fn lemma_same_opens(state: Pairing, next: Pairing)
    requires
        well_formed(state),
        next.opens == state.opens,
        next.witnesses.len() == state.witnesses.len(),
        next.queues.len() == state.queues.len(),
    ensures
        well_formed(next),
{
    assert forall|a: Seq<char>, b: Seq<char>| kinds_known(#[trigger] pending_under(next, a, b)) by {
        assert(pending_under(next, a, b) == pending_under(state, a, b));
    }
}

fn new_item(
    kind: usize,
    first: (i64, Option<i64>),
    second: Option<(i64, Option<i64>)>,
) -> (item: PipelineItem)
    ensures
        item.deep_view() == (ItemModel { kind, first, second, meta: no_meta() }),
{
    PipelineItem { kind, first, second, meta: PipelineItemMeta::default() }
}

/// Builds the item an open produced, the claimed witness first and the compute segment second, or
/// the open's own segment alone when nothing was claimed. A None end marks a segment the flush
/// left dangling, and a pending witness open flushes through the same unclaimed shape.
fn item(open: Open, end: Option<i64>) -> (item: PipelineItem)
    ensures
        item.deep_view() == item_of(open, end),
{
    match open.claimed {
        Some((start, witness_end)) => new_item(
            open.kind,
            (start, Some(witness_end)),
            Some((open.ts, end)),
        ),
        None => new_item(open.kind, (open.ts, end), None),
    }
}

/// The distance of an open from the instant that a close and its printed duration name.
fn gap(open: Open, close_ts: i64, duration: i64) -> (gap: i128)
    ensures
        gap == distance(open, close_ts, duration),
{
    let gap: i128 = close_ts as i128 - duration as i128 - open.ts as i128;
    if gap < 0 {
        -gap
    } else {
        gap
    }
}

/// The place of the pending open that a close pairs with. The printed duration back-computes the
/// open instant and picks the nearest pending open, earliest on a tie, which pairs overlapping
/// brackets whose completions arrive out of order. Without a duration the first open is taken.
pub fn take_open(pending: &Vec<Open>, close_ts: i64, duration: Option<i64>) -> (at: usize)
    requires
        pending@.len() > 0,
    ensures
        at == paired_open(pending@, close_ts, duration),
        at < pending@.len(),
{
    match duration {
        Some(duration) => {
            let mut best: usize = 0;
            let mut count: usize = 1;
            while count < pending.len()
                invariant
                    1 <= count <= pending@.len(),
                    best < count,
                    best == nearest(pending@, close_ts, duration, count as int),
                decreases pending@.len() - count,
            {
                let (here, there) = (
                    gap(pending[count], close_ts, duration),
                    gap(pending[best], close_ts, duration),
                );
                if here < there || here == there && pending[count].ts < pending[best].ts {
                    best = count;
                }
                count += 1;
            }
            best
        },
        None => 0,
    }
}

/// The place of the earliest unclaimed open, the first of those alike.
fn earliest_open(pending: &Vec<Open>) -> (at: Option<usize>)
    ensures
        match at {
            Some(at) => earliest(pending@, pending@.len() as int) == Some(at as int) && at
                < pending@.len(),
            None => earliest(pending@, pending@.len() as int) is None,
        },
{
    let mut best: Option<usize> = None;
    for count in 0..pending.len()
        invariant
            match best {
                Some(at) => earliest(pending@, count as int) == Some(at as int) && at < count,
                None => earliest(pending@, count as int) is None,
            },
    {
        let open: Open = pending[count];
        if open.claimed.is_none() {
            match best {
                Some(at) => {
                    if open.ts < pending[at].ts {
                        best = Some(count);
                    }
                },
                None => {
                    best = Some(count);
                },
            }
        }
    }
    best
}

fn copy_opens(pending: &Vec<Open>) -> (copy: Vec<Open>)
    ensures
        copy@ == pending@,
{
    let mut copy: Vec<Open> = Vec::new();
    for i in 0..pending.len()
        invariant
            copy@ == pending@.take(i as int),
    {
        copy.push(pending[i]);
    }
    copy
}

fn or_blank(x: &Option<Vec<char>>) -> (text: Vec<char>)
    ensures
        text@ == or_empty(
            match x {
                Some(x) => Some(x@),
                None => None,
            },
        ),
{
    match x {
        Some(x) => copied(x.as_slice()),
        None => {
            let text: Vec<char> = Vec::new();
            assert(text@ =~= seq![]);
            text
        },
    }
}

fn suffix(hit: &Hit, tag: &[char]) -> (suffix: Vec<char>)
    ensures
        suffix@ == suffix_of(hit@, tag@),
{
    match &hit.x {
        Some(x) => copied(x.as_slice()),
        None => copied(tag),
    }
}

impl JobState {
    /// Creates the empty pairing state for a job, skipping collection on a re-dispatch.
    pub fn new(job: Vec<char>, skip: bool) -> (state: JobState)
        ensures
            state.deep_view() == new_pairing(job@, skip),
            well_formed(state.deep_view()),
    {
        let mut witnesses: Vec<TextMap<(i64, i64)>> = Vec::new();
        let mut queues: Vec<TextMap<Vec<(i64, i64)>>> = Vec::new();
        for kind in 0..KIND_COUNT
            invariant
                witnesses@.len() == kind,
                queues@.len() == kind,
                forall|i: int| 0 <= i < kind ==> (#[trigger] witnesses@[i])@ == Map::<Seq<char>, (i64, i64)>::empty(),
                forall|i: int| 0 <= i < kind ==> (#[trigger] queues@[i])@ == Map::<Seq<char>, Seq<(i64, i64)>>::empty(),
        {
            witnesses.push(TextMap::new());
            queues.push(TextMap::new());
        }
        let state = JobState {
            job,
            skip,
            opens: TextMap::new(),
            witnesses,
            queues,
            items: Vec::new(),
        };
        proof {
            assert(state.deep_view() =~= new_pairing(job@, skip));
            assert forall|a: Seq<char>, b: Seq<char>|
                kinds_known(#[trigger] pending_under(state.deep_view(), a, b)) by {}
        }
        state
    }

    /// The job.
    pub fn job(&self) -> (job: &[char])
        ensures
            job@ == self.deep_view().job,
    {
        self.job.as_slice()
    }

    /// Whether the job is a re-dispatch that collects nothing.
    pub fn skipped(&self) -> (skipped: bool)
        ensures
            skipped == self.deep_view().skip,
    {
        self.skip
    }

    /// The pending opens under a stem and suffix.
    fn pending(&self, stem: &[char], suffix: &[char]) -> (pending: Vec<Open>)
        ensures
            pending@ == pending_under(self.deep_view(), stem@, suffix@),
    {
        match self.opens.get(stem) {
            Some(pendings) => match pendings.get(suffix) {
                Some(pending) => {
                    let copy: Vec<Open> = copy_opens(pending);
                    assert(pending.deep_view() =~= copy@);
                    copy
                },
                None => Vec::new(),
            },
            None => Vec::new(),
        }
    }

    /// Replaces the pending opens under a stem and suffix.
    fn set_pending(&mut self, stem: &[char], suffix: &[char], pending: Vec<Open>)
        requires
            well_formed(old(self).deep_view()),
            kinds_known(pending@),
        ensures
            final(self).deep_view() == with_pending(
                old(self).deep_view(),
                stem@,
                suffix@,
                pending@,
            ),
            well_formed(final(self).deep_view()),
    {
        let ghost before = self.deep_view();
        let mut pendings: TextMap<Vec<Open>> = match self.opens.remove(stem) {
            Some(pendings) => pendings,
            None => TextMap::new(),
        };
        assert(pending.deep_view() =~= pending@);
        pendings.insert(copied(suffix), pending);
        self.opens.insert(copied(stem), pendings);
        proof {
            lemma_replace(before.opens, stem@, pendings@);
            if !before.opens.dom().contains(stem@) {
                assert(before.opens.remove(stem@) =~= before.opens);
            }
            lemma_with_pending(before, stem@, suffix@, pending@);
            assert(self.deep_view() =~= with_pending(before, stem@, suffix@, pending@));
        }
    }

    /// The witness queue of a kind under a tag.
    fn queue(&self, kind: usize, tag: &[char]) -> (queue: Vec<(i64, i64)>)
        requires
            kind < KIND_COUNT,
            well_formed(self.deep_view()),
        ensures
            queue@ == queue_under(self.deep_view(), kind as int, tag@),
    {
        let mut copy: Vec<(i64, i64)> = Vec::new();
        assert(self.deep_view().queues[kind as int] == self.queues@[kind as int]@);
        match self.queues[kind].get(tag) {
            Some(queue) => {
                for i in 0..queue.len()
                    invariant
                        copy@ == queue@.take(i as int),
                {
                    copy.push(queue[i]);
                }
                assert(queue.deep_view() =~= copy@);
            },
            None => {},
        }
        copy
    }

    /// Replaces the witness queue of a kind under a tag.
    fn set_queue(&mut self, kind: usize, tag: &[char], queue: Vec<(i64, i64)>)
        requires
            kind < KIND_COUNT,
            well_formed(old(self).deep_view()),
        ensures
            final(self).deep_view() == with_queue(
                old(self).deep_view(),
                kind as int,
                tag@,
                queue@,
            ),
            well_formed(final(self).deep_view()),
    {
        let ghost before = self.deep_view();
        assert(queue.deep_view() =~= queue@);
        assert(before.queues[kind as int] == self.queues@[kind as int]@);
        self.queues[kind].insert(copied(tag), queue);
        proof {
            assert(self.deep_view().queues =~= with_queue(
                before,
                kind as int,
                tag@,
                queue@,
            ).queues);
            lemma_same_opens(before, self.deep_view());
        }
    }

    /// Takes the oldest witness of a queue out of it.
    fn pop(&mut self, kind: usize, tag: &[char]) -> (taken: Option<(i64, i64)>)
        requires
            kind < KIND_COUNT,
            well_formed(old(self).deep_view()),
        ensures
            (final(self).deep_view(), taken) == popped(old(self).deep_view(), kind as int, tag@),
            well_formed(final(self).deep_view()),
    {
        let mut queue: Vec<(i64, i64)> = self.queue(kind, tag);
        if queue.len() == 0 {
            return None;
        }
        let ghost whole = queue@;
        let first: (i64, i64) = queue.remove(0);
        assert(queue@ =~= whole.skip(1));
        self.set_queue(kind, tag, queue);
        Some(first)
    }

    /// Claims the completed witness a compute open consumes, per its kind's claim policy. A miss
    /// leaves the item compute-only, the normal state for a cached witness.
    pub fn claim(&mut self, kind: usize, x: &Option<Vec<char>>, tag: &[char]) -> (taken: Option<
        (i64, i64),
    >)
        requires
            kind < KIND_COUNT,
            well_formed(old(self).deep_view()),
        ensures
            (final(self).deep_view(), taken) == claimed(
                old(self).deep_view(),
                kind as int,
                match x {
                    Some(x) => Some(x@),
                    None => None,
                },
                tag@,
            ),
            well_formed(final(self).deep_view()),
    {
        let row: Kind = kind_at(kind);
        match row.witness {
            None => None,
            Some((_, Claim::ByX)) => {
                let key: Vec<char> = or_blank(x);
                let ghost before = self.deep_view();
                assert(before.witnesses[kind as int] == self.witnesses@[kind as int]@);
                let taken: Option<(i64, i64)> = self.witnesses[kind].remove(key.as_slice());
                proof {
                    if taken is Some {
                        assert(self.deep_view().witnesses =~= before.witnesses.update(
                            kind as int,
                            before.witnesses[kind as int].remove(key@),
                        ));
                    } else {
                        assert(self.deep_view().witnesses =~= before.witnesses);
                    }
                    lemma_same_opens(before, self.deep_view());
                }
                taken
            },
            Some((_, Claim::TagFifo)) => self.pop(kind, tag),
            Some((_, Claim::GlobalFifo)) => {
                let global: Vec<char> = Vec::new();
                assert(global@ =~= seq![]);
                self.pop(kind, global.as_slice())
            },
        }
    }

    /// Records a bracket open. A compute open claims its completed witness here rather than at its
    /// close, so a dangling compute keeps the witness it consumed.
    pub fn open(&mut self, hit: &Hit, tag: &[char], ts: i64)
        requires
            hit.kind < KIND_COUNT,
            well_formed(old(self).deep_view()),
        ensures
            final(self).deep_view() == opened(old(self).deep_view(), hit@, tag@, ts),
            well_formed(final(self).deep_view()),
    {
        let claimed: Option<(i64, i64)> = match hit.side {
            Side::Compute => self.claim(hit.kind, &hit.x, tag),
            Side::Witness => None,
        };
        let suffix: Vec<char> = suffix(hit, tag);
        let mut pending: Vec<Open> = self.pending(hit.stem.as_slice(), suffix.as_slice());
        assert(kinds_known(pending_under(self.deep_view(), hit.stem@, suffix@)));
        pending.push(Open { kind: hit.kind, side: hit.side, ts, claimed });
        self.set_pending(hit.stem.as_slice(), suffix.as_slice(), pending);
    }

    /// The suffix and place of the pending compute open that a completed witness attaches to.
    fn late_open(&self, stem: &[char], only: &Option<Vec<char>>) -> (place: Option<
        (Vec<char>, usize),
    >)
        ensures
            match place {
                Some((suffix, at)) => {
                    &&& late_place(
                        at_or(self.deep_view().opens, stem@, Map::empty()),
                        match only {
                            Some(only) => Some(only@),
                            None => None,
                        },
                    ) == Some((suffix@, at as int))
                    &&& at < pending_under(self.deep_view(), stem@, suffix@).len()
                },
                None => late_place(
                    at_or(self.deep_view().opens, stem@, Map::empty()),
                    match only {
                        Some(only) => Some(only@),
                        None => None,
                    },
                ) is None,
            },
    {
        let ghost pendings = at_or(self.deep_view().opens, stem@, Map::empty());
        match only {
            Some(suffix) => {
                let pending: Vec<Open> = self.pending(stem, suffix.as_slice());
                match earliest_open(&pending) {
                    Some(at) => Some((copied(suffix.as_slice()), at)),
                    None => None,
                }
            },
            None => match self.opens.get(stem) {
                Some(inner) => {
                    let mut best: Option<(Vec<char>, usize, i64)> = None;
                    let len: usize = inner.len();
                    for count in 0..len
                        invariant
                            inner@ == pendings,
                            len == sorted_keys(pendings).len(),
                            match best {
                                Some((suffix, at, ts)) => {
                                    &&& earliest_of_all(pendings, count as int) == Some(
                                        (suffix@, at as int),
                                    )
                                    &&& pendings.dom().contains(suffix@)
                                    &&& at < pendings[suffix@].len()
                                    &&& ts == pendings[suffix@][at as int].ts
                                },
                                None => earliest_of_all(pendings, count as int) is None,
                            },
                    {
                        let pending: &Vec<Open> = inner.value_at(count);
                        assert(pending.deep_view() =~= pending@);
                        match earliest_open(pending) {
                            Some(at) => {
                                let ts: i64 = pending[at].ts;
                                let better: bool = match &best {
                                    Some(best) => ts < best.2,
                                    None => true,
                                };
                                if better {
                                    best = Some((copied(inner.key_at(count)), at, ts));
                                }
                            },
                            None => {},
                        }
                    }
                    match best {
                        Some((suffix, at, _)) => Some((suffix, at)),
                        None => None,
                    }
                },
                None => {
                    let empty: TextMap<Vec<Open>> = TextMap::new();
                    let len: usize = empty.len();
                    proof {
                        assert(empty@ == pendings);
                        if len > 0 {
                            let key = sorted_keys(pendings)[0];
                            assert(sorted_keys(pendings).contains(key));
                        }
                    }
                    None
                },
            },
        }
    }

    /// Attaches a completed witness interval to the earliest pending compute open of its kind
    /// whose claim came up empty, keyed like the kind's claim policy, because the interleaved
    /// logger usually prints the compute open before the witness close. Returns false when no such
    /// open is pending, leaving the interval for a later compute open to claim.
    pub fn late_attach(&mut self, kind: usize, x: &[char], tag: &[char], interval: (i64, i64)) -> (
        attached: bool)
        requires
            kind < KIND_COUNT,
            well_formed(old(self).deep_view()),
        ensures
            well_formed(final(self).deep_view()),
            match late_attached(old(self).deep_view(), kind as int, x@, tag@, interval) {
                Some(state) => attached && final(self).deep_view() == state,
                None => !attached && final(self).deep_view() == old(self).deep_view(),
            },
    {
        let row: Kind = kind_at(kind);
        let stem: Vec<char> = to_chars(row.compute.text);
        let only: Option<Vec<char>> = match row.witness {
            Some((_, Claim::ByX)) => if row.compute.numbered {
                Some(copied(x))
            } else {
                None
            },
            Some((_, Claim::TagFifo)) => Some(copied(tag)),
            _ => None,
        };
        match self.late_open(stem.as_slice(), &only) {
            Some((suffix, at)) => {
                let mut pending: Vec<Open> = self.pending(stem.as_slice(), suffix.as_slice());
                assert(kinds_known(pending_under(self.deep_view(), stem@, suffix@)));
                let open: Open = pending[at];
                pending[at] = Open {
                    kind: open.kind,
                    side: open.side,
                    ts: open.ts,
                    claimed: Some(interval),
                };
                self.set_pending(stem.as_slice(), suffix.as_slice(), pending);
                true
            },
            None => false,
        }
    }

    /// Stores a completed witness interval where its kind's claim policy looks for it.
    pub fn store(&mut self, kind: usize, x: &[char], tag: &[char], interval: (i64, i64))
        requires
            kind < KIND_COUNT,
            well_formed(old(self).deep_view()),
        ensures
            final(self).deep_view() == stored(
                old(self).deep_view(),
                kind as int,
                x@,
                tag@,
                interval,
            ),
            well_formed(final(self).deep_view()),
    {
        let row: Kind = kind_at(kind);
        match row.witness {
            Some((_, Claim::ByX)) => {
                let ghost before = self.deep_view();
                assert(before.witnesses[kind as int] == self.witnesses@[kind as int]@);
                self.witnesses[kind].insert(copied(x), interval);
                proof {
                    assert(self.deep_view().witnesses =~= before.witnesses.update(
                        kind as int,
                        before.witnesses[kind as int].insert(x@, interval),
                    ));
                    lemma_same_opens(before, self.deep_view());
                }
            },
            Some((_, Claim::TagFifo)) => {
                let mut queue: Vec<(i64, i64)> = self.queue(kind, tag);
                queue.push(interval);
                self.set_queue(kind, tag, queue);
            },
            Some((_, Claim::GlobalFifo)) => {
                let global: Vec<char> = Vec::new();
                assert(global@ =~= seq![]);
                let mut queue: Vec<(i64, i64)> = self.queue(kind, global.as_slice());
                queue.push(interval);
                self.set_queue(kind, global.as_slice(), queue);
            },
            None => {},
        }
    }

    /// Joins a bracket close to its pending open, returning whether this job held one so the
    /// caller can route a miss to the other job slot. A completed witness attaches late to a
    /// pending compute open of its kind or is stored for a later compute claim, under the kind its
    /// own open resolved to, and a completed compute emits its item.
    pub fn close(&mut self, hit: &Hit, tag: &[char], ts: i64, duration: Option<i64>) -> (held: bool)
        requires
            well_formed(old(self).deep_view()),
        ensures
            well_formed(final(self).deep_view()),
            match closed_state(old(self).deep_view(), hit@, tag@, ts, duration) {
                Some(state) => held && final(self).deep_view() == state,
                None => !held && final(self).deep_view() == old(self).deep_view(),
            },
    {
        let suffix: Vec<char> = suffix(hit, tag);
        let mut pending: Vec<Open> = self.pending(hit.stem.as_slice(), suffix.as_slice());
        assert(kinds_known(pending_under(self.deep_view(), hit.stem@, suffix@)));
        if pending.len() == 0 {
            return false;
        }
        let at: usize = take_open(&pending, ts, duration);
        let open: Open = pending.remove(at);
        self.set_pending(hit.stem.as_slice(), suffix.as_slice(), pending);
        match open.side {
            Side::Witness => {
                let x: Vec<char> = or_blank(&hit.x);
                if !self.late_attach(open.kind, x.as_slice(), tag, (open.ts, ts)) {
                    self.store(open.kind, x.as_slice(), tag, (open.ts, ts));
                }
            },
            Side::Compute => {
                let ghost before = self.deep_view();
                let item: PipelineItem = item(open, Some(ts));
                self.items.push(item);
                proof {
                    assert(self.deep_view().items =~= before.items.push(item.deep_view()));
                    lemma_same_opens(before, self.deep_view());
                }
            },
        }
        true
    }

    /// The best duration distance among this job's pending opens for a close, None when none pend,
    /// zero without a printed duration so slot preference decides.
    pub fn close_distance(&self, hit: &Hit, tag: &[char], ts: i64, duration: Option<i64>) -> (
        least: Option<i128>)
        ensures
            ({
                let pending = pending_under(
                    self.deep_view(),
                    hit@.stem,
                    suffix_of(hit@, tag@),
                );
                match least {
                    Some(least) => least_distance(pending, ts, duration, pending.len() as int)
                        == Some(least as int),
                    None => least_distance(pending, ts, duration, pending.len() as int) is None,
                }
            }),
    {
        let suffix: Vec<char> = suffix(hit, tag);
        let pending: Vec<Open> = self.pending(hit.stem.as_slice(), suffix.as_slice());
        let mut least: Option<i128> = None;
        for count in 0..pending.len()
            invariant
                match least {
                    Some(least) => least_distance(pending@, ts, duration, count as int) == Some(
                        least as int,
                    ),
                    None => least_distance(pending@, ts, duration, count as int) is None,
                },
        {
            let here: i128 = match duration {
                Some(duration) => gap(pending[count], ts, duration),
                None => 0,
            };
            least = match least {
                Some(before) => Some(
                    if here < before {
                        here
                    } else {
                        before
                    },
                ),
                None => Some(here),
            };
        }
        least
    }
}

fn push_item(items: &mut Vec<PipelineItem>, item: PipelineItem)
    ensures
        final(items).deep_view() == old(items).deep_view().push(item.deep_view()),
{
    items.push(item);
    assert(items.deep_view() =~= old(items).deep_view().push(item.deep_view()));
}

fn push_dangling(items: &mut Vec<PipelineItem>, pending: &Vec<Open>)
    ensures
        final(items).deep_view() == old(items).deep_view() + dangling(pending@),
{
    let ghost before = items.deep_view();
    assert(before + dangling(pending@.take(0)) =~= before);
    for i in 0..pending.len()
        invariant
            items.deep_view() == before + dangling(pending@.take(i as int)),
    {
        push_item(items, item(pending[i], None));
        assert(items.deep_view() =~= before + dangling(pending@.take(i + 1)));
    }
    assert(pending@.take(pending@.len() as int) =~= pending@);
}

fn push_lone(items: &mut Vec<PipelineItem>, kind: usize, interval: (i64, i64))
    ensures
        final(items).deep_view() == old(items).deep_view().push(lone(kind as int, interval)),
{
    push_item(items, new_item(kind, (interval.0, Some(interval.1)), None));
}

/// All items of a job's leftover pairing state.
pub fn leftover_items(state: JobState) -> (items: Vec<PipelineItem>)
    requires
        well_formed(state.deep_view()),
    ensures
        items.deep_view() == all_items(state.deep_view()),
{
    let ghost model = state.deep_view();
    let mut items: Vec<PipelineItem> = state.items;
    let opens: TextMap<TextMap<Vec<Open>>> = state.opens;
    let witnesses: Vec<TextMap<(i64, i64)>> = state.witnesses;
    let queues: Vec<TextMap<Vec<(i64, i64)>>> = state.queues;
    assert(model.items + dangling_all(model.opens, 0) =~= model.items);
    let stems: usize = opens.len();
    for i in 0..stems
        invariant
            opens@ == model.opens,
            stems == sorted_keys(model.opens).len(),
            items.deep_view() == model.items + dangling_all(model.opens, i as int),
    {
        let pendings: &TextMap<Vec<Open>> = opens.value_at(i);
        let suffixes: usize = pendings.len();
        let ghost before = items.deep_view();
        assert(before + dangling_under(pendings@, 0) =~= before);
        for j in 0..suffixes
            invariant
                suffixes == sorted_keys(pendings@).len(),
                items.deep_view() == before + dangling_under(pendings@, j as int),
        {
            let pending: &Vec<Open> = pendings.value_at(j);
            assert(pending.deep_view() =~= pending@);
            push_dangling(&mut items, pending);
            assert(items.deep_view() =~= before + dangling_under(pendings@, j + 1));
        }
        assert(items.deep_view() =~= model.items + dangling_all(model.opens, i + 1));
    }
    let ghost opened = items.deep_view();
    assert(opened + lone_held_all(model.witnesses, 0) =~= opened);
    for kind in 0..KIND_COUNT
        invariant
            witnesses.deep_view() == model.witnesses,
            witnesses@.len() == KIND_COUNT,
            items.deep_view() == opened + lone_held_all(model.witnesses, kind as int),
    {
        let held: &TextMap<(i64, i64)> = &witnesses[kind];
        assert(held@ == model.witnesses[kind as int]);
        let len: usize = held.len();
        let ghost before = items.deep_view();
        assert(before + lone_held(kind as int, held@, 0) =~= before);
        for j in 0..len
            invariant
                len == sorted_keys(held@).len(),
                items.deep_view() == before + lone_held(kind as int, held@, j as int),
        {
            let interval: (i64, i64) = *held.value_at(j);
            push_lone(&mut items, kind, interval);
            assert(items.deep_view() =~= before + lone_held(kind as int, held@, j + 1));
        }
        assert(items.deep_view() =~= opened + lone_held_all(model.witnesses, kind + 1));
    }
    let ghost held = items.deep_view();
    assert(held + lone_queued_all(model.queues, 0) =~= held);
    for kind in 0..KIND_COUNT
        invariant
            queues.deep_view() == model.queues,
            queues@.len() == KIND_COUNT,
            items.deep_view() == held + lone_queued_all(model.queues, kind as int),
    {
        let tags: &TextMap<Vec<(i64, i64)>> = &queues[kind];
        assert(tags@ == model.queues[kind as int]);
        let len: usize = tags.len();
        let ghost before = items.deep_view();
        assert(before + lone_queued(kind as int, tags@, 0) =~= before);
        for j in 0..len
            invariant
                len == sorted_keys(tags@).len(),
                items.deep_view() == before + lone_queued(kind as int, tags@, j as int),
        {
            let queue: &Vec<(i64, i64)> = tags.value_at(j);
            assert(queue.deep_view() =~= queue@);
            let ghost start = items.deep_view();
            let ghost lones = queue@.map_values(|interval: (i64, i64)| lone(kind as int, interval));
            assert(start + lones.take(0) =~= start);
            for k in 0..queue.len()
                invariant
                    lones == queue@.map_values(|interval: (i64, i64)| lone(kind as int, interval)),
                    items.deep_view() == start + lones.take(k as int),
            {
                push_lone(&mut items, kind, queue[k]);
                assert(items.deep_view() =~= start + lones.take(k + 1));
            }
            assert(lones.take(queue@.len() as int) =~= lones);
            assert(items.deep_view() =~= before + lone_queued(kind as int, tags@, j + 1));
        }
        assert(items.deep_view() =~= held + lone_queued_all(model.queues, kind + 1));
    }
    assert(items.deep_view() =~= all_items(model));
    items
}

} // verus!
