//! Extracts each node's fine pipeline items from the zisk worker marker brackets.
//!
//! The worker brackets every sub-step between ">>>" and "<<<" markers at mixed log levels, so the
//! scanner is level agnostic and matches stems rather than line shapes. A close with no pending open
//! and a marker outside any job are dropped, and a job's leftover state flushes as dangling and lone
//! items when the next job starts, the process restarts, or the log ends.

use vstd::prelude::*;

use crate::error::{Failure, Result};
use crate::log::{ms_of, prefix_chars, prefix_of, ts_read, ItemModel, PipelineItem, Ts};
use crate::text::{
    around, around_first, between, copied, i64_read, inside, is, lines, lines_of, read_i64, same,
    to_chars, to_text, views, words, words_of,
};
use crate::text_map::{at_or, lemma_replace, TextMap};
use crate::zisk::kinds::{classified, classify, kind_at, kind_row, Hit, HitModel, Kind, KIND_COUNT};
use crate::zisk::worker::{banner, first_token, has_ts, is_restart_banner, leading_ts, stamped};
use crate::zisk::pairing::{
    JobState, Pairing, all_items, closed_state, least_distance, leftover_items, new_pairing, opened,
    pending_under, suffix_of, well_formed,
};

verus! {

/// Per-node pipeline items for each job, by job and then by node.
pub type Pipelines = Map<Seq<char>, Map<Seq<char>, Seq<ItemModel>>>;

/// The pipelines with a job's items recorded for a node, unless the job is a skipped re-dispatch or
/// the node has items for it already.
pub open spec fn flushed(pipelines: Pipelines, state: Pairing, node: Seq<char>) -> Pipelines {
    if state.skip {
        pipelines
    } else {
        let nodes = at_or(pipelines, state.job, Map::empty());
        pipelines.insert(
            state.job,
            if nodes.dom().contains(node) {
                nodes
            } else {
                nodes.insert(node, all_items(state))
            },
        )
    }
}

/// Per-node pipeline items for one job, keyed by node id, the value of the per-job map.
pub type JobPipelines = TextMap<Vec<PipelineItem>>;

/// Flushes a job's leftover pairing state and records the node's items, a pending open becoming a
/// dangling item and an unclaimed completed witness a lone segment. A skipped re-dispatch records
/// nothing, keeping the first run's items.
fn flush(state: JobState, node: &[char], pipelines: &mut TextMap<JobPipelines>)
    requires
        well_formed(state.deep_view()),
    ensures
        final(pipelines)@ == flushed(old(pipelines)@, state.deep_view(), node@),
{
    if state.skipped() {
        return;
    }
    let ghost before = pipelines@;
    let job: Vec<char> = copied(state.job());
    let items: Vec<PipelineItem> = leftover_items(state);
    let mut nodes: JobPipelines = match pipelines.remove(job.as_slice()) {
        Some(nodes) => nodes,
        None => TextMap::new(),
    };
    if !nodes.contains_key(node) {
        nodes.insert(copied(node), items);
    }
    proof {
        lemma_replace(before, job@, nodes@);
        if !before.dom().contains(job@) {
            assert(before.remove(job@) =~= before);
        }
    }
    pipelines.insert(job, nodes);
}

/// The pairing state for a newly announced job, skipping collection when the node already recorded
/// the job.
pub open spec fn announced(id: Seq<char>, node: Seq<char>, pipelines: Pipelines) -> Pairing {
    let job = prefix_of(id);
    new_pairing(
        job,
        pipelines.dom().contains(job) && pipelines[job].dom().contains(node),
    )
}

/// Creates the pairing state for a newly announced job, skipping collection when the node already
/// recorded the job, the re-dispatch first-write-wins convention.
fn fresh(id: &[char], node: &[char], pipelines: &TextMap<JobPipelines>) -> (state: JobState)
    ensures
        state.deep_view() == announced(id@, node@, pipelines@),
        well_formed(state.deep_view()),
{
    let job: Vec<char> = prefix_chars(id);
    let skip: bool = match pipelines.get(job.as_slice()) {
        Some(nodes) => nodes.contains_key(node),
        None => false,
    };
    JobState::new(job, skip)
}

/// The contribution slot, the prove slot, and the items recorded so far.
#[verifier::ext_equal]
pub struct Slots {
    pub p1: Option<Pairing>,
    pub p2: Option<Pairing>,
    pub pipelines: Pipelines,
}

/// The pipelines after a slot that may be empty is flushed.
pub open spec fn slot_flushed(
    pipelines: Pipelines,
    slot: Option<Pairing>,
    node: Seq<char>,
) -> Pipelines {
    match slot {
        Some(state) => flushed(pipelines, state, node),
        None => pipelines,
    }
}

/// The bracketed tag and the printed duration among the first `count` words after a marker, the
/// last of each.
pub open spec fn tag_and_duration(words: Seq<Seq<char>>, count: int) -> (Seq<char>, Option<i64>)
    decreases count,
{
    if count <= 0 {
        (seq![], None)
    } else {
        let (tag, duration) = tag_and_duration(words, count - 1);
        let word = words[count - 1];
        match between(word, "["@, "]"@) {
            Some(inner) => (inner, duration),
            None => match between(word, "("@, "ms)"@) {
                Some(ms) => (
                    tag,
                    match i64_read(ms) {
                        Some(ms) => Some(ms as i64),
                        None => None,
                    },
                ),
                None => (tag, duration),
            },
        }
    }
}

/// Whether an open of a kind belongs to the contribution slot.
pub open spec fn contributes(kind: int) -> bool {
    kind_row(kind).phase@ == "emulation"@ || kind_row(kind).phase@ == "commit"@
}

/// A slot after a bracket opened in it. An empty slot and a skipped re-dispatch collect nothing.
pub open spec fn slot_opened(
    slot: Option<Pairing>,
    hit: HitModel,
    tag: Seq<char>,
    ts: i64,
) -> Option<Pairing> {
    match slot {
        Some(state) => if state.skip {
            slot
        } else {
            Some(opened(state, hit, tag, ts))
        },
        None => None,
    }
}

/// A slot after a bracket closed in it, none where it held no open for the close.
pub open spec fn slot_closed(
    slot: Option<Pairing>,
    hit: HitModel,
    tag: Seq<char>,
    ts: i64,
    duration: Option<i64>,
) -> Option<Pairing> {
    match slot {
        Some(state) => closed_state(state, hit, tag, ts, duration),
        None => None,
    }
}

/// The least distance of a slot's pending opens from the instant that a close names.
pub open spec fn slot_distance(
    slot: Option<Pairing>,
    hit: HitModel,
    tag: Seq<char>,
    ts: i64,
    duration: Option<i64>,
) -> Option<int> {
    match slot {
        Some(state) => {
            let pending = pending_under(state, hit.stem, suffix_of(hit, tag));
            least_distance(pending, ts, duration, pending.len() as int)
        },
        None => None,
    }
}

/// The slots after a close. It goes to the slot whose pending open lies nearer to the instant that
/// the close names, the contribution slot on a tie, and to the other where that one held none.
pub open spec fn routed_close(
    slots: Slots,
    hit: HitModel,
    tag: Seq<char>,
    ts: i64,
    duration: Option<i64>,
) -> Slots {
    let d1 = slot_distance(slots.p1, hit, tag, ts, duration);
    let d2 = slot_distance(slots.p2, hit, tag, ts, duration);
    let c1 = slot_closed(slots.p1, hit, tag, ts, duration);
    let c2 = slot_closed(slots.p2, hit, tag, ts, duration);
    let prove_first = d1 is Some && d2 is Some && d2->0 < d1->0;
    if c2 is Some && (prove_first || c1 is None) {
        Slots { p2: c2, ..slots }
    } else if c1 is Some {
        Slots { p1: c1, ..slots }
    } else {
        slots
    }
}

/// The slots after a marker line, whether it opens a bracket or closes one, from the words that
/// follow its arrows.
pub open spec fn marked(
    slots: Slots,
    line: Seq<char>,
    is_open: bool,
    tail: Seq<char>,
) -> core::result::Result<Slots, Failure> {
    let words = words_of(tail);
    if words.len() == 0 {
        Ok(slots)
    } else {
        match classified(words[0], slots.p1 is None) {
            None => Ok(slots),
            Some(hit) => {
                let rest = words.skip(1);
                let (tag, duration) = tag_and_duration(rest, rest.len() as int);
                match ts_read(first_token(line)) {
                    Err(failure) => Err(failure),
                    Ok(ns) => {
                        let ts = ms_of(ns);
                        Ok(
                            if !is_open {
                                routed_close(slots, hit, tag, ts, duration)
                            } else if contributes(hit.kind as int) {
                                Slots { p1: slot_opened(slots.p1, hit, tag, ts), ..slots }
                            } else {
                                Slots { p2: slot_opened(slots.p2, hit, tag, ts), ..slots }
                            },
                        )
                    },
                }
            },
        }
    }
}

/// The slots after one line of a worker log.
pub open spec fn stepped(slots: Slots, line: Seq<char>, node: Seq<char>) -> core::result::Result<
    Slots,
    Failure,
> {
    if !stamped(line) {
        if banner(line) {
            Ok(
                Slots {
                    p1: None,
                    p2: None,
                    pipelines: slot_flushed(
                        slot_flushed(slots.pipelines, slots.p2, node),
                        slots.p1,
                        node,
                    ),
                },
            )
        } else {
            Ok(slots)
        }
    } else {
        match around_first(line, " INFO: Starting Partial Contribution for "@) {
            Some((_, uuid)) => {
                let pipelines = slot_flushed(slots.pipelines, slots.p1, node);
                Ok(Slots { p1: Some(announced(uuid, node, pipelines)), pipelines, ..slots })
            },
            None => match around_first(line, " INFO: Starting Prove for JobId("@) {
                Some((_, id)) => {
                    let pipelines = slot_flushed(slots.pipelines, slots.p2, node);
                    if slots.p1 is Some && slots.p1->0.job == prefix_of(id) {
                        Ok(Slots { p1: None, p2: slots.p1, pipelines })
                    } else {
                        Ok(Slots { p2: Some(announced(id, node, pipelines)), pipelines, ..slots })
                    }
                },
                None => if slots.p1 is None && slots.p2 is None {
                    Ok(slots)
                } else {
                    match around_first(line, " >>> "@) {
                        Some((_, tail)) => marked(slots, line, true, tail),
                        None => match around_first(line, " <<< "@) {
                            Some((_, tail)) => marked(slots, line, false, tail),
                            None => Ok(slots),
                        },
                    }
                },
            },
        }
    }
}

/// The items recorded once all lines are read and both slots flushed, with the error that ended the
/// read early.
pub open spec fn scanned(slots: Slots, lines: Seq<Seq<char>>, node: Seq<char>) -> (
    Pipelines,
    Option<Failure>,
)
    decreases lines.len(),
{
    if lines.len() == 0 {
        (
            slot_flushed(slot_flushed(slots.pipelines, slots.p2, node), slots.p1, node),
            None,
        )
    } else {
        match stepped(slots, lines[0], node) {
            Ok(next) => scanned(next, lines.skip(1), node),
            Err(failure) => (slots.pipelines, Some(failure)),
        }
    }
}

/// What every slot keeps.
pub open spec fn slot_well_formed(slot: Option<Pairing>) -> bool {
    slot is Some ==> well_formed(slot->0)
}

fn flush_slot(slot: Option<JobState>, node: &[char], pipelines: &mut TextMap<JobPipelines>)
    requires
        slot_well_formed(slot.deep_view()),
    ensures
        final(pipelines)@ == slot_flushed(old(pipelines)@, slot.deep_view(), node@),
{
    match slot {
        Some(state) => flush(state, node, pipelines),
        None => {},
    }
}

fn open_slot(slot: Option<JobState>, hit: &Hit, tag: &[char], ts: i64) -> (next: Option<JobState>)
    requires
        slot_well_formed(slot.deep_view()),
        hit.kind < KIND_COUNT,
    ensures
        next.deep_view() == slot_opened(slot.deep_view(), hit@, tag@, ts),
        slot_well_formed(next.deep_view()),
{
    match slot {
        Some(state) => {
            let mut state: JobState = state;
            if !state.skipped() {
                state.open(hit, tag, ts);
            }
            Some(state)
        },
        None => None,
    }
}

fn close_slot(
    slot: Option<JobState>,
    hit: &Hit,
    tag: &[char],
    ts: i64,
    duration: Option<i64>,
) -> (next: (Option<JobState>, bool))
    requires
        slot_well_formed(slot.deep_view()),
    ensures
        slot_well_formed(next.0.deep_view()),
        match slot_closed(slot.deep_view(), hit@, tag@, ts, duration) {
            Some(state) => next.1 && next.0.deep_view() == Some(state),
            None => !next.1 && next.0.deep_view() == slot.deep_view(),
        },
{
    match slot {
        Some(state) => {
            let mut state: JobState = state;
            let held: bool = state.close(hit, tag, ts, duration);
            (Some(state), held)
        },
        None => (None, false),
    }
}

fn distance_of(slot: &Option<JobState>, hit: &Hit, tag: &[char], ts: i64, duration: Option<i64>) -> (
    least: Option<i128>)
    ensures
        match least {
            Some(least) => slot_distance(slot.deep_view(), hit@, tag@, ts, duration) == Some(
                least as int,
            ),
            None => slot_distance(slot.deep_view(), hit@, tag@, ts, duration) is None,
        },
{
    match slot {
        Some(state) => state.close_distance(hit, tag, ts, duration),
        None => None,
    }
}

/// The bracketed tag and the printed duration of a marker, the last of each.
fn read_tail(words: &Vec<Vec<char>>) -> (read: (Vec<char>, Option<i64>))
    requires
        words@.len() > 0,
    ensures
        ({
            let rest = views(words@).skip(1);
            (read.0@, read.1) == tag_and_duration(rest, rest.len() as int)
        }),
{
    let mut tag: Vec<char> = Vec::new();
    let mut duration: Option<i64> = None;
    let ghost rest = views(words@).skip(1);
    assert(tag@ =~= seq![]);
    for i in 1..words.len()
        invariant
            words@.len() > 0,
            rest == views(words@).skip(1),
            (tag@, duration) == tag_and_duration(rest, i - 1),
    {
        let word = words[i].as_slice();
        assert(rest[i - 1] == word@);
        match inside(word, "[", "]") {
            Some(inner) => {
                tag = copied(inner);
            },
            None => match inside(word, "(", "ms)") {
                Some(ms) => {
                    duration = read_i64(ms);
                },
                None => {},
            },
        }
    }
    (tag, duration)
}

/// Reads a marker line into the slots.
fn mark(
    p1: Option<JobState>,
    p2: Option<JobState>,
    line: &[char],
    is_open: bool,
    tail: &[char],
    pipelines: Ghost<Pipelines>,
) -> (next: Result<(Option<JobState>, Option<JobState>)>)
    requires
        slot_well_formed(p1.deep_view()),
        slot_well_formed(p2.deep_view()),
    ensures
        match next {
            Ok((n1, n2)) => {
                &&& slot_well_formed(n1.deep_view())
                &&& slot_well_formed(n2.deep_view())
                &&& marked(
                    Slots { p1: p1.deep_view(), p2: p2.deep_view(), pipelines: pipelines@ },
                    line@,
                    is_open,
                    tail@,
                ) == Ok::<Slots, Failure>(
                    Slots { p1: n1.deep_view(), p2: n2.deep_view(), pipelines: pipelines@ },
                )
            },
            Err(error) => marked(
                Slots { p1: p1.deep_view(), p2: p2.deep_view(), pipelines: pipelines@ },
                line@,
                is_open,
                tail@,
            ) == Err::<Slots, Failure>(error@),
        },
{
    let words: Vec<Vec<char>> = words(tail);
    assert(views(words@) == words_of(tail@));
    if words.len() == 0 {
        return Ok((p1, p2));
    }
    assert(words_of(tail@)[0] == words@[0]@);
    match classify(words[0].as_slice(), p1.is_none()) {
        None => Ok((p1, p2)),
        Some(hit) => {
            let (tag, duration) = read_tail(&words);
            match Ts::parse(to_text(leading_ts(line)).as_str()) {
                Err(error) => Err(error),
                Ok(ts) => {
                    let ts: i64 = ts.epoch_ms();
                    let tag = tag.as_slice();
                    if is_open {
                        let row: Kind = kind_at(hit.kind);
                        let phase: Vec<char> = to_chars(row.phase);
                        if is(phase.as_slice(), "emulation") || is(phase.as_slice(), "commit") {
                            Ok((open_slot(p1, &hit, tag, ts), p2))
                        } else {
                            Ok((p1, open_slot(p2, &hit, tag, ts)))
                        }
                    } else {
                        // Both slots can hold a pending open under the close's key when the same
                        // instance runs in the proving job and the next contribution, so the
                        // printed duration picks the slot whose open it back-computes to, the
                        // contribution slot on a tie or with no duration.
                        let d1: Option<i128> = distance_of(&p1, &hit, tag, ts, duration);
                        let d2: Option<i128> = distance_of(&p2, &hit, tag, ts, duration);
                        let prove_first: bool = match (d1, d2) {
                            (Some(a), Some(b)) => b < a,
                            _ => false,
                        };
                        if prove_first {
                            let (p2, held) = close_slot(p2, &hit, tag, ts, duration);
                            if held {
                                Ok((p1, p2))
                            } else {
                                let (p1, _) = close_slot(p1, &hit, tag, ts, duration);
                                Ok((p1, p2))
                            }
                        } else {
                            let (p1, held) = close_slot(p1, &hit, tag, ts, duration);
                            if held {
                                Ok((p1, p2))
                            } else {
                                let (p2, _) = close_slot(p2, &hit, tag, ts, duration);
                                Ok((p1, p2))
                            }
                        }
                    }
                },
            }
        },
    }
}

/// Reads one line of a worker log into the slots.
fn step(
    p1: Option<JobState>,
    p2: Option<JobState>,
    line: &[char],
    node: &[char],
    pipelines: &mut TextMap<JobPipelines>,
) -> (next: Result<(Option<JobState>, Option<JobState>)>)
    requires
        slot_well_formed(p1.deep_view()),
        slot_well_formed(p2.deep_view()),
    ensures
        match next {
            Ok((n1, n2)) => {
                &&& slot_well_formed(n1.deep_view())
                &&& slot_well_formed(n2.deep_view())
                &&& stepped(
                    Slots {
                        p1: p1.deep_view(),
                        p2: p2.deep_view(),
                        pipelines: old(pipelines)@,
                    },
                    line@,
                    node@,
                ) == Ok::<Slots, Failure>(
                    Slots {
                        p1: n1.deep_view(),
                        p2: n2.deep_view(),
                        pipelines: final(pipelines)@,
                    },
                )
            },
            Err(error) => {
                &&& stepped(
                    Slots {
                        p1: p1.deep_view(),
                        p2: p2.deep_view(),
                        pipelines: old(pipelines)@,
                    },
                    line@,
                    node@,
                ) == Err::<Slots, Failure>(error@)
                &&& final(pipelines)@ == old(pipelines)@
            },
        },
{
    if !has_ts(line) {
        if is_restart_banner(line) {
            // The prove slot flushes first so a re-dispatched contribution of the same job never
            // outraces the first run under first-write-wins.
            flush_slot(p2, node, pipelines);
            flush_slot(p1, node, pipelines);
            return Ok((None, None));
        }
        return Ok((p1, p2));
    }
    if let Some((_, uuid)) = around(line, " INFO: Starting Partial Contribution for ") {
        flush_slot(p1, node, pipelines);
        return Ok((Some(fresh(uuid, node, pipelines)), p2));
    }
    if let Some((_, id)) = around(line, " INFO: Starting Prove for JobId(") {
        flush_slot(p2, node, pipelines);
        let promoted: bool = match &p1 {
            Some(state) => {
                let job: Vec<char> = prefix_chars(id);
                same(state.job(), job.as_slice())
            },
            None => false,
        };
        if promoted {
            return Ok((None, p1));
        }
        return Ok((p1, Some(fresh(id, node, pipelines))));
    }
    if p1.is_none() && p2.is_none() {
        return Ok((p1, p2));
    }
    if let Some((_, tail)) = around(line, " >>> ") {
        return mark(p1, p2, line, true, tail, Ghost(pipelines@));
    }
    if let Some((_, tail)) = around(line, " <<< ") {
        return mark(p1, p2, line, false, tail, Ghost(pipelines@));
    }
    Ok((p1, p2))
}

/// What one worker log adds to the items recorded so far, with the error that ended the read.
pub open spec fn parsed(clean: Seq<char>, node: Seq<char>, pipelines: Pipelines) -> (
    Pipelines,
    Option<Failure>,
) {
    scanned(Slots { p1: None, p2: None, pipelines }, lines_of(clean), node)
}

/// Parses one ansi-stripped worker log's pipeline markers into per-job items for the given node,
/// keyed by the eight-hex job prefix like the stage map. The contribution and prove jobs are
/// tracked in separate slots like the stage parser because zisk may dispatch the next job's
/// contribution while the current job proves. Starting Partial Contribution flushes the old
/// contribution slot, and a re-dispatched job keeps its first run's items, the module's
/// first-write-wins convention. Starting Prove flushes the old prove slot and promotes the
/// contribution slot when it holds the same job. An open routes to the slot owning its kind's
/// phase, with the wc stem resolving to the contribution kind while a contribution runs, a close
/// routes to whichever slot holds its pending open, and the prove-success line leaves the prove
/// slot open because the aggregator's vadcop brackets follow inside the same job window. A restart
/// banner mid-job flushes both slots' pending opens as dangling items, so the restart's own
/// brackets attach to nothing.
pub fn parse(clean: &str, node: &str, pipelines: &mut TextMap<JobPipelines>) -> (parsed_log: Result<
    (),
>)
    ensures
        final(pipelines)@ == parsed(clean@, node@, old(pipelines)@).0,
        match parsed_log {
            Ok(()) => parsed(clean@, node@, old(pipelines)@).1 is None,
            Err(error) => parsed(clean@, node@, old(pipelines)@).1 == Some(error@),
        },
{
    let ghost expected = parsed(clean@, node@, pipelines@);
    let name: Vec<char> = to_chars(node);
    let chars: Vec<char> = to_chars(clean);
    let lines: Vec<Vec<char>> = lines(chars.as_slice());
    let mut p1: Option<JobState> = None;
    let mut p2: Option<JobState> = None;
    let ghost all = lines_of(clean@);
    assert(all.skip(0) =~= all);
    for i in 0..lines.len()
        invariant
            all == views(lines@),
            name@ == node@,
            expected == parsed(clean@, node@, old(pipelines)@),
            slot_well_formed(p1.deep_view()),
            slot_well_formed(p2.deep_view()),
            expected == scanned(
                Slots { p1: p1.deep_view(), p2: p2.deep_view(), pipelines: pipelines@ },
                all.skip(i as int),
                node@,
            ),
    {
        assert(all.skip(i as int)[0] == lines@[i as int]@);
        assert(all.skip(i as int).skip(1) =~= all.skip(i + 1));
        match step(p1, p2, lines[i].as_slice(), name.as_slice(), pipelines) {
            Ok((n1, n2)) => {
                p1 = n1;
                p2 = n2;
            },
            Err(error) => {
                return Err(error);
            },
        }
    }
    flush_slot(p2, name.as_slice(), pipelines);
    flush_slot(p1, name.as_slice(), pipelines);
    Ok(())
}

} // verus!
