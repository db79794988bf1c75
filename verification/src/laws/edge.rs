//! What every line of an openvm coordinator log does to the jobs, and what holds of every openvm
//! node's windows.

use vstd::prelude::*;

use crate::error::Failure;
use crate::log::{ts_read, us_of, ItemModel, LogStatus};
use crate::openvm::coordinator::{
    consumed_all, ensured, event_applied, job_of, job_place, line_applied, with_job, JobModel,
};
use crate::openvm::phases::{
    envelope_of, leaf_indexed, log_of, node_items, node_of, node_windows, nodes_of, nodes_upto,
    span_rows, step_row, subphase_at, transfer_window, window_of, JobWork, STEP_COUNT,
};
use crate::pattern::group_text;
use crate::text::{contains_piece, i64_read, lemma_first_from, occurs_at, unsigned_read};
use crate::text_map::{lemma_finite_sorted, sorted_members};
use crate::zkvm::{no_window, opt_keys};

verus! {

/// A job of which nothing but its id is known.
pub open spec fn blank_job(id: Seq<char>) -> JobModel {
    JobModel {
        id,
        status: LogStatus::Unknown,
        t_start: None,
        t_end: None,
        fanout_start_us: None,
        input_bytes: None,
        num_segments: None,
        leaf_arity: None,
        duration_s: None,
    }
}

/// Whether an event changed one job and nothing else: the first job of the id, or where there is none
/// a blank one that is added behind the others.
pub open spec fn changes(
    jobs: Seq<JobModel>,
    after: Seq<JobModel>,
    id: Seq<char>,
    change: spec_fn(JobModel, JobModel) -> bool,
) -> bool {
    ||| exists|place: int|
        {
            &&& 0 <= place < jobs.len()
            &&& (#[trigger] jobs[place]).id == id
            &&& forall|i: int| 0 <= i < place ==> (#[trigger] jobs[i]).id != id
            &&& after.len() == jobs.len()
            &&& change(jobs[place], after[place])
            &&& forall|i: int| 0 <= i < jobs.len() && i != place ==> #[trigger] after[i] == jobs[i]
        }
    ||| {
        &&& forall|i: int| 0 <= i < jobs.len() ==> (#[trigger] jobs[i]).id != id
        &&& after.len() == jobs.len() + 1
        &&& change(blank_job(id), after.last())
        &&& after.drop_last() == jobs
    }
}

proof fn lemma_job_place(jobs: Seq<JobModel>, id: Seq<char>, from: int)
    requires
        0 <= from <= jobs.len(),
    ensures
        from <= job_place(jobs, id, from) <= jobs.len(),
        job_place(jobs, id, from) < jobs.len() ==> jobs[job_place(jobs, id, from)].id == id,
        forall|i: int|
            from <= i < job_place(jobs, id, from) && i < jobs.len() ==> (#[trigger] jobs[i]).id
                != id,
    decreases jobs.len() - from,
{
    if from < jobs.len() && jobs[from].id != id {
        lemma_job_place(jobs, id, from + 1);
    }
}

proof fn lemma_changes(
    jobs: Seq<JobModel>,
    id: Seq<char>,
    job: JobModel,
    change: spec_fn(JobModel, JobModel) -> bool,
)
    requires
        change(job_of(jobs, id), job),
    ensures
        changes(jobs, with_job(jobs, id, job), id, change),
{
    lemma_job_place(jobs, id, 0);
    let place = job_place(jobs, id, 0);
    let after = with_job(jobs, id, job);
    if place < jobs.len() {
        assert(jobs[place].id == id);
        assert(change(jobs[place], after[place]));
    } else {
        assert(after.drop_last() =~= jobs);
        assert(ensured(jobs, id)[place] =~= blank_job(id));
    }
}

/// What an event of a job sets. A start sets when the proof started, and a fan-out the size of the
/// input and when the fan-out began, its elapsed milliseconds before the line. The tail gives the
/// segments and the leaf arity, and the metrics the duration in milliseconds. A completion makes the
/// proof a success that ended then, and a failure ends it failed unless it succeeded.
pub open spec fn event_sets(
    rule: int,
    groups: Seq<Option<Seq<char>>>,
    ns: int,
    before: JobModel,
    after: JobModel,
) -> bool {
    if rule == 0 {
        after == (JobModel { t_start: Some(ns), ..before })
    } else if rule == 1 {
        let bytes = unsigned_read(group_text(groups, 3), u64::MAX as int);
        let elapsed = i64_read(group_text(groups, 4));
        let gone = if elapsed is Some {
            elapsed->0
        } else {
            0
        };
        &&& after == (JobModel {
            fanout_start_us: after.fanout_start_us,
            input_bytes: after.input_bytes,
            ..before
        })
        &&& after.fanout_start_us is Some
        &&& i64::MIN <= gone * 1000 <= i64::MAX && i64::MIN <= us_of(ns) - gone * 1000 <= i64::MAX
            ==> after.fanout_start_us->0 == us_of(ns) - gone * 1000
        &&& after.input_bytes is Some <==> bytes is Some
        &&& after.input_bytes is Some ==> after.input_bytes->0 == bytes->0
    } else if rule == 2 {
        let segments = unsigned_read(group_text(groups, 3), u64::MAX as int);
        let arity = i64_read(group_text(groups, 4));
        &&& after == (JobModel {
            num_segments: after.num_segments,
            leaf_arity: after.leaf_arity,
            ..before
        })
        &&& after.num_segments is Some <==> segments is Some
        &&& after.num_segments is Some ==> after.num_segments->0 == segments->0
        &&& after.leaf_arity is Some <==> arity is Some
        &&& after.leaf_arity is Some ==> after.leaf_arity->0 == arity->0
    } else if rule == 3 {
        let text = group_text(groups, 3);
        &&& after == (JobModel { duration_s: after.duration_s, ..before })
        &&& after.duration_s is Some <==> crate::laws::texts::numeral(text)
        &&& after.duration_s is Some ==> after.duration_s->0 == (text, 1000u32)
    } else if rule == 4 {
        after == (JobModel { status: LogStatus::Success, t_end: Some(ns), ..before })
    } else if before.status == LogStatus::Success {
        after == before
    } else {
        after == (JobModel { status: LogStatus::Failed, t_end: Some(ns), ..before })
    }
}

/// Every recognised line sets what its event sets, on the proof that it names, and nothing else.
pub proof fn edge_lines_set_their_event(
    jobs: Seq<JobModel>,
    rule: int,
    groups: Seq<Option<Seq<char>>>,
    line: Seq<char>,
    ns: int,
)
    requires
        0 <= rule <= 5,
        ts_read(group_text(groups, 1)) == Ok::<int, Failure>(ns),
    ensures
        ({
            let after = line_applied(jobs, Some((rule, groups)), line);
            after is Ok && changes(
                jobs,
                after->Ok_0,
                group_text(groups, 2),
                |before: JobModel, after: JobModel| event_sets(rule, groups, ns, before, after),
            )
        }),
{
    let id = group_text(groups, 2);
    let job = job_of(jobs, id);
    crate::laws::texts::unsigned_is_within(group_text(groups, 3), u64::MAX as int);
    crate::laws::texts::signed_is_within(group_text(groups, 4));
    let text = group_text(groups, 3);
    if text.len() > 0 && crate::text::all_digits(text) {
        assert forall|i: int| 0 <= i < text.len() implies '0' <= #[trigger] text[i] <= '9' by {
            assert(crate::text::is_digit(text[i]));
        }
    }
    let next = event_applied(job, rule, groups)->Ok_0;
    assert(event_sets(rule, groups, ns, job, next));
    lemma_changes(
        jobs,
        id,
        next,
        |before: JobModel, after: JobModel| event_sets(rule, groups, ns, before, after),
    );
}

/// A line whose event happened at a moment that cannot be read is refused with that reason.
pub proof fn unreadable_moment_is_refused(
    jobs: Seq<JobModel>,
    rule: int,
    groups: Seq<Option<Seq<char>>>,
    line: Seq<char>,
    failure: Failure,
)
    requires
        rule == 0 || rule == 1 || rule == 4 || rule == 5,
        ts_read(group_text(groups, 1)) == Err::<int, Failure>(failure),
    ensures
        line_applied(jobs, Some((rule, groups)), line) == Err::<Seq<JobModel>, Failure>(failure),
{
}

/// The lines of a log are taken one after another: two parts of a log give what the second gives on
/// top of the first.
pub proof fn edge_logs_are_read_in_order(
    jobs: Seq<JobModel>,
    first: Seq<Seq<char>>,
    second: Seq<Seq<char>>,
)
    ensures
        consumed_all(jobs, first + second) == match consumed_all(jobs, first) {
            Ok(between) => consumed_all(between, second),
            Err(failure) => Err(failure),
        },
    decreases first.len(),
{
    if first.len() == 0 {
        assert(first + second =~= second);
    } else {
        assert((first + second).skip(1) =~= first.skip(1) + second);
        match crate::openvm::coordinator::consumed(jobs, first[0]) {
            Ok(next) => edge_logs_are_read_in_order(next, first.skip(1), second),
            Err(_) => {},
        }
    }
}

/// A window is its two bounds where the end comes after the start, and absent otherwise.
pub proof fn window_is_its_bounds(start: i64, end: i64)
    ensures
        start < end ==> window_of(Some(start), Some(end)) == Some((start, end)),
        end <= start ==> window_of(Some(start), Some(end)) is None,
        window_of(None, Some(end)) is None,
        window_of(Some(start), None) is None,
{
}

/// The input transfer runs from the fan-out's start to the last write, in milliseconds. One that took
/// less than a millisecond lasts one, and one that took no time lasts none.
pub proof fn input_transfer_is_never_lost(start_us: i64, end_us: i64)
    requires
        0 <= start_us,
        0 <= end_us,
    ensures
        ({
            let window = transfer_window(Some(start_us), Some(end_us));
            &&& window is Some
            &&& (window->0).0 * 1000 <= start_us < (window->0).0 * 1000 + 1000
            &&& (window->0).0 <= (window->0).1
            &&& start_us < end_us <==> (window->0).0 < (window->0).1
            &&& start_us / 1000 < end_us / 1000 ==> (window->0).1 * 1000 <= end_us
                < (window->0).1 * 1000 + 1000
            &&& start_us < end_us && start_us / 1000 == end_us / 1000 ==> (window->0).1 == (
            window->0).0 + 1
        }),
        transfer_window(None, Some(end_us)) is None,
        transfer_window(Some(start_us), None) is None,
{
}

/// Whether a closed half of an item of either kind runs from one moment to another.
pub open spec fn is_half(
    items: Seq<ItemModel>,
    count: int,
    first: usize,
    second: usize,
    start: i64,
    end: i64,
) -> bool {
    exists|i: int|
        0 <= i < count && ((#[trigger] items[i]).kind == first || items[i].kind == second) && (
        items[i].first == (start, Some(end)) || items[i].second == Some((start, Some(end))))
}

proof fn lemma_half_kept(
    items: Seq<ItemModel>,
    count: int,
    first: usize,
    second: usize,
    start: i64,
    end: i64,
)
    requires
        is_half(items, count - 1, first, second, start, end),
    ensures
        is_half(items, count, first, second, start, end),
{
    let i = choose|i: int|
        0 <= i < count - 1 && ((#[trigger] items[i]).kind == first || items[i].kind == second) && (
        items[i].first == (start, Some(end)) || items[i].second == Some((start, Some(end))));
    assert(items[i].kind == first || items[i].kind == second);
}

spec fn spanned(
    bounds: Option<(i64, i64)>,
    items: Seq<ItemModel>,
    count: int,
    first: usize,
    second: usize,
) -> bool {
    &&& bounds is Some ==> (exists|end: i64|
        is_half(items, count, first, second, (bounds->0).0, end)) && (exists|start: i64|
        is_half(items, count, first, second, start, (bounds->0).1))
    &&& forall|start: i64, end: i64|
        #[trigger] is_half(items, count, first, second, start, end) ==> bounds is Some && (
        bounds->0).0 <= start && end <= (bounds->0).1
}

proof fn lemma_envelope(items: Seq<ItemModel>, first: usize, second: usize, count: int)
    requires
        0 <= count <= items.len(),
    ensures
        spanned(envelope_of(items, first, second, count), items, count, first, second),
    decreases count,
{
    if count > 0 {
        lemma_envelope(items, first, second, count - 1);
        let before = envelope_of(items, first, second, count - 1);
        let after = envelope_of(items, first, second, count);
        let item = items[count - 1];
        let own = item.kind == first || item.kind == second;
        let less = count - 1;
        if before is Some {
            let (s, e) = before->0;
            let end = choose|end: i64| is_half(items, less, first, second, s, end);
            lemma_half_kept(items, count, first, second, s, end);
            let start = choose|start: i64| is_half(items, less, first, second, start, e);
            lemma_half_kept(items, count, first, second, start, e);
        }
        if own && item.first.1 is Some {
            assert(items[count - 1].first == (item.first.0, Some(item.first.1->0)));
            assert(is_half(items, count, first, second, item.first.0, item.first.1->0));
        }
        if own && item.second is Some && (item.second->0).1 is Some {
            let (start, end) = ((item.second->0).0, (item.second->0).1->0);
            assert(items[count - 1].second == Some((start, Some(end))));
            assert(is_half(items, count, first, second, start, end));
        }
        if after is Some {
            let (s, e) = after->0;
            assert(exists|end: i64| is_half(items, count, first, second, s, end));
            assert(exists|start: i64| is_half(items, count, first, second, start, e));
        }
        assert forall|start: i64, end: i64|
            #[trigger] is_half(items, count, first, second, start, end) implies after is Some && (
        after->0).0 <= start && end <= (after->0).1 by {
            let i = choose|i: int|
                0 <= i < count && ((#[trigger] items[i]).kind == first || items[i].kind == second)
                    && (items[i].first == (start, Some(end)) || items[i].second == Some(
                    (start, Some(end)),
                ));
            if i < count - 1 {
                assert(is_half(items, count - 1, first, second, start, end));
            }
        }
    }
}

/// The window of a phase of items is their envelope: it starts with the earliest of their halves, ends
/// with the latest, and holds every one of them. There is none only where no half of them is closed.
pub proof fn envelope_holds_every_item(
    items: Seq<ItemModel>,
    first: usize,
    second: usize,
    start: i64,
    end: i64,
)
    ensures
        ({
            let bounds = envelope_of(items, first, second, items.len() as int);
            let count = items.len() as int;
            &&& is_half(items, count, first, second, start, end) ==> bounds is Some && (
            bounds->0).0 <= start && end <= (bounds->0).1
            &&& bounds is Some ==> exists|other: i64|
                is_half(items, count, first, second, (bounds->0).0, other)
            &&& bounds is Some ==> exists|other: i64|
                is_half(items, count, first, second, other, (bounds->0).1)
        }),
{
    lemma_envelope(items, first, second, items.len() as int);
}

/// A node's five windows are the input transfer, the metered execution from its announcement to its
/// last send, and the envelopes of its app segments, of its leaf and internal proofs, and of its wrap.
pub proof fn edge_windows_follow_the_work(raw: JobModel, work: JobWork, id: Seq<char>)
    ensures
        ({
            let windows = node_windows(raw, work, id);
            let items = node_items(raw, work, id);
            let count = items.len() as int;
            let written = if work.writes is Some && work.writes->0.dom().contains(id) {
                Some(work.writes->0[id])
            } else {
                None
            };
            let announced = if work.announcements is Some && work.announcements->0.dom().contains(
                id,
            ) {
                Some(work.announcements->0[id])
            } else {
                None
            };
            let sent = if work.sends is Some && work.sends->0.dom().contains(id) {
                Some(work.sends->0[id])
            } else {
                None
            };
            &&& windows.len() == 5
            &&& windows[0] == transfer_window(raw.fanout_start_us, written)
            &&& windows[1] == window_of(announced, sent)
            &&& windows[2] == envelope_of(items, 2, 2, count)
            &&& windows[3] == envelope_of(items, 3, 4, count)
            &&& windows[4] == envelope_of(items, 5, 5, count)
        }),
{
}

/// A leaf's id is the index of the leaf, its start segment divided by the leaf arity, and unknown
/// without a positive arity. Nothing else of an item changes, and no other item does.
pub proof fn leaf_id_is_its_index(item: ItemModel, arity: i64, start: i64)
    ensures
        item.kind != 3 ==> leaf_indexed(item, Some(arity)) == item && leaf_indexed(item, None) == item,
        item.kind == 3 ==> {
            let indexed = leaf_indexed(item, Some(arity));
            &&& indexed.kind == item.kind && indexed.first == item.first && indexed.second
                == item.second
            &&& indexed.meta.spans == item.meta.spans && indexed.meta.spans_window
                == item.meta.spans_window
            &&& item.meta.id == Some(start) && arity > 0 && start >= 0 ==> indexed.meta.id is Some
                && indexed.meta.id->0 * arity <= start < indexed.meta.id->0 * arity + arity
            &&& item.meta.id is None || arity <= 0 ==> indexed.meta.id is None
            &&& leaf_indexed(item, None).meta.id is None
        },
{
    if arity > 0 && start >= 0 {
        assert((start as int / arity as int) * arity <= start < (start as int / arity as int)
            * arity + arity && 0 <= start as int / arity as int <= start) by (nonlinear_arith)
            requires
                arity > 0,
                start >= 0,
        ;
    }
}

proof fn lemma_node_kept(
    raw: JobModel,
    work: JobWork,
    ids: Seq<Seq<char>>,
    count: int,
    at: int,
)
    requires
        0 <= at < count <= ids.len(),
        node_of(raw, work, ids[at]) is Some,
    ensures
        nodes_upto(raw, work, ids, count).contains(node_of(raw, work, ids[at])->0),
    decreases count,
{
    let before = nodes_upto(raw, work, ids, count - 1);
    let after = nodes_upto(raw, work, ids, count);
    let node = node_of(raw, work, ids[at])->0;
    if at < count - 1 {
        lemma_node_kept(raw, work, ids, count - 1, at);
        let i = choose|i: int| 0 <= i < before.len() && before[i] == node;
        assert(after[i] == node);
    } else {
        assert(after[before.len() as int] == node);
    }
}

/// Every node with items or an input write on a proof is recorded with its windows and items, unless
/// it has neither, and took part; a node is never recorded with an end.
pub proof fn every_working_node_is_recorded(raw: JobModel, work: JobWork, id: Seq<char>)
    requires
        opt_keys(work.items).union(opt_keys(work.writes)).finite(),
        ({
            ||| work.items is Some && work.items->0.dom().contains(id)
            ||| work.writes is Some && work.writes->0.dom().contains(id)
        }),
        ({
            ||| node_items(raw, work, id).len() > 0
            ||| exists|phase: int| 0 <= phase < 5 && (#[trigger] node_windows(raw, work, id)[phase]) is Some
        }),
    ensures
        exists|i: int|
            {
                &&& 0 <= i < nodes_of(raw, work).len()
                &&& (#[trigger] nodes_of(raw, work)[i]).id == id
                &&& nodes_of(raw, work)[i].phases == node_windows(raw, work, id)
                &&& nodes_of(raw, work)[i].items == node_items(raw, work, id)
                &&& nodes_of(raw, work)[i].end is None
            },
        log_of(raw, work).participants.contains(id),
{
    let set = opt_keys(work.items).union(opt_keys(work.writes));
    lemma_finite_sorted(set);
    let ids = sorted_members(set);
    assert(set.contains(id));
    assert(ids.contains(id));
    let at = choose|at: int| 0 <= at < ids.len() && ids[at] == id;
    let windows = node_windows(raw, work, id);
    if no_window(windows) {
        assert(forall|phase: int| 0 <= phase < 5 ==> (#[trigger] windows[phase]) is None);
    }
    lemma_node_kept(raw, work, ids, ids.len() as int, at);
    let nodes = nodes_of(raw, work);
    let node = node_of(raw, work, id)->0;
    let i = choose|i: int| 0 <= i < nodes.len() && nodes[i] == node;
    assert(nodes[i].id == id);
    assert(log_of(raw, work).participants[i] == id);
}

/// A log carries its proof's id, outcome, moments, and duration as the coordinator gave them, and the
/// input's size and the segments under their own field names where they are known.
pub proof fn edge_log_carries_its_proof(raw: JobModel, work: JobWork, value: u64)
    ensures
        ({
            let log = log_of(raw, work);
            &&& log.id == raw.id
            &&& log.status == raw.status
            &&& log.t_start == raw.t_start
            &&& log.t_end == raw.t_end
            &&& log.duration_s == raw.duration_s
            &&& log.meta.contains(("input_size"@, value)) <==> raw.input_bytes == Some(value)
            &&& log.meta.contains(("segments"@, value)) <==> raw.num_segments == Some(value)
            &&& log.meta.len() <= 2
        }),
{
    reveal_strlit("input_size");
    reveal_strlit("segments");
    assert("input_size"@.len() == 10 && "segments"@.len() == 8);
    let meta = log_of(raw, work).meta;
    if raw.input_bytes is Some {
        assert(meta[0] == ("input_size"@, raw.input_bytes->0));
        if raw.num_segments is Some {
            assert(meta[1] == ("segments"@, raw.num_segments->0));
        }
    } else if raw.num_segments is Some {
        assert(meta[0] == ("segments"@, raw.num_segments->0));
    }
}

/// Whether a row is that of a sub-step under an owner, with the milliseconds of the span that the
/// sub-step is drained under.
pub open spec fn row_of_step(
    row: (u64, u64),
    map: Map<Seq<char>, u64>,
    owner: int,
    step: int,
) -> bool {
    let key = step_row(step).span_key@;
    0 <= step < 7 && row.0 == owner * 7 + step && map.dom().contains(key) && row.1 == map[key]
}

/// Whether a row is that of some sub-step under an owner.
pub open spec fn is_named_step(row: (u64, u64), map: Map<Seq<char>, u64>, owner: int) -> bool {
    exists|step: int| row_of_step(row, map, owner, step)
}

proof fn lemma_span_rows(map: Map<Seq<char>, u64>, owner: int, count: int, step: int)
    requires
        0 <= owner < 2,
        0 <= count <= STEP_COUNT,
        0 <= step < STEP_COUNT,
    ensures
        ({
            let rows = span_rows(map, owner, count);
            let key = step_row(step).span_key@;
            &&& step < count && map.dom().contains(key) ==> rows.contains(
                ((owner * 7 + step) as u64, map[key]),
            )
            &&& forall|i: int|
                #![trigger rows[i]]
                0 <= i < rows.len() ==> is_named_step(rows[i], map, owner)
        }),
    decreases count,
{
    if count > 0 {
        lemma_span_rows(map, owner, count - 1, step);
        let before = span_rows(map, owner, count - 1);
        let after = span_rows(map, owner, count);
        let key = step_row(step).span_key@;
        let row = ((owner * 7 + step) as u64, map[key]);
        if before.contains(row) {
            let i = choose|i: int| 0 <= i < before.len() && before[i] == row;
            assert(after[i] == row);
        }
        if step == count - 1 && map.dom().contains(key) {
            assert(after[before.len() as int] == row);
        }
        assert forall|i: int| #![trigger after[i]] 0 <= i < after.len() implies is_named_step(
            after[i],
            map,
            owner,
        ) by {
            if i < before.len() {
                assert(after[i] == before[i]);
            } else {
                assert(row_of_step(after[i], map, owner, count - 1));
            }
        }
    }
}

/// A breakdown holds one row for each sub-step that the drained spans name, in the slot of the
/// sub-step under its owner and with the span's milliseconds, and no other row.
pub proof fn breakdown_rows_are_the_named_steps(map: Map<Seq<char>, u64>, owner: int, step: int)
    requires
        0 <= owner < 2,
        0 <= step < STEP_COUNT,
    ensures
        ({
            let rows = span_rows(map, owner, STEP_COUNT as int);
            let key = step_row(step).span_key@;
            &&& map.dom().contains(key) ==> rows.contains(((owner * 7 + step) as u64, map[key]))
            &&& forall|i: int|
                #![trigger rows[i]]
                0 <= i < rows.len() ==> is_named_step(rows[i], map, owner)
        }),
{
    lemma_span_rows(map, owner, STEP_COUNT as int, step);
}

proof fn lemma_suffix(text: Seq<char>, piece: Seq<char>)
    requires
        piece.len() <= text.len(),
        text.skip(text.len() - piece.len()) =~= piece,
    ensures
        crate::text::ends_in(text, piece),
{
    assert(text.subrange(text.len() - piece.len(), text.len() as int) =~= piece);
}

/// A sub-step is drained under a span that ends in its own name with its time in milliseconds.
pub proof fn sub_step_is_drained_under_its_name(step: int)
    requires
        0 <= step < STEP_COUNT,
    ensures
        crate::text::ends_in(step_row(step).span_key@, step_row(step).name@ + "_time_ms"@),
{
    reveal_strlit("_time_ms");
    reveal_strlit("execute_preflight");
    reveal_strlit("execute_preflight_time_ms");
    reveal_strlit("trace_gen");
    reveal_strlit("trace_gen_time_ms");
    reveal_strlit("main_trace_commit");
    reveal_strlit("prover.main_trace_commit_time_ms");
    reveal_strlit("logup_gkr");
    reveal_strlit("prover.rap_constraints.logup_gkr_time_ms");
    reveal_strlit("round0");
    reveal_strlit("prover.rap_constraints.round0_time_ms");
    reveal_strlit("mle_rounds");
    reveal_strlit("prover.rap_constraints.mle_rounds_time_ms");
    reveal_strlit("openings");
    reveal_strlit("prover.openings_time_ms");
    lemma_suffix(step_row(step).span_key@, step_row(step).name@ + "_time_ms"@);
}

/// The first half of the sub-phase template breaks the segment phase down, and the second half the
/// recursion phase, each into the same sub-steps in the same order.
pub proof fn template_breaks_both_phases_down(step: int)
    requires
        0 <= step < STEP_COUNT,
    ensures
        subphase_at(step).2 == "segment"@,
        subphase_at(step + STEP_COUNT).2 == "recursion"@,
        subphase_at(step).0 == step_row(step).name@,
        subphase_at(step).1 == step_row(step).label@,
        subphase_at(step + STEP_COUNT).0 == subphase_at(step).0,
        subphase_at(step + STEP_COUNT).1 == subphase_at(step).1,
{
}

/// A manager line is anchored by the words of a start, a fan-out, a tail, a metrics, a completion or
/// a failure line, and a worker line by those of a proof, an announcement, a send or an input line.
pub proof fn anchors_are_the_words_of_their_lines(head: Seq<char>, tail: Seq<char>)
    ensures
        crate::openvm::coordinator::anchored(head + "Starting Edge proof"@ + tail),
        crate::openvm::coordinator::anchored(head + "Input fan-out complete"@ + tail),
        crate::openvm::coordinator::anchored(head + "trigger_tail_proofs for proof"@ + tail),
        crate::openvm::coordinator::anchored(head + "Emitted metrics for proof"@ + tail),
        crate::openvm::coordinator::anchored(head + " is completed"@ + tail),
        crate::openvm::coordinator::anchored(head + " failed at step "@ + tail),
        crate::openvm::worker::anchored(head + "proved segment "@ + tail),
        crate::openvm::worker::anchored(head + "generated app proof for segment"@ + tail),
        crate::openvm::worker::anchored(head + "Generated leaf proof"@ + tail),
        crate::openvm::worker::anchored(head + "Generated internal proof:"@ + tail),
        crate::openvm::worker::anchored(head + "wrapped successfully"@ + tail),
        crate::openvm::worker::anchored(head + "Parallel coordinator:"@ + tail),
        crate::openvm::worker::anchored(head + "sending segment "@ + tail),
        crate::openvm::worker::anchored(head + "Input file written to "@ + tail),
{
    lemma_held(head, "Starting Edge proof"@, tail);
    lemma_held(head, "Input fan-out complete"@, tail);
    lemma_held(head, "trigger_tail_proofs for proof"@, tail);
    lemma_held(head, "Emitted metrics for proof"@, tail);
    lemma_held(head, " is completed"@, tail);
    lemma_held(head, " failed at step "@, tail);
    lemma_held(head, "proved segment "@, tail);
    lemma_held(head, "generated app proof for segment"@, tail);
    lemma_held(head, "Generated leaf proof"@, tail);
    lemma_held(head, "Generated internal proof:"@, tail);
    lemma_held(head, "wrapped successfully"@, tail);
    lemma_held(head, "Parallel coordinator:"@, tail);
    lemma_held(head, "sending segment "@, tail);
    lemma_held(head, "Input file written to "@, tail);
}

proof fn lemma_held(head: Seq<char>, piece: Seq<char>, tail: Seq<char>)
    ensures
        contains_piece(head + piece + tail, piece),
{
    let line = head + piece + tail;
    let at = head.len() as int;
    assert(line.subrange(at, at + piece.len()) =~= piece);
    assert(occurs_at(line, piece, at));
    lemma_first_from(line, piece, 0);
}

/// A line without any of the words of the lines that are read is not anchored.
pub proof fn other_lines_are_not_anchored(line: Seq<char>)
    ensures
        crate::openvm::coordinator::anchored(line) ==> {
            ||| contains_piece(line, "Starting Edge proof"@)
            ||| contains_piece(line, "Input fan-out complete"@)
            ||| contains_piece(line, "trigger_tail_proofs for proof"@)
            ||| contains_piece(line, "Emitted metrics for proof"@)
            ||| contains_piece(line, " is completed"@)
            ||| contains_piece(line, " failed at step "@)
        },
        crate::openvm::worker::anchored(line) ==> {
            ||| contains_piece(line, "proved segment "@)
            ||| contains_piece(line, "generated app proof for segment"@)
            ||| contains_piece(line, "Generated leaf proof"@)
            ||| contains_piece(line, "Generated internal proof:"@)
            ||| contains_piece(line, "wrapped successfully"@)
            ||| contains_piece(line, "Parallel coordinator:"@)
            ||| contains_piece(line, "sending segment "@)
            ||| contains_piece(line, "Input file written to "@)
        },
{
}

} // verus!
