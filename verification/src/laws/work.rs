//! What holds of every read of an openvm worker log.

use vstd::prelude::*;

use crate::log::{ms_of, ts_read, us_of, ItemModel};
use crate::openvm::worker::{
    completed, derived, derived_all, kept_max, kept_min, line_read, lines_read, proof_of, pushed,
    spans_read, taken_up, with_breakdown, worker_parsed, worker_patterns, Announcement, DataModel,
    RE_ID, Work,
};
use crate::pattern::{first_matched, group_text, matched};
use crate::text::{
    contains_piece, i64_read, lemma_precedes_total, lines_of, precedes, unsigned_read,
};
use crate::text_map::{lemma_finite_listed, nested, sorted_keys, strictly_sorted};
use crate::zisk::worker::first_token;

verus! {

/// The place of the announcement among the worker patterns.
pub const ANNOUNCED: usize = 4;

/// The place of the segment send among the worker patterns.
pub const SENT: usize = 5;

/// The place of the input write among the worker patterns.
pub const WRITTEN: usize = 6;

/// The moment that a line of the given pattern names for a proof: of an input write its microsecond
/// and the proof in the written path, of any other line its millisecond and the proof of its span.
pub open spec fn moment(line: Seq<char>, pattern: usize, job: Seq<char>) -> Option<i64> {
    if contains_piece(line, "edge_worker::"@) {
        match (first_matched(worker_patterns(), line, 0), ts_read(first_token(line))) {
            (Some((rule, groups)), Ok(ns)) => if rule != pattern {
                None
            } else if rule == WRITTEN {
                if group_text(groups, 1) == job {
                    Some(us_of(ns))
                } else {
                    None
                }
            } else if proof_of(matched(RE_ID@, line)) == Some(job) {
                Some(ms_of(ns))
            } else {
                None
            },
            _ => None,
        }
    } else {
        None
    }
}

/// Whether a moment is one of those that may be held or that the lines name for a proof, and is
/// absent only where there is none.
pub open spec fn named_moment(
    value: Option<i64>,
    held: Option<i64>,
    lines: Seq<Seq<char>>,
    pattern: usize,
    job: Seq<char>,
) -> bool {
    &&& value is Some ==> value == held || exists|i: int|
        0 <= i < lines.len() && moment(#[trigger] lines[i], pattern, job) == value
    &&& value is None ==> held is None && forall|i: int|
        0 <= i < lines.len() ==> moment(#[trigger] lines[i], pattern, job) is None
}

/// Whether a moment is the least of the one that may be held and those that the lines name for a
/// proof.
pub open spec fn least_moment(
    value: Option<i64>,
    held: Option<i64>,
    lines: Seq<Seq<char>>,
    pattern: usize,
    job: Seq<char>,
) -> bool {
    &&& named_moment(value, held, lines, pattern, job)
    &&& held is Some ==> value->0 <= held->0
    &&& forall|i: int|
        0 <= i < lines.len() && moment(#[trigger] lines[i], pattern, job) is Some ==> value->0
            <= moment(lines[i], pattern, job)->0
}

/// Whether a moment is the greatest of the one that may be held and those that the lines name for a
/// proof.
pub open spec fn greatest_moment(
    value: Option<i64>,
    held: Option<i64>,
    lines: Seq<Seq<char>>,
    pattern: usize,
    job: Seq<char>,
) -> bool {
    &&& named_moment(value, held, lines, pattern, job)
    &&& held is Some ==> value->0 >= held->0
    &&& forall|i: int|
        0 <= i < lines.len() && moment(#[trigger] lines[i], pattern, job) is Some ==> value->0
            >= moment(lines[i], pattern, job)->0
}

proof fn lemma_rule_in_range(patterns: Seq<Seq<char>>, text: Seq<char>, from: int)
    ensures
        match first_matched(patterns, text, from) {
            Some((rule, _)) => from <= rule < patterns.len(),
            None => true,
        },
    decreases patterns.len() - from,
{
    if 0 <= from < patterns.len() {
        lemma_rule_in_range(patterns, text, from + 1);
    }
}

spec fn least_step(held: Option<i64>, line: Seq<char>, pattern: usize, job: Seq<char>) -> Option<i64> {
    match moment(line, pattern, job) {
        Some(at) => Some(kept_min(held, at)),
        None => held,
    }
}

spec fn greatest_step(held: Option<i64>, line: Seq<char>, pattern: usize, job: Seq<char>) -> Option<
    i64,
> {
    match moment(line, pattern, job) {
        Some(at) => Some(kept_max(held, at)),
        None => held,
    }
}

proof fn lemma_moment_before(
    value: Option<i64>,
    held: Option<i64>,
    next: Option<i64>,
    lines: Seq<Seq<char>>,
    pattern: usize,
    job: Seq<char>,
)
    requires
        lines.len() > 0,
        named_moment(value, next, lines.skip(1), pattern, job),
        next == held || next == moment(lines[0], pattern, job),
        next is None ==> held is None && moment(lines[0], pattern, job) is None,
    ensures
        named_moment(value, held, lines, pattern, job),
{
    let rest = lines.skip(1);
    if value is Some && value != next {
        let i = choose|i: int|
            0 <= i < rest.len() && moment(#[trigger] rest[i], pattern, job) == value;
        assert(lines[i + 1] == rest[i]);
    }
    if value is None {
        assert forall|i: int| 0 <= i < lines.len() implies moment(
            #[trigger] lines[i],
            pattern,
            job,
        ) is None by {
            if i > 0 {
                assert(rest[i - 1] == lines[i]);
            }
        }
    }
}

proof fn lemma_least_before(
    value: Option<i64>,
    held: Option<i64>,
    lines: Seq<Seq<char>>,
    pattern: usize,
    job: Seq<char>,
)
    requires
        lines.len() > 0,
        least_moment(value, least_step(held, lines[0], pattern, job), lines.skip(1), pattern, job),
    ensures
        least_moment(value, held, lines, pattern, job),
{
    let rest = lines.skip(1);
    lemma_moment_before(value, held, least_step(held, lines[0], pattern, job), lines, pattern, job);
    assert forall|i: int|
        0 <= i < lines.len() && moment(#[trigger] lines[i], pattern, job) is Some implies value->0
        <= moment(lines[i], pattern, job)->0 by {
        if i > 0 {
            assert(rest[i - 1] == lines[i]);
        }
    }
}

proof fn lemma_greatest_before(
    value: Option<i64>,
    held: Option<i64>,
    lines: Seq<Seq<char>>,
    pattern: usize,
    job: Seq<char>,
)
    requires
        lines.len() > 0,
        greatest_moment(
            value,
            greatest_step(held, lines[0], pattern, job),
            lines.skip(1),
            pattern,
            job,
        ),
    ensures
        greatest_moment(value, held, lines, pattern, job),
{
    let rest = lines.skip(1);
    lemma_moment_before(
        value,
        held,
        greatest_step(held, lines[0], pattern, job),
        lines,
        pattern,
        job,
    );
    assert forall|i: int|
        0 <= i < lines.len() && moment(#[trigger] lines[i], pattern, job) is Some implies value->0
        >= moment(lines[i], pattern, job)->0 by {
        if i > 0 {
            assert(rest[i - 1] == lines[i]);
        }
    }
}

/// Whether the items of one are those of the other with more behind them.
pub open spec fn items_grow(before: Option<Seq<ItemModel>>, after: Option<Seq<ItemModel>>) -> bool {
    before is Some ==> after is Some && before->0.is_prefix_of(after->0)
}

/// Whether the records of a node that the log is not of stay as they were.
pub open spec fn node_unchanged(
    before: DataModel,
    after: DataModel,
    job: Seq<char>,
    node: Seq<char>,
) -> bool {
    &&& nested(after.items, job, node) == nested(before.items, job, node)
    &&& nested(after.announcements, job, node) == nested(before.announcements, job, node)
    &&& nested(after.sends, job, node) == nested(before.sends, job, node)
    &&& nested(after.writes, job, node) == nested(before.writes, job, node)
}

spec fn data_of(work: Work) -> DataModel {
    DataModel {
        items: work.items,
        announcements: work.announcements,
        sends: work.sends,
        writes: work.writes,
    }
}

proof fn lemma_line_read(work: Work, line: Seq<char>, node: Seq<char>, job: Seq<char>)
    ensures
        match line_read(work, line, node) {
            Ok(next) => {
                &&& items_grow(nested(work.items, job, node), nested(next.items, job, node))
                &&& nested(next.announcements, job, node) == least_step(
                    nested(work.announcements, job, node),
                    line,
                    ANNOUNCED,
                    job,
                )
                &&& nested(next.sends, job, node) == greatest_step(
                    nested(work.sends, job, node),
                    line,
                    SENT,
                    job,
                )
                &&& nested(next.writes, job, node) == greatest_step(
                    nested(work.writes, job, node),
                    line,
                    WRITTEN,
                    job,
                )
            },
            Err(_) => true,
        },
{
    lemma_rule_in_range(worker_patterns(), line, 0);
    assert forall|held: Work, own: Seq<char>, item: ItemModel| items_grow(
        nested(held.items, job, node),
        nested((#[trigger] pushed(held, own, node, item)).items, job, node),
    ) by {}
}

proof fn lemma_line_read_elsewhere(
    work: Work,
    line: Seq<char>,
    node: Seq<char>,
    job: Seq<char>,
    other: Seq<char>,
)
    requires
        other != node,
    ensures
        match line_read(work, line, node) {
            Ok(next) => node_unchanged(data_of(work), data_of(next), job, other),
            Err(_) => true,
        },
{
    assert forall|held: Work, own: Seq<char>, item: ItemModel| nested(
        (#[trigger] pushed(held, own, node, item)).items,
        job,
        other,
    ) == nested(held.items, job, other) by {}
}

proof fn lemma_lines_read(work: Work, lines: Seq<Seq<char>>, node: Seq<char>, job: Seq<char>)
    ensures
        match lines_read(work, lines, node) {
            Ok(last) => {
                &&& items_grow(nested(work.items, job, node), nested(last.items, job, node))
                &&& least_moment(
                    nested(last.announcements, job, node),
                    nested(work.announcements, job, node),
                    lines,
                    ANNOUNCED,
                    job,
                )
                &&& greatest_moment(
                    nested(last.sends, job, node),
                    nested(work.sends, job, node),
                    lines,
                    SENT,
                    job,
                )
                &&& greatest_moment(
                    nested(last.writes, job, node),
                    nested(work.writes, job, node),
                    lines,
                    WRITTEN,
                    job,
                )
            },
            Err(_) => true,
        },
    decreases lines.len(),
{
    if lines.len() > 0 {
        lemma_line_read(work, lines[0], node, job);
        match line_read(work, lines[0], node) {
            Ok(next) => {
                lemma_lines_read(next, lines.skip(1), node, job);
                match lines_read(next, lines.skip(1), node) {
                    Ok(last) => {
                        lemma_least_before(
                            nested(last.announcements, job, node),
                            nested(work.announcements, job, node),
                            lines,
                            ANNOUNCED,
                            job,
                        );
                        lemma_greatest_before(
                            nested(last.sends, job, node),
                            nested(work.sends, job, node),
                            lines,
                            SENT,
                            job,
                        );
                        lemma_greatest_before(
                            nested(last.writes, job, node),
                            nested(work.writes, job, node),
                            lines,
                            WRITTEN,
                            job,
                        );
                    },
                    Err(_) => {},
                }
            },
            Err(_) => {},
        }
    }
}

proof fn lemma_lines_read_elsewhere(
    work: Work,
    lines: Seq<Seq<char>>,
    node: Seq<char>,
    job: Seq<char>,
    other: Seq<char>,
)
    requires
        other != node,
    ensures
        match lines_read(work, lines, node) {
            Ok(last) => node_unchanged(data_of(work), data_of(last), job, other),
            Err(_) => true,
        },
    decreases lines.len(),
{
    if lines.len() > 0 {
        lemma_line_read_elsewhere(work, lines[0], node, job, other);
        match line_read(work, lines[0], node) {
            Ok(next) => lemma_lines_read_elsewhere(next, lines.skip(1), node, job, other),
            Err(_) => {},
        }
    }
}

proof fn lemma_derived_all(work: Work, node: Seq<char>, job: Seq<char>, other: Seq<char>, count: int)
    ensures
        items_grow(
            nested(work.items, job, node),
            nested(derived_all(work, node, count), job, node),
        ),
        other != node ==> nested(derived_all(work, node, count), job, other) == nested(
            work.items,
            job,
            other,
        ),
    decreases count,
{
    if count > 0 {
        lemma_derived_all(work, node, job, other, count - 1);
    }
}

/// A worker log changes the records of its own node alone.
pub proof fn work_of_own_node_only(
    clean: Seq<char>,
    node: Seq<char>,
    data: DataModel,
    job: Seq<char>,
    other: Seq<char>,
)
    requires
        other != node,
        worker_parsed(clean, node, data) is Ok,
    ensures
        node_unchanged(data, worker_parsed(clean, node, data)->Ok_0, job, other),
{
    lemma_lines_read_elsewhere(taken_up(data), lines_of(clean), node, job, other);
    match lines_read(taken_up(data), lines_of(clean), node) {
        Ok(work) => lemma_derived_all(
            work,
            node,
            job,
            other,
            sorted_keys(work.coordinator).len() as int,
        ),
        Err(_) => {},
    }
}

/// A worker log keeps, of its node and each proof, the least of the announcements, the greatest of
/// the sends, and the greatest of the input writes, those that earlier logs left counted in.
pub proof fn extreme_moments_are_kept(
    clean: Seq<char>,
    node: Seq<char>,
    data: DataModel,
    job: Seq<char>,
)
    requires
        worker_parsed(clean, node, data) is Ok,
    ensures
        ({
            let after = worker_parsed(clean, node, data)->Ok_0;
            let lines = lines_of(clean);
            &&& least_moment(
                nested(after.announcements, job, node),
                nested(data.announcements, job, node),
                lines,
                ANNOUNCED,
                job,
            )
            &&& greatest_moment(
                nested(after.sends, job, node),
                nested(data.sends, job, node),
                lines,
                SENT,
                job,
            )
            &&& greatest_moment(
                nested(after.writes, job, node),
                nested(data.writes, job, node),
                lines,
                WRITTEN,
                job,
            )
        }),
{
    lemma_lines_read(taken_up(data), lines_of(clean), node, job);
}

/// A worker log only appends items: those that a node has for a proof stay in front.
pub proof fn earlier_items_stay_in_front(
    clean: Seq<char>,
    node: Seq<char>,
    data: DataModel,
    job: Seq<char>,
    other: Seq<char>,
)
    requires
        worker_parsed(clean, node, data) is Ok,
    ensures
        items_grow(
            nested(data.items, job, other),
            nested(worker_parsed(clean, node, data)->Ok_0.items, job, other),
        ),
{
    if other != node {
        work_of_own_node_only(clean, node, data, job, other);
    } else {
        lemma_lines_read(taken_up(data), lines_of(clean), node, job);
        match lines_read(taken_up(data), lines_of(clean), node) {
            Ok(work) => lemma_derived_all(
                work,
                node,
                job,
                other,
                sorted_keys(work.coordinator).len() as int,
            ),
            Err(_) => {},
        }
    }
}

/// A number that a line prints, zero where it does not fit.
pub open spec fn printed(groups: Seq<Option<Seq<char>>>, at: int) -> int {
    match i64_read(group_text(groups, at)) {
        Some(value) => value,
        None => 0,
    }
}

/// Whether an item is one closed span of a kind, from a moment for a number of milliseconds, without
/// pairing or heavy markers.
pub open spec fn spans_time(item: ItemModel, kind: int, start: int, ms: int) -> bool {
    &&& item.kind == kind
    &&& item.first.1 is Some
    &&& item.second is None
    &&& item.meta.cpu_heavy is None && item.meta.gpu_heavy is None
    &&& item.first.0 == start
    &&& item.first.1->0 == start + ms
}

/// Whether a line's numbers lie well within the clock.
pub open spec fn fits_the_clock(end: i64, groups: Seq<Option<Seq<char>>>) -> bool {
    &&& -4_611_686_018_427_387_904 <= end <= 4_611_686_018_427_387_903
    &&& 0 <= printed(groups, 1) <= 1_000_000_000_000_000
    &&& 0 <= printed(groups, 2) <= 1_000_000_000_000_000
    &&& 0 <= printed(groups, 3) <= 1_000_000_000_000_000
}

/// The items that a node has for a proof.
pub open spec fn items_at(work: Work, job: Seq<char>, node: Seq<char>) -> Seq<ItemModel> {
    match nested(work.items, job, node) {
        Some(items) => items,
        None => seq![],
    }
}

/// A proved segment adds two items of its segment that together fill the prove span before the line:
/// the fast-forward first, and then the app segment to the line's moment.
pub proof fn segment_fills_its_prove_span(
    work: Work,
    groups: Seq<Option<Seq<char>>>,
    entries: Option<Seq<Seq<Option<Seq<char>>>>>,
    job: Seq<char>,
    end: i64,
    node: Seq<char>,
)
    requires
        fits_the_clock(end, groups),
        completed(work, 0, groups, entries, job, end, node) is Some,
    ensures
        ({
            let (segment, fast, prove) = (
                printed(groups, 1),
                printed(groups, 2),
                printed(groups, 3),
            );
            let before = items_at(work, job, node);
            let after = items_at(
                completed(work, 0, groups, entries, job, end, node)->0,
                job,
                node,
            );
            let n = before.len() as int;
            &&& after.len() == n + 2
            &&& after.take(n) == before
            &&& spans_time(after[n], 1, end - prove, fast)
            &&& spans_time(after[n + 1], 2, end - prove + fast, prove - fast)
            &&& after[n].meta.id is Some && after[n].meta.id->0 == segment
            &&& after[n + 1].meta.id is Some && after[n + 1].meta.id->0 == segment
            &&& after[n].meta.spans.len() == 0
        }),
{
    crate::laws::texts::signed_is_within(group_text(groups, 1));
    crate::laws::texts::signed_is_within(group_text(groups, 2));
    crate::laws::texts::signed_is_within(group_text(groups, 3));
    let before = items_at(work, job, node);
    let after = items_at(completed(work, 0, groups, entries, job, end, node)->0, job, node);
    assert(after.take(before.len() as int) =~= before);
}

/// A leaf proof adds one item of its span that ends at the line's moment, under its start segment. An
/// internal proof adds one that ends where its compress span begins, and a wrap one that ends at the
/// line's moment.
pub proof fn proofs_end_at_their_lines(
    work: Work,
    rule: int,
    groups: Seq<Option<Seq<char>>>,
    entries: Option<Seq<Seq<Option<Seq<char>>>>>,
    job: Seq<char>,
    end: i64,
    node: Seq<char>,
)
    requires
        1 <= rule <= 3,
        fits_the_clock(end, groups),
        completed(work, rule, groups, entries, job, end, node) is Some,
    ensures
        ({
            let (first, second) = (printed(groups, 1), printed(groups, 2));
            let before = items_at(work, job, node);
            let after = items_at(
                completed(work, rule, groups, entries, job, end, node)->0,
                job,
                node,
            );
            let n = before.len() as int;
            &&& after.len() == n + 1
            &&& after.take(n) == before
            &&& rule == 1 ==> spans_time(after[n], 3, end - second, second) && after[n].meta.id is Some
                && after[n].meta.id->0 == first
            &&& rule == 2 ==> spans_time(after[n], 4, end - first - second, first)
                && after[n].meta.id is None
            &&& rule == 3 ==> spans_time(after[n], 5, end - first, first) && after[n].meta.id is None
        }),
{
    crate::laws::texts::signed_is_within(group_text(groups, 1));
    crate::laws::texts::signed_is_within(group_text(groups, 2));
    let before = items_at(work, job, node);
    let after = items_at(completed(work, rule, groups, entries, job, end, node)->0, job, node);
    assert(after.take(before.len() as int) =~= before);
}

/// The worker's first announcement of a proof stands, with its moment and the assignment that it
/// prints, and each send is kept behind the earlier ones with its segment and its moment.
pub proof fn first_announcement_and_every_send_stand(
    work: Work,
    groups: Seq<Option<Seq<char>>>,
    entries: Option<Seq<Seq<Option<Seq<char>>>>>,
    job: Seq<char>,
    end: i64,
    node: Seq<char>,
)
    ensures
        ({
            let told = completed(work, 4, groups, entries, job, end, node);
            let sent = completed(work, 5, groups, entries, job, end, node);
            let was = if work.sent.dom().contains(job) {
                work.sent[job]
            } else {
                seq![]
            };
            &&& told is Some && told->0.items == work.items && told->0.sent == work.sent
            &&& work.coordinator.dom().contains(job) ==> told->0.coordinator == work.coordinator
            &&& !work.coordinator.dom().contains(job) ==> {
                let own = told->0.coordinator[job];
                &&& told->0.coordinator.dom() == work.coordinator.dom().insert(job)
                &&& own.ts == end && own.prover_id == printed(groups, 1) && own.stride == printed(
                    groups,
                    2,
                )
            }
            &&& sent is Some && sent->0.items == work.items && sent->0.coordinator
                == work.coordinator
            &&& sent->0.sent.dom().contains(job)
            &&& sent->0.sent[job].len() == was.len() + 1
            &&& sent->0.sent[job].drop_last() == was
            &&& sent->0.sent[job].last().1 == end && sent->0.sent[job].last().0 == printed(
                groups,
                1,
            )
        }),
{
    crate::laws::texts::signed_is_within(group_text(groups, 1));
    crate::laws::texts::signed_is_within(group_text(groups, 2));
    let was = if work.sent.dom().contains(job) {
        work.sent[job]
    } else {
        seq![]
    };
    let sent = completed(work, 5, groups, entries, job, end, node)->0;
    assert(sent.sent[job].drop_last() =~= was);
}

/// Every send of the expected segment derives its execution item, so as many are derived as there are
/// such sends. The first expected segment is the prover's own, and each next one a stride further.
pub proof fn expected_sends_derive_their_items(
    announcement: Announcement,
    sent: Seq<(i64, i64)>,
    count: int,
)
    requires
        0 < count <= sent.len(),
    ensures
        ({
            let before = derived(announcement, sent, count - 1);
            let after = derived(announcement, sent, count);
            let (segment, send) = sent[count - 1];
            let from = if count == 1 {
                announcement.ts
            } else {
                sent[count - 2].1
            };
            let due = if count == 1 {
                segment == announcement.prover_id
            } else if i64::MIN <= sent[count - 2].0 + announcement.stride <= i64::MAX {
                segment == sent[count - 2].0 + announcement.stride
            } else {
                after.len() == before.len() + 1
            };
            &&& due ==> {
                &&& after.len() == before.len() + 1
                &&& after.drop_last() == before
                &&& after.last().kind == 0
                &&& after.last().first == (from, Some(send))
                &&& after.last().second is None
                &&& after.last().meta.id == Some(segment)
            }
            &&& !due ==> after == before
        }),
        derived(announcement, sent, 0).len() == 0,
{
    let before = derived(announcement, sent, count - 1);
    let after = derived(announcement, sent, count);
    if after.len() == before.len() + 1 {
        assert(after.drop_last() =~= before);
    }
}

/// A completion line's breakdown is packed into the window from its item's start to the line, and is
/// refused where a value does not fit.
pub proof fn breakdown_is_packed_up_to_the_line(
    item: ItemModel,
    entries: Seq<Seq<Option<Seq<char>>>>,
    owner: int,
    end: i64,
)
    ensures
        ({
            let read = spans_read(entries, entries.len() as int);
            let done = with_breakdown(item, Some(entries), owner, end);
            &&& read is None ==> done is None
            &&& read is Some ==> {
                &&& done is Some
                &&& done->0.kind == item.kind && done->0.first == item.first && done->0.second
                    == item.second && done->0.meta.id == item.meta.id
                &&& done->0.meta.spans == crate::openvm::phases::span_rows(read->0, owner, 7)
                &&& done->0.meta.spans.len() > 0 ==> done->0.meta.spans_window == Some(
                    (item.first.0, end),
                )
            }
        }),
        with_breakdown(item, None, owner, end) == Some(item),
{
}

/// The entries of a spans field are read into the drained spans: the last of those named alike, and
/// none where one of them does not fit.
pub proof fn last_entry_of_a_name_counts(
    entries: Seq<Seq<Option<Seq<char>>>>,
    entry: Seq<Option<Seq<char>>>,
)
    ensures
        ({
            let before = spans_read(entries, entries.len() as int);
            let after = spans_read(entries.push(entry), entries.len() as int + 1);
            let value = unsigned_read(group_text(entry, 2), u64::MAX as int);
            &&& after is Some <==> before is Some && value is Some
            &&& after is Some ==> {
                &&& after->0.dom() == before->0.dom().insert(group_text(entry, 1))
                &&& after->0[group_text(entry, 1)] == value->0
                &&& forall|other: Seq<char>|
                    other != group_text(entry, 1) && before->0.dom().contains(other)
                        ==> #[trigger] after->0[other] == before->0[other]
            }
        }),
        spans_read(entries, 0) == Some(Map::<Seq<char>, u64>::empty()),
{
    lemma_entries_before(entries, entry, entries.len() as int);
    crate::laws::texts::unsigned_is_within(group_text(entry, 2), u64::MAX as int);
}

proof fn lemma_entries_before(
    entries: Seq<Seq<Option<Seq<char>>>>,
    entry: Seq<Option<Seq<char>>>,
    count: int,
)
    requires
        0 <= count <= entries.len(),
    ensures
        spans_read(entries.push(entry), count) == spans_read(entries, count),
    decreases count,
{
    if count > 0 {
        lemma_entries_before(entries, entry, count - 1);
        assert(entries.push(entry)[count - 1] == entries[count - 1]);
    }
}

proof fn lemma_derived_at(
    work: Work,
    node: Seq<char>,
    keys: Seq<Seq<char>>,
    job: Seq<char>,
    count: int,
)
    requires
        keys == sorted_keys(work.coordinator),
        strictly_sorted(keys),
        0 <= count <= keys.len(),
    ensures
        ({
            let items = derived_all(work, node, count);
            let own = match nested(work.items, job, node) {
                Some(own) => own,
                None => seq![],
            };
            if keys.take(count).contains(job) && work.sent.dom().contains(job) {
                nested(items, job, node) == Some(
                    own + derived(
                        work.coordinator[job],
                        work.sent[job],
                        work.sent[job].len() as int,
                    ),
                )
            } else {
                nested(items, job, node) == nested(work.items, job, node)
            }
        }),
    decreases count,
{
    if count > 0 {
        lemma_derived_at(work, node, keys, job, count - 1);
        let less = keys.take(count - 1);
        let more = keys.take(count);
        assert(more =~= less.push(keys[count - 1]));
        if less.contains(job) {
            let i = choose|i: int| 0 <= i < less.len() && less[i] == job;
            assert(more[i] == job);
            assert(precedes(keys[i], keys[count - 1]));
            lemma_precedes_total(keys[i], keys[count - 1]);
        }
        if more.contains(job) && !less.contains(job) {
            let i = choose|i: int| 0 <= i < more.len() && more[i] == job;
            if i < count - 1 {
                assert(less[i] == job);
            }
        }
        if keys[count - 1] == job {
            assert(more[count - 1] == job);
        }
    } else {
        assert(keys.take(0) =~= seq![]);
    }
}

/// When a worker log ends, each proof that the worker announced and sent segments for gets the items
/// that its sends derive, behind those that are there. A proof that lacks either gets none.
pub proof fn announced_sends_are_derived(work: Work, node: Seq<char>, job: Seq<char>)
    requires
        work.coordinator.dom().finite(),
    ensures
        ({
            let items = derived_all(work, node, sorted_keys(work.coordinator).len() as int);
            let own = match nested(work.items, job, node) {
                Some(own) => own,
                None => seq![],
            };
            if work.coordinator.dom().contains(job) && work.sent.dom().contains(job) {
                nested(items, job, node) == Some(
                    own + derived(
                        work.coordinator[job],
                        work.sent[job],
                        work.sent[job].len() as int,
                    ),
                )
            } else {
                nested(items, job, node) == nested(work.items, job, node)
            }
        }),
{
    lemma_finite_listed(work.coordinator);
    let keys = sorted_keys(work.coordinator);
    assert(keys.take(keys.len() as int) =~= keys);
    lemma_derived_at(work, node, keys, job, keys.len() as int);
    assert(keys.contains(job) <==> work.coordinator.dom().contains(job));
}

/// The proof of a worker line is the first group of its id match, where that group took part.
pub proof fn proof_is_the_first_group(groups: Seq<Option<Seq<char>>>)
    ensures
        proof_of(None) is None,
        groups.len() > 1 ==> proof_of(Some(groups)) == groups[1],
        groups.len() <= 1 ==> proof_of(Some(groups)) is None,
{
}

} // verus!
