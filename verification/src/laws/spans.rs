//! What holds of every sub-step breakdown that the openvm worker logs yield.

use vstd::prelude::*;

use crate::log::{ItemModel, LogModel};
use crate::openvm::coordinator::{consumed_all, JobModel};
use crate::openvm::phases::{node_items, nodes_upto, JobWork};
use crate::openvm::worker::{
    completed, derived, derived_all, entries_of, files_loaded, line_read, lines_read, no_data,
    proof_of, pushed, taken_up, worker_parsed, Announcement, DataModel, Work,
};
use crate::openvm::{job_log, openvm_parsed};
use crate::text_map::{nested, sorted_keys, sorted_members, with_nested};
use crate::zkvm::{opt_at, opt_keys};

verus! {

/// Whether an item that carries a breakdown carries the window that it is packed into.
pub open spec fn windowed(item: ItemModel) -> bool {
    item.meta.spans.len() > 0 ==> item.meta.spans_window is Some
}

/// Whether every item of a list that carries a breakdown carries its window.
pub open spec fn list_windowed(items: Seq<ItemModel>) -> bool {
    forall|i: int| 0 <= i < items.len() ==> windowed(#[trigger] items[i])
}

/// Whether every item of a log that carries a breakdown carries its window.
pub open spec fn log_windowed(log: LogModel) -> bool {
    forall|i: int| 0 <= i < log.nodes.len() ==> list_windowed((#[trigger] log.nodes[i]).items)
}

spec fn map_windowed(items: Map<Seq<char>, Map<Seq<char>, Seq<ItemModel>>>) -> bool {
    forall|job: Seq<char>, node: Seq<char>|
        (#[trigger] nested(items, job, node)) is Some ==> list_windowed(nested(items, job, node)->0)
}

proof fn lemma_with_nested(
    items: Map<Seq<char>, Map<Seq<char>, Seq<ItemModel>>>,
    job: Seq<char>,
    node: Seq<char>,
    list: Seq<ItemModel>,
)
    requires
        map_windowed(items),
        list_windowed(list),
    ensures
        map_windowed(with_nested(items, job, node, list)),
{
    let next = with_nested(items, job, node, list);
    assert forall|a: Seq<char>, b: Seq<char>|
        (#[trigger] nested(next, a, b)) is Some implies list_windowed(nested(next, a, b)->0) by {
        if !(a == job && b == node) {
            assert(nested(next, a, b) == nested(items, a, b));
        }
    }
}

proof fn lemma_pushed(work: Work, job: Seq<char>, node: Seq<char>, item: ItemModel)
    requires
        map_windowed(work.items),
        windowed(item),
    ensures
        map_windowed(pushed(work, job, node, item).items),
{
    let list = match nested(work.items, job, node) {
        Some(items) => items.push(item),
        None => seq![item],
    };
    assert(list_windowed(list));
    lemma_with_nested(work.items, job, node, list);
}

proof fn lemma_completed(
    work: Work,
    rule: int,
    groups: Seq<Option<Seq<char>>>,
    entries: Option<Seq<Seq<Option<Seq<char>>>>>,
    job: Seq<char>,
    end: i64,
    node: Seq<char>,
)
    requires
        map_windowed(work.items),
    ensures
        match completed(work, rule, groups, entries, job, end, node) {
            Some(next) => map_windowed(next.items),
            None => true,
        },
{
    assert forall|item: ItemModel, other: Work|
        map_windowed(other.items) && windowed(item) implies map_windowed(
        (#[trigger] pushed(other, job, node, item)).items,
    ) by {
        lemma_pushed(other, job, node, item);
    }
}

proof fn lemma_lines_read(work: Work, lines: Seq<Seq<char>>, node: Seq<char>)
    requires
        map_windowed(work.items),
    ensures
        match lines_read(work, lines, node) {
            Ok(next) => map_windowed(next.items),
            Err(_) => true,
        },
    decreases lines.len(),
{
    if lines.len() > 0 {
        match line_read(work, lines[0], node) {
            Ok(next) => {
                let found = crate::pattern::first_matched(
                    crate::openvm::worker::worker_patterns(),
                    lines[0],
                    0,
                );
                let job = proof_of(
                    crate::pattern::matched(crate::openvm::worker::RE_ID@, lines[0]),
                );
                match (
                    found,
                    job,
                    crate::log::ts_read(crate::zisk::worker::first_token(lines[0])),
                ) {
                    (Some((rule, groups)), Some(job), Ok(ns)) => lemma_completed(
                        work,
                        rule,
                        groups,
                        entries_of(found),
                        job,
                        crate::log::ms_of(ns),
                        node,
                    ),
                    _ => {},
                }
                assert(map_windowed(next.items));
                lemma_lines_read(next, lines.skip(1), node);
            },
            Err(_) => {},
        }
    }
}

proof fn lemma_derived(announcement: Announcement, sent: Seq<(i64, i64)>, count: int)
    ensures
        list_windowed(derived(announcement, sent, count)),
    decreases count,
{
    if count > 0 {
        lemma_derived(announcement, sent, count - 1);
    }
}

proof fn lemma_derived_all(work: Work, node: Seq<char>, count: int)
    requires
        map_windowed(work.items),
    ensures
        map_windowed(derived_all(work, node, count)),
    decreases count,
{
    if count > 0 {
        lemma_derived_all(work, node, count - 1);
        let items = derived_all(work, node, count - 1);
        let job = sorted_keys(work.coordinator)[count - 1];
        if work.sent.dom().contains(job) {
            let sent = work.sent[job];
            let own = match nested(items, job, node) {
                Some(own) => own,
                None => seq![],
            };
            let more = derived(work.coordinator[job], sent, sent.len() as int);
            lemma_derived(work.coordinator[job], sent, sent.len() as int);
            assert(list_windowed(own + more));
            lemma_with_nested(items, job, node, own + more);
        }
    }
}

proof fn lemma_files_loaded(data: DataModel, files: Seq<(u32, Seq<char>, Seq<char>)>)
    requires
        map_windowed(data.items),
    ensures
        match files_loaded(data, files) {
            Ok(next) => map_windowed(next.items),
            Err(_) => true,
        },
    decreases files.len(),
{
    if files.len() > 0 {
        let clean = crate::zkvm::without_ansi(files[0].2);
        let node = crate::zisk::worker::node_name(files[0].0);
        lemma_lines_read(taken_up(data), crate::text::lines_of(clean), node);
        match lines_read(taken_up(data), crate::text::lines_of(clean), node) {
            Ok(work) => lemma_derived_all(
                work,
                node,
                sorted_keys(work.coordinator).len() as int,
            ),
            Err(_) => {},
        }
        match worker_parsed(clean, node, data) {
            Ok(next) => lemma_files_loaded(next, files.skip(1)),
            Err(_) => {},
        }
    }
}

proof fn lemma_nodes_upto(raw: JobModel, work: JobWork, ids: Seq<Seq<char>>, count: int)
    requires
        work.items is Some ==> forall|node: Seq<char>| #[trigger]
            (work.items->0).dom().contains(node) ==> list_windowed((work.items->0)[node]),
    ensures
        forall|i: int|
            0 <= i < nodes_upto(raw, work, ids, count).len() ==> list_windowed(
                (#[trigger] nodes_upto(raw, work, ids, count)[i]).items,
            ),
    decreases count,
{
    if count > 0 {
        lemma_nodes_upto(raw, work, ids, count - 1);
        let items = node_items(raw, work, ids[count - 1]);
        assert(list_windowed(items)) by {
            assert forall|i: int| 0 <= i < items.len() implies windowed(#[trigger] items[i]) by {
                let held = opt_at(work.items, ids[count - 1])->0;
                assert(windowed(held[i]));
            }
        }
    }
}

/// Every item that the openvm logs yield and that carries a sub-step breakdown carries the window
/// that the breakdown is packed into.
pub proof fn openvm_breakdowns_have_windows(
    coordinator: Seq<char>,
    files: Seq<(u32, Seq<char>, Seq<char>)>,
    log: int,
)
    requires
        openvm_parsed(coordinator, files) is Ok,
        0 <= log < openvm_parsed(coordinator, files)->Ok_0.logs.len(),
    ensures
        log_windowed(openvm_parsed(coordinator, files)->Ok_0.logs[log]),
{
    let lines = crate::text::lines_of(crate::zkvm::without_ansi(coordinator));
    let jobs = consumed_all(seq![], lines)->Ok_0;
    let data = files_loaded(no_data(), files)->Ok_0;
    lemma_files_loaded(no_data(), files);
    let raw = jobs[log];
    let work = JobWork {
        items: opt_at(Some(data.items), raw.id),
        announcements: opt_at(Some(data.announcements), raw.id),
        writes: opt_at(Some(data.writes), raw.id),
        sends: opt_at(Some(data.sends), raw.id),
    };
    if work.items is Some {
        assert forall|node: Seq<char>| #[trigger]
            (work.items->0).dom().contains(node) implies list_windowed((work.items->0)[node]) by {
            assert(nested(data.items, raw.id, node) == Some((work.items->0)[node]));
        }
    }
    let ids = sorted_members(opt_keys(work.items).union(opt_keys(work.writes)));
    lemma_nodes_upto(raw, work, ids, ids.len() as int);
    assert(openvm_parsed(coordinator, files)->Ok_0.logs[log] == job_log(raw, data));
}

/// Whether an edge-worker line carries an anchor phrase and matches no pattern.
pub open spec fn worker_uncovered(line: Seq<char>) -> bool {
    &&& crate::text::contains_piece(line, "edge_worker::"@)
    &&& crate::openvm::worker::anchored(line)
    &&& crate::pattern::first_matched(crate::openvm::worker::worker_patterns(), line, 0) is None
}

/// A worker format change is never dropped in silence: an anchored line that no pattern covers ends
/// the read in an error wherever it stands.
pub proof fn worker_uncovered_line_is_fatal(
    work: Work,
    lines: Seq<Seq<char>>,
    node: Seq<char>,
    at: int,
)
    requires
        0 <= at < lines.len(),
        worker_uncovered(lines[at]),
    ensures
        lines_read(work, lines, node) is Err,
    decreases lines.len(),
{
    if at > 0 {
        match line_read(work, lines[0], node) {
            Ok(next) => {
                assert(lines.skip(1)[at - 1] == lines[at]);
                worker_uncovered_line_is_fatal(next, lines.skip(1), node, at - 1);
            },
            Err(_) => {},
        }
    }
}

/// The moment and the segment that a worker's send is expected to follow: the announcement's for the
/// first, the prior send's for each later one.
pub open spec fn expected_at(announcement: Announcement, sent: Seq<(i64, i64)>, at: int) -> (
    i64,
    i64,
) {
    if at == 0 {
        (announcement.prover_id, announcement.ts)
    } else {
        (sent[at - 1].0.wrapping_add(announcement.stride), sent[at - 1].1)
    }
}

/// Each derived execution item tiles from the moment before its send to the send itself and carries
/// the segment that was sent, and a send that is not the expected one derives none, so a dropped
/// send never widens a neighbor's span.
pub proof fn derived_items_tile(
    announcement: Announcement,
    sent: Seq<(i64, i64)>,
    count: int,
    item: int,
)
    requires
        0 <= count <= sent.len(),
        0 <= item < derived(announcement, sent, count).len(),
    ensures
        exists|at: int|
            0 <= at < count && (#[trigger] sent[at]).0 == expected_at(announcement, sent, at).0
                && derived(announcement, sent, count)[item].first == (
                expected_at(announcement, sent, at).1,
                Some(sent[at].1),
            ) && derived(announcement, sent, count)[item].meta.id == Some(sent[at].0),
    decreases count,
{
    if count > 0 {
        let before = derived(announcement, sent, count - 1);
        if item < before.len() {
            derived_items_tile(announcement, sent, count - 1, item);
            let at = choose|at: int|
                0 <= at < count - 1 && (#[trigger] sent[at]).0 == expected_at(
                    announcement,
                    sent,
                    at,
                ).0 && before[item].first == (
                    expected_at(announcement, sent, at).1,
                    Some(sent[at].1),
                ) && before[item].meta.id == Some(sent[at].0);
            assert(sent[at].0 == expected_at(announcement, sent, at).0);
        } else {
            assert(sent[count - 1].0 == expected_at(announcement, sent, count - 1).0);
        }
    }
}

} // verus!
