//! Reads the per-GPU edge-worker logs into fine pipeline items, per-proof coordinator
//! announcements, per-proof segment-send moments, and per-proof input-transfer end times.
//!
//! Every work item logs one completion line carrying its duration and sub-timings, so an item's
//! window is the line timestamp minus the printed span with no bracket pairing and no dangling
//! reconstruction. A dropped line is a missing item, never a corrupt one. Each segment's proof line
//! carries a fast-forward and a STARK span, split into a fast-forward item, the prover's
//! re-execution counted as execution, and an app-segment item, the STARK that follows it. Each
//! worker also derives one execution item per segment it sends for proving, tiling from the prior
//! segment's send, the first from the parallel-coordinator announcement, the executor's metering
//! between its two dispatches. The derived sends follow the round-robin sequence prover_id,
//! prover_id + num_provers, and onward, so a recorded send that skips ahead marks an intermediate
//! send the lossy capture dropped, dropping that segment's item rather than widening a neighbor's
//! span. Each worker also records when it wrote the received input file, the node's input transfer
//! ending at the last such write among its workers. Items are grouped by proof and by host node,
//! the worker-{host}-gpu{gpu}.log file name placing each worker process on its host. The tracing
//! span fields name the proof as proof_id on some functions and proof_uuid on others, and both are
//! accepted.

use vstd::prelude::*;

use crate::error::{Failure, ParseError, Result};
use crate::input::WorkerFile;
use crate::log::{ms_of, ts_read, us_of, ItemModel, MetaModel, PipelineItem, PipelineItemMeta, Ts};
use crate::openvm::coordinator::{i64_or_zero, parse_u64, signed_or_zero, u64_read};
use crate::openvm::phases::{
    owner_span_rows, span_rows, JobAnnouncements, JobItems, JobSends, JobWrites, APP_SEGMENT,
    EXECUTION, FASTFWD, INTERNAL, LEAF, OWNER_COUNT, RECURSION_OWNER, SEGMENT_OWNER, STEP_COUNT,
    WRAP,
};
use crate::pattern::{
    first_matched, found_view, group_text, matched, matched_all, Found, Groups, Pattern, Rules,
};
use crate::text::{
    contains_piece, copied, holds, joined, lines, lines_of, to_chars, to_text, trim, trimmed, views,
    write_decimal,
};
use crate::text_map::{
    at_or, get_nested, lemma_replace, lemma_replace_nested, nested, put_nested, sorted_keys,
    take_nested, with_nested, TextMap,
};
use crate::zisk::worker::{first_token, leading_ts, node_name};
use crate::zkvm::{strip_ansi, without_ansi};

verus! {

/// Matches the proof identifier span field under either of its two names, capturing the identifier.
pub const RE_ID: &'static str = r"proof_(?:id|uuid)=(?P<job>[^\s}]+)";

/// Matches the input-file-written line each worker logs right after receiving its input upload,
/// the end of that worker's input transfer, capturing the proof uuid in the written path.
pub const RE_WRITE: &'static str =
    r#"Input file written to "[^"]*edge_(?P<job>[^/"]+)/input\.bin"\s*$"#;

/// Matches one entry of a spans map, a drained span name and its integer millisecond value.
pub const SPAN_ENTRY: &'static str = r"([^,=}]+)=(\d+)";

/// Matches an app segment completion line from any of the three consumer variants, capturing the
/// segment index, its fast-forward and total prove spans, and the spans field. The prove span holds
/// the fast-forward followed by the STARK, whose sub-steps ride the optional spans field.
///
/// The spans field is one that a patched edge worker appends to a completion line, a brace map of
/// drained span names to integer milliseconds. An entry never holds a comma, equals sign, or brace,
/// so each parses as a name and a value, the map is empty when the item drained no spans, and the
/// whole field is absent on an unpatched log. A line carrying a malformed blob matches neither form
/// and falls to the anchored-line fatal path.
pub const RE_APP: &'static str =
    r"(?:Coordinator-consumer: proved|Consumer: proved|Prover: generated app proof for) segment (?P<i>\d+): queue_wait=\d+ms, fastfwd=(?P<f>\d+)ms, stark=\d+ms, prove=(?P<p>\d+)ms(?:, spans=\{(?P<spans>(?:[^,=}]+=\d+(?:,[^,=}]+=\d+)*)?)\})?\s*$";

/// Matches a leaf aggregation completion line, capturing its start segment, its span, and the
/// optional spans field of its STARK sub-steps.
pub const RE_LEAF: &'static str =
    r"Generated leaf proof for segments \[(?P<a>\d+), \d+\] \((?P<t>\d+)ms\)(?:, spans=\{(?P<spans>(?:[^,=}]+=\d+(?:,[^,=}]+=\d+)*)?)\})?\s*$";

/// Matches an internal aggregation completion line, capturing the prove span, the compress span,
/// and the spans field. The compress span is the final wrap on the root proof and zero elsewhere,
/// and it follows the prove span within the line's total. A final proof's spans field carries the
/// merged internal and wrap sub-steps, so its durations can exceed the prove span.
pub const RE_INTERNAL: &'static str =
    r"Generated internal proof: layer=\d+, segment=\[\d+, \d+\], is_final=(?:true|false), prove=(?P<p>\d+)ms, compress=(?P<c>\d+)ms(?:, spans=\{(?P<spans>(?:[^,=}]+=\d+(?:,[^,=}]+=\d+)*)?)\})?\s*$";

/// Matches the final wrap completion line, emitted once per proof on the root worker, capturing its
/// span.
pub const RE_WRAP: &'static str = r"Final internal proof wrapped successfully \((?P<t>\d+)ms\)\s*$";

/// Matches the parallel-coordinator announcement each worker prints when it takes up a proof, the
/// earliest worker-side moment of that worker's execution, capturing the prover id and the number
/// of provers.
pub const RE_COORDINATOR: &'static str =
    r"Parallel coordinator: prover_id=(?P<prover_id>\d+), num_provers=(?P<num_provers>\d+), max_app_provers=\d+\s*$";

/// Matches the segment-send line each worker prints when its executor dispatches a metered segment
/// for proving, capturing the segment id, the moment closing that segment's execution item.
pub const RE_SEND: &'static str =
    r"Executor \(parallel\): sending segment (?P<i>\d+) for proving\s*$";

/// The worker patterns in the order in which a line is tried against them.
pub open spec fn worker_patterns() -> Seq<Seq<char>> {
    seq![
        RE_APP@,
        RE_LEAF@,
        RE_INTERNAL@,
        RE_WRAP@,
        RE_COORDINATOR@,
        RE_SEND@,
        RE_WRITE@,
    ]
}

/// Whether a line carries an anchor phrase of the work-item completion lines. One that its full
/// pattern then fails to match is fatal, so a worker format change cannot silently drop items.
pub open spec fn anchored(line: Seq<char>) -> bool {
    ||| contains_piece(line, "proved segment "@)
    ||| contains_piece(line, "generated app proof for segment"@)
    ||| contains_piece(line, "Generated leaf proof"@)
    ||| contains_piece(line, "Generated internal proof:"@)
    ||| contains_piece(line, "wrapped successfully"@)
    ||| contains_piece(line, "Parallel coordinator:"@)
    ||| contains_piece(line, "sending segment "@)
    ||| contains_piece(line, "Input file written to "@)
}

fn has_anchor(line: &[char]) -> (yes: bool)
    ensures
        yes == anchored(line@),
{
    holds(line, "proved segment ") || holds(line, "generated app proof for segment") || holds(
        line,
        "Generated leaf proof",
    ) || holds(line, "Generated internal proof:") || holds(line, "wrapped successfully") || holds(
        line,
        "Parallel coordinator:",
    ) || holds(line, "sending segment ") || holds(line, "Input file written to ")
}

/// The error for a line that carries work in a form that no pattern covers.
pub open spec fn unrecognized_line(line: Seq<char>) -> Failure {
    Failure::UnrecognizedWorkerLine(trimmed(line))
}

fn unrecognized(line: &[char]) -> (error: ParseError)
    ensures
        error@ == unrecognized_line(line@),
{
    ParseError::UnrecognizedWorkerLine(to_text(trim(line)))
}

/// A worker's parallel-coordinator announcement for one proof, holding the moment its execution
/// begins and the round-robin assignment its sent segments follow. The worker proves segment
/// prover_id first, then prover_id + stride and every stride onward, stride being the run's
/// num_provers.
#[derive(Clone, Copy)]
pub struct Announcement {
    pub ts: i64,
    pub prover_id: i64,
    pub stride: i64,
}

impl DeepView for Announcement {
    type V = Announcement;

    open spec fn deep_view(&self) -> Announcement {
        *self
    }
}

/// What the worker logs said so far, with the announcements and sends of the log being read.
#[verifier::ext_equal]
pub struct Work {
    pub items: Map<Seq<char>, Map<Seq<char>, Seq<ItemModel>>>,
    pub announcements: Map<Seq<char>, Map<Seq<char>, i64>>,
    pub sends: Map<Seq<char>, Map<Seq<char>, i64>>,
    pub writes: Map<Seq<char>, Map<Seq<char>, i64>>,
    pub coordinator: Map<Seq<char>, Announcement>,
    pub sent: Map<Seq<char>, Seq<(i64, i64)>>,
}

/// A single-span item of the given kind, carrying an optional id.
pub open spec fn span_model(kind: usize, start: i64, end: i64, id: Option<i64>) -> ItemModel {
    ItemModel {
        kind,
        first: (start, Some(end)),
        second: None,
        meta: MetaModel {
            id,
            cpu_heavy: None,
            gpu_heavy: None,
            spans: seq![],
            spans_window: None,
            scaled_ends: None,
        },
    }
}

/// A single-span item of the given kind, carrying an optional id.
pub fn span_item(kind: usize, start: i64, end: i64, id: Option<i64>) -> (item: PipelineItem)
    ensures
        item.deep_view() == span_model(kind, start, end, id),
{
    let mut meta: PipelineItemMeta = PipelineItemMeta::default();
    meta.id = id;
    PipelineItem { kind, first: (start, Some(end)), second: None, meta }
}

/// The drained spans that the first `count` entries of a spans field name, the last of those named
/// alike; none where a value does not fit 64 bits.
pub open spec fn spans_read(entries: Seq<Seq<Option<Seq<char>>>>, count: int) -> Option<
    Map<Seq<char>, u64>,
>
    decreases count,
{
    if count <= 0 {
        Some(Map::empty())
    } else {
        match (spans_read(entries, count - 1), u64_read(group_text(entries[count - 1], 2))) {
            (Some(map), Some(value)) => Some(map.insert(group_text(entries[count - 1], 1), value)),
            _ => None,
        }
    }
}

/// The item carrying the STARK sub-step breakdown of its completion line, where the spans field is
/// present; none where a value of it does not fit.
pub open spec fn with_breakdown(
    item: ItemModel,
    entries: Option<Seq<Seq<Option<Seq<char>>>>>,
    owner: int,
    end: i64,
) -> Option<ItemModel> {
    match entries {
        None => Some(item),
        Some(entries) => match spans_read(entries, entries.len() as int) {
            None => None,
            Some(map) => {
                let spans = span_rows(map, owner, STEP_COUNT as int);
                Some(
                    ItemModel {
                        meta: MetaModel {
                            spans,
                            spans_window: if spans.len() > 0 {
                                Some((item.first.0, end))
                            } else {
                                item.meta.spans_window
                            },
                            ..item.meta
                        },
                        ..item
                    },
                )
            },
        },
    }
}

/// The work with an item appended under a proof and a node.
pub open spec fn pushed(work: Work, job: Seq<char>, node: Seq<char>, item: ItemModel) -> Work {
    Work {
        items: with_nested(
            work.items,
            job,
            node,
            match nested(work.items, job, node) {
                Some(items) => items.push(item),
                None => seq![item],
            },
        ),
        ..work
    }
}

/// A moment kept where it is earlier than the one that may be there.
pub open spec fn kept_min(held: Option<i64>, ts: i64) -> i64 {
    match held {
        Some(held) => if ts < held {
            ts
        } else {
            held
        },
        None => ts,
    }
}

/// A moment kept where it is later than the one that may be there.
pub open spec fn kept_max(held: Option<i64>, ts: i64) -> i64 {
    match held {
        Some(held) => if ts > held {
            ts
        } else {
            held
        },
        None => ts,
    }
}

/// The work after a completion line, a line that a worker pattern matched. The line's timestamp is
/// the completion moment that items are placed backward from.
pub open spec fn completed(
    work: Work,
    rule: int,
    groups: Seq<Option<Seq<char>>>,
    entries: Option<Seq<Seq<Option<Seq<char>>>>>,
    job: Seq<char>,
    end: i64,
    node: Seq<char>,
) -> Option<Work> {
    let first = signed_or_zero(group_text(groups, 1));
    let second = signed_or_zero(group_text(groups, 2));
    if rule == 0 {
        // The prove span placed backward from the completion timestamp holds the fast-forward
        // then the STARK.
        let third = signed_or_zero(group_text(groups, 3));
        let start = end.wrapping_sub(third);
        let stark = start.wrapping_add(second);
        let work = pushed(work, job, node, span_model(FASTFWD, start, stark, Some(first)));
        match with_breakdown(
            span_model(APP_SEGMENT, stark, end, Some(first)),
            entries,
            SEGMENT_OWNER as int,
            end,
        ) {
            Some(item) => Some(pushed(work, job, node, item)),
            None => None,
        }
    } else if rule == 1 {
        match with_breakdown(
            span_model(LEAF, end.wrapping_sub(second), end, Some(first)),
            entries,
            RECURSION_OWNER as int,
            end,
        ) {
            Some(item) => Some(pushed(work, job, node, item)),
            None => None,
        }
    } else if rule == 2 {
        match with_breakdown(
            span_model(
                INTERNAL,
                end.wrapping_sub(first).wrapping_sub(second),
                end.wrapping_sub(second),
                None,
            ),
            entries,
            RECURSION_OWNER as int,
            end,
        ) {
            Some(item) => Some(pushed(work, job, node, item)),
            None => None,
        }
    } else if rule == 3 {
        Some(pushed(work, job, node, span_model(WRAP, end.wrapping_sub(first), end, None)))
    } else if rule == 4 {
        Some(
            Work {
                announcements: with_nested(
                    work.announcements,
                    job,
                    node,
                    kept_min(nested(work.announcements, job, node), end),
                ),
                coordinator: if work.coordinator.dom().contains(job) {
                    work.coordinator
                } else {
                    work.coordinator.insert(
                        job,
                        Announcement { ts: end, prover_id: first, stride: second },
                    )
                },
                ..work
            },
        )
    } else {
        Some(
            Work {
                sends: with_nested(
                    work.sends,
                    job,
                    node,
                    kept_max(nested(work.sends, job, node), end),
                ),
                sent: work.sent.insert(job, at_or(work.sent, job, seq![]).push((first, end))),
                ..work
            },
        )
    }
}

/// The work after an edge-worker line, by what the patterns found in it: the groups of the pattern
/// that matched, the entries of its spans field, and the proof that its span fields name.
pub open spec fn line_applied(
    work: Work,
    found: Option<(int, Seq<Option<Seq<char>>>)>,
    entries: Option<Seq<Seq<Option<Seq<char>>>>>,
    job: Option<Seq<char>>,
    line: Seq<char>,
    node: Seq<char>,
) -> core::result::Result<Work, Failure> {
    match found {
        None => if anchored(line) {
            Err(unrecognized_line(line))
        } else {
            Ok(work)
        },
        Some((rule, groups)) => match ts_read(first_token(line)) {
            Err(failure) => Err(failure),
            Ok(ns) => if rule == 6 {
                let job = group_text(groups, 1);
                Ok(
                    Work {
                        writes: with_nested(
                            work.writes,
                            job,
                            node,
                            kept_max(nested(work.writes, job, node), us_of(ns)),
                        ),
                        ..work
                    },
                )
            } else {
                match job {
                    None => Err(unrecognized_line(line)),
                    Some(job) => match completed(
                        work,
                        rule,
                        groups,
                        entries,
                        job,
                        ms_of(ns),
                        node,
                    ) {
                        Some(work) => Ok(work),
                        None => Err(unrecognized_line(line)),
                    },
                }
            },
        },
    }
}

/// The place of the spans group of a worker pattern.
pub open spec fn spans_group(rule: int) -> int {
    if rule == 0 {
        4
    } else {
        3
    }
}

/// The entries of the spans field that a worker pattern captured, where it has one.
pub open spec fn entries_of(found: Option<(int, Seq<Option<Seq<char>>>)>) -> Option<
    Seq<Seq<Option<Seq<char>>>>,
> {
    match found {
        Some((rule, groups)) => {
            let at = spans_group(rule);
            if 0 <= rule <= 2 && at < groups.len() && groups[at] is Some {
                Some(matched_all(SPAN_ENTRY@, groups[at]->0))
            } else {
                None
            }
        },
        None => None,
    }
}

/// The proof that a match of the identifier pattern names.
pub open spec fn proof_of(groups: Option<Seq<Option<Seq<char>>>>) -> Option<Seq<char>> {
    match groups {
        Some(groups) => if 1 < groups.len() {
            groups[1]
        } else {
            None
        },
        None => None,
    }
}

/// The work after one line of a worker log. Every extracted line carries the edge_worker target.
pub open spec fn line_read(work: Work, line: Seq<char>, node: Seq<char>) -> core::result::Result<
    Work,
    Failure,
> {
    if contains_piece(line, "edge_worker::"@) {
        let found = first_matched(worker_patterns(), line, 0);
        line_applied(work, found, entries_of(found), proof_of(matched(RE_ID@, line)), line, node)
    } else {
        Ok(work)
    }
}

/// The work after the given lines, or the error that ends the read.
pub open spec fn lines_read(
    work: Work,
    lines: Seq<Seq<char>>,
    node: Seq<char>,
) -> core::result::Result<Work, Failure>
    decreases lines.len(),
{
    if lines.len() == 0 {
        Ok(work)
    } else {
        match line_read(work, lines[0], node) {
            Ok(work) => lines_read(work, lines.skip(1), node),
            Err(failure) => Err(failure),
        }
    }
}

/// The execution items that the first `count` sends of a worker derive. Each tiles from the prior
/// send, the announcement for the first, to this send. The sends follow the round-robin sequence,
/// so one that skips the expected next segment marks an intermediate send the capture dropped, and
/// derives no item.
pub open spec fn derived(announcement: Announcement, sent: Seq<(i64, i64)>, count: int) -> Seq<
    ItemModel,
>
    decreases count,
{
    if count <= 0 {
        seq![]
    } else {
        let before = derived(announcement, sent, count - 1);
        let (expected, prev) = if count == 1 {
            (announcement.prover_id, announcement.ts)
        } else {
            (sent[count - 2].0.wrapping_add(announcement.stride), sent[count - 2].1)
        };
        let (segment, send) = sent[count - 1];
        if segment == expected {
            before.push(span_model(EXECUTION, prev, send, Some(segment)))
        } else {
            before
        }
    }
}

/// The items once the execution items of the first `count` announced proofs are derived. A worker
/// missing its announcement, or one with no sends, derives nothing.
pub open spec fn derived_all(work: Work, node: Seq<char>, count: int) -> Map<
    Seq<char>,
    Map<Seq<char>, Seq<ItemModel>>,
>
    decreases count,
{
    if count <= 0 {
        work.items
    } else {
        let items = derived_all(work, node, count - 1);
        let job = sorted_keys(work.coordinator)[count - 1];
        if work.sent.dom().contains(job) {
            let sent = work.sent[job];
            let own = match nested(items, job, node) {
                Some(own) => own,
                None => seq![],
            };
            with_nested(
                items,
                job,
                node,
                own + derived(work.coordinator[job], sent, sent.len() as int),
            )
        } else {
            items
        }
    }
}

/// Everything recovered from the worker logs, by the values it holds.
#[verifier::ext_equal]
pub struct DataModel {
    pub items: Map<Seq<char>, Map<Seq<char>, Seq<ItemModel>>>,
    pub announcements: Map<Seq<char>, Map<Seq<char>, i64>>,
    pub sends: Map<Seq<char>, Map<Seq<char>, i64>>,
    pub writes: Map<Seq<char>, Map<Seq<char>, i64>>,
}

/// What is known when a worker log is taken up: what the logs before it said, and nothing yet of
/// its own announcements and sends.
pub open spec fn taken_up(data: DataModel) -> Work {
    Work {
        items: data.items,
        announcements: data.announcements,
        sends: data.sends,
        writes: data.writes,
        coordinator: Map::empty(),
        sent: Map::empty(),
    }
}

/// What one worker log adds to the data.
pub open spec fn worker_parsed(
    clean: Seq<char>,
    node: Seq<char>,
    data: DataModel,
) -> core::result::Result<DataModel, Failure> {
    match lines_read(taken_up(data), lines_of(clean), node) {
        Err(failure) => Err(failure),
        Ok(work) => Ok(
            DataModel {
                items: derived_all(work, node, sorted_keys(work.coordinator).len() as int),
                announcements: work.announcements,
                sends: work.sends,
                writes: work.writes,
            },
        ),
    }
}

/// Everything recovered from the worker logs, the per-proof pipeline items, the per-proof
/// coordinator announcements, the per-proof segment-send moments, and the per-proof input-transfer
/// end times.
pub struct WorkerData {
    /// Per-proof fine pipeline items, keyed by the full proof uuid then by node. The manager and
    /// the workers both print the uuid untruncated, so the raw id is the join key.
    pub items: TextMap<JobItems>,
    /// Per-proof execution starts, keyed by the full proof uuid then by node, each the earliest
    /// parallel-coordinator announcement among the node's workers.
    pub announcements: TextMap<JobAnnouncements>,
    /// Per-proof execution ends, keyed by the full proof uuid then by node, each the latest
    /// segment-send moment among the node's workers.
    pub sends: TextMap<JobSends>,
    /// Per-proof input-transfer ends, keyed by the full proof uuid then by node, each the latest
    /// input-file-written time among the node's workers, when its input transfer completes.
    pub writes: TextMap<JobWrites>,
}

impl View for WorkerData {
    type V = DataModel;

    open spec fn view(&self) -> DataModel {
        DataModel {
            items: self.items@,
            announcements: self.announcements@,
            sends: self.sends@,
            writes: self.writes@,
        }
    }
}

impl WorkerData {
    /// The data of no worker log.
    pub fn new() -> (data: WorkerData)
        ensures
            data@ == no_data(),
    {
        WorkerData {
            items: TextMap::new(),
            announcements: TextMap::new(),
            sends: TextMap::new(),
            writes: TextMap::new(),
        }
    }
}

/// The data of no worker log.
pub open spec fn no_data() -> DataModel {
    DataModel {
        items: Map::empty(),
        announcements: Map::empty(),
        sends: Map::empty(),
        writes: Map::empty(),
    }
}

/// The reader of one worker log: the data it adds to, and the log's own announcements and sends.
/// The worker's first announcement starts its first execution item, each later item starts at the
/// prior segment's send, and each segment it sends closes one such item at that segment's id.
pub struct Reader {
    pub data: WorkerData,
    pub coordinator: TextMap<Announcement>,
    pub sent: TextMap<Vec<(i64, i64)>>,
}

impl View for Reader {
    type V = Work;

    open spec fn view(&self) -> Work {
        Work {
            items: self.data.items@,
            announcements: self.data.announcements@,
            sends: self.data.sends@,
            writes: self.data.writes@,
            coordinator: self.coordinator@,
            sent: self.sent@,
        }
    }
}

/// The views of a spans field's entries, where it has one.
pub open spec fn entries_view(entries: Option<Vec<Groups>>) -> Option<
    Seq<Seq<Option<Seq<char>>>>,
> {
    entries.deep_view()
}

/// The given item carrying the STARK sub-step breakdown of its completion line, the optional spans
/// field parsed into sub-phase template slots under the owner, matching the seven sub-step keys and
/// ignoring the rest. An absent or empty field leaves the item's spans empty. The packing window
/// runs from the item start to the line timestamp, wider than the item's own window for a final
/// internal proof whose merged wrap timings ride past the prove span into the compress span. The
/// pattern guarantees a digit run, so a value parses unless it overflows, which is fatal like any
/// other malformed content rather than silently zeroed.
pub fn with_spans(
    item: PipelineItem,
    entries: &Option<Vec<Groups>>,
    owner: usize,
    end: i64,
    line: &[char],
) -> (done: Result<PipelineItem>)
    requires
        owner < OWNER_COUNT,
    ensures
        match with_breakdown(item.deep_view(), entries_view(*entries), owner as int, end) {
            Some(expected) => done is Ok && done->Ok_0.deep_view() == expected,
            None => done is Err && done->Err_0@ == unrecognized_line(line@),
        },
{
    match entries {
        None => Ok(item),
        Some(list) => {
            let ghost all = list.deep_view();
            let mut map: TextMap<u64> = TextMap::new();
            for i in 0..list.len()
                invariant
                    all == list.deep_view(),
                    entries_view(*entries) == Some(all),
                    spans_read(all, i as int) == Some(map@),
            {
                assert(all[i as int] == list@[i as int]@);
                match parse_u64(list[i].text(2).as_str()) {
                    Some(value) => {
                        map.insert(to_chars(list[i].text(1).as_str()), value);
                    },
                    None => {
                        proof {
                            assert(spans_read(all, i + 1) is None);
                            lemma_spans_stay_unread(all, i + 1, all.len() as int);
                        }
                        return Err(unrecognized(line));
                    },
                }
            }
            let mut item: PipelineItem = item;
            let start: i64 = item.first.0;
            item.meta.spans = owner_span_rows(&map, owner);
            if item.meta.spans.len() > 0 {
                item.meta.spans_window = Some((start, end));
            }
            Ok(item)
        },
    }
}

proof fn lemma_spans_stay_unread(entries: Seq<Seq<Option<Seq<char>>>>, count: int, more: int)
    requires
        spans_read(entries, count) is None,
        count <= more,
    ensures
        spans_read(entries, more) is None,
    decreases more - count,
{
    if count < more {
        lemma_spans_stay_unread(entries, count, more - 1);
    }
}

impl Reader {
    /// Appends an item under a proof and the node.
    fn push(&mut self, job: &[char], node: &[char], item: PipelineItem)
        ensures
            final(self)@ == pushed(old(self)@, job@, node@, item.deep_view()),
    {
        let ghost before = self@;
        let mut own: Vec<PipelineItem> = match take_nested(&mut self.data.items, job, node) {
            Some(own) => own,
            None => Vec::new(),
        };
        let ghost held = own.deep_view();
        own.push(item);
        proof {
            let model = item.deep_view();
            if nested(before.items, job@, node@) is Some {
                assert(own.deep_view() =~= held.push(model));
            } else {
                assert(own.deep_view() =~= seq![model]);
            }
        }
        proof {
            lemma_replace_nested(before.items, job@, node@, own.deep_view());
        }
        put_nested(&mut self.data.items, job, node, own);
        assert(self@ =~= pushed(before, job@, node@, item.deep_view()));
    }

    /// Adds what a completion line says.
    fn complete(
        &mut self,
        rule: usize,
        groups: &Groups,
        entries: &Option<Vec<Groups>>,
        job: &[char],
        end: i64,
        line: &[char],
        node: &[char],
    ) -> (done: Result<()>)
        ensures
            match completed(
                old(self)@,
                rule as int,
                groups@,
                entries_view(*entries),
                job@,
                end,
                node@,
            ) {
                Some(work) => done is Ok && final(self)@ == work,
                None => done is Err && done->Err_0@ == unrecognized_line(line@),
            },
    {
        let first: i64 = i64_or_zero(groups.text(1).as_str());
        let second: i64 = i64_or_zero(groups.text(2).as_str());
        if rule == 0 {
            // The prove span placed backward from the completion timestamp holds the fast-forward
            // then the STARK. The fast-forward is the prover's re-execution of the segment, counted
            // as execution, and the app segment is the STARK that follows it. A zero fast-forward,
            // a segment proved straight from a snapshot, is still stored as a zero-width item so
            // every segment carries one.
            let third: i64 = i64_or_zero(groups.text(3).as_str());
            let start: i64 = end.wrapping_sub(third);
            let stark: i64 = start.wrapping_add(second);
            self.push(job, node, span_item(FASTFWD, start, stark, Some(first)));
            match with_spans(
                span_item(APP_SEGMENT, stark, end, Some(first)),
                entries,
                SEGMENT_OWNER,
                end,
                line,
            ) {
                Ok(item) => self.push(job, node, item),
                Err(error) => {
                    return Err(error);
                },
            }
        } else if rule == 1 {
            // The provisional id is the leaf's start segment, which the translator divides by the
            // proof's leaf arity into the leaf index.
            match with_spans(
                span_item(LEAF, end.wrapping_sub(second), end, Some(first)),
                entries,
                RECURSION_OWNER,
                end,
                line,
            ) {
                Ok(item) => self.push(job, node, item),
                Err(error) => {
                    return Err(error);
                },
            }
        } else if rule == 2 {
            // The line's timestamp follows the wrap, so the prove window ends where the compress
            // span begins.
            match with_spans(
                span_item(
                    INTERNAL,
                    end.wrapping_sub(first).wrapping_sub(second),
                    end.wrapping_sub(second),
                    None,
                ),
                entries,
                RECURSION_OWNER,
                end,
                line,
            ) {
                Ok(item) => self.push(job, node, item),
                Err(error) => {
                    return Err(error);
                },
            }
        } else if rule == 3 {
            self.push(job, node, span_item(WRAP, end.wrapping_sub(first), end, None));
        } else if rule == 4 {
            // The earliest announcement per proof and node starts the node's execution, while the
            // worker's own first announcement starts every execution item it derives and carries
            // the round-robin assignment those items follow.
            let held: Option<i64> = match get_nested(&self.data.announcements, job, node) {
                Some(held) => Some(*held),
                None => None,
            };
            put_nested(&mut self.data.announcements, job, node, earlier(held, end));
            if !self.coordinator.contains_key(job) {
                self.coordinator.insert(
                    copied(job),
                    Announcement { ts: end, prover_id: first, stride: second },
                );
            }
        } else {
            // The latest send per proof and node closes the node's execution, while the worker's
            // own sends each close one derived execution item at the segment they name.
            let held: Option<i64> = match get_nested(&self.data.sends, job, node) {
                Some(held) => Some(*held),
                None => None,
            };
            put_nested(&mut self.data.sends, job, node, later(held, end));
            let ghost before = self.sent@;
            let mut sent: Vec<(i64, i64)> = match self.sent.remove(job) {
                Some(sent) => sent,
                None => Vec::new(),
            };
            let ghost held_sends = sent.deep_view();
            sent.push((first, end));
            proof {
                assert(held_sends =~= at_or(before, job@, seq![]));
                assert(sent.deep_view() =~= held_sends.push((first, end)));
                lemma_replace(before, job@, sent.deep_view());
                if !before.dom().contains(job@) {
                    assert(before.remove(job@) =~= before);
                }
            }
            self.sent.insert(copied(job), sent);
        }
        Ok(())
    }

    /// Adds what an edge-worker line says, by what the patterns found in it.
    pub fn apply(
        &mut self,
        found: Found,
        entries: Option<Vec<Groups>>,
        job: Option<String>,
        line: &[char],
        node: &[char],
    ) -> (done: Result<()>)
        ensures
            match line_applied(
                old(self)@,
                found_view(found),
                entries_view(entries),
                job.deep_view(),
                line@,
                node@,
            ) {
                Ok(work) => done is Ok && final(self)@ == work,
                Err(failure) => done is Err && done->Err_0@ == failure,
            },
    {
        let (rule, groups) = match found {
            Some(found) => found,
            None => {
                return if has_anchor(line) {
                    Err(unrecognized(line))
                } else {
                    Ok(())
                };
            },
        };
        let ts: Ts = match Ts::parse(to_text(leading_ts(line)).as_str()) {
            Ok(ts) => ts,
            Err(error) => {
                return Err(error);
            },
        };
        if rule == 6 {
            // The write follows the upload receipt, so the node's last write among its workers ends
            // its input transfer. The moment is kept in microseconds so a sub-millisecond transfer
            // stays measurable against the fan-out start, and the proof uuid rides in the written
            // path, not a span field.
            let job: Vec<char> = to_chars(groups.text(1).as_str());
            let held: Option<i64> = match get_nested(&self.data.writes, job.as_slice(), node) {
                Some(held) => Some(*held),
                None => None,
            };
            put_nested(
                &mut self.data.writes,
                job.as_slice(),
                node,
                later(held, ts.epoch_us()),
            );
            return Ok(());
        }
        match job {
            Some(job) => self.complete(
                rule,
                &groups,
                &entries,
                to_chars(job.as_str()).as_slice(),
                ts.epoch_ms(),
                line,
                node,
            ),
            None => Err(unrecognized(line)),
        }
    }

    /// The data once the execution items of the log's announced proofs are derived.
    pub fn finish(self, node: &[char]) -> (data: WorkerData)
        ensures
            data@ == (DataModel {
                items: derived_all(self@, node@, sorted_keys(self@.coordinator).len() as int),
                announcements: self@.announcements,
                sends: self@.sends,
                writes: self@.writes,
            }),
    {
        let ghost work = self@;
        let mut data: WorkerData = self.data;
        let coordinator: TextMap<Announcement> = self.coordinator;
        let sent: TextMap<Vec<(i64, i64)>> = self.sent;
        let len: usize = coordinator.len();
        for count in 0..len
            invariant
                coordinator@ == work.coordinator,
                sent@ == work.sent,
                len == sorted_keys(work.coordinator).len(),
                data@ == (DataModel {
                    items: derived_all(work, node@, count as int),
                    announcements: work.announcements,
                    sends: work.sends,
                    writes: work.writes,
                }),
        {
            let job = coordinator.key_at(count);
            let announcement: Announcement = *coordinator.value_at(count);
            match sent.get(job) {
                None => {},
                Some(segments) => {
                    assert(segments.deep_view() =~= segments@);
                    let ghost items = data@.items;
                    let mut own: Vec<PipelineItem> = match take_nested(&mut data.items, job, node) {
                        Some(own) => own,
                        None => Vec::new(),
                    };
                    let ghost held = own.deep_view();
                    derive_items(&mut own, announcement, segments);
                    proof {
                        let expected = match nested(items, job@, node@) {
                            Some(own) => own,
                            None => seq![],
                        };
                        assert(held =~= expected);
                        lemma_replace_nested(items, job@, node@, own.deep_view());
                    }
                    put_nested(&mut data.items, job, node, own);
                },
            }
        }
        data
    }
}

/// Derives the execution items of a worker's sends for one proof.
fn derive_items(own: &mut Vec<PipelineItem>, announcement: Announcement, sent: &Vec<(i64, i64)>)
    ensures
        final(own).deep_view() == old(own).deep_view() + derived(
            announcement,
            sent@,
            sent@.len() as int,
        ),
{
    let ghost before = own.deep_view();
    let mut expected: i64 = announcement.prover_id;
    let mut prev: i64 = announcement.ts;
    assert(before + derived(announcement, sent@, 0) =~= before);
    for i in 0..sent.len()
        invariant
            own.deep_view() == before + derived(announcement, sent@, i as int),
            i == 0 ==> expected == announcement.prover_id && prev == announcement.ts,
            i > 0 ==> expected == sent@[i - 1].0.wrapping_add(announcement.stride) && prev
                == sent@[i - 1].1,
    {
        let (segment, send) = sent[i];
        if segment == expected {
            let ghost held = own.deep_view();
            let item: PipelineItem = span_item(EXECUTION, prev, send, Some(segment));
            own.push(item);
            assert(own.deep_view() =~= held.push(item.deep_view()));
        }
        expected = segment.wrapping_add(announcement.stride);
        prev = send;
        assert(own.deep_view() =~= before + derived(announcement, sent@, i + 1));
    }
}

fn earlier(held: Option<i64>, ts: i64) -> (kept: i64)
    ensures
        kept == kept_min(held, ts),
{
    match held {
        Some(held) => if ts < held {
            ts
        } else {
            held
        },
        None => ts,
    }
}

fn later(held: Option<i64>, ts: i64) -> (kept: i64)
    ensures
        kept == kept_max(held, ts),
{
    match held {
        Some(held) => if ts > held {
            ts
        } else {
            held
        },
        None => ts,
    }
}

/// The worker patterns, compiled.
pub struct Patterns {
    rules: Rules,
    id: Pattern,
    entry: Pattern,
}

impl Patterns {
    /// Whether the patterns are those of the worker logs.
    pub closed spec fn compiled(&self) -> bool {
        self.rules@ == worker_patterns() && self.id@ == RE_ID@ && self.entry@ == SPAN_ENTRY@
    }

    /// Compiles the worker patterns.
    pub fn new() -> (patterns: Patterns)
        ensures
            patterns.compiled(),
    {
        let rules: Rules = Rules::new().with(RE_APP).with(RE_LEAF).with(RE_INTERNAL).with(
            RE_WRAP,
        ).with(RE_COORDINATOR).with(RE_SEND).with(RE_WRITE);
        assert(rules@ =~= worker_patterns());
        Patterns { rules, id: Pattern::new(RE_ID), entry: Pattern::new(SPAN_ENTRY) }
    }

    /// The proof id the line's span names. A work line without a proof span field is fatal because
    /// every prover function carries one, so its absence is format drift.
    fn proof_id(&self, line: &str) -> (job: Option<String>)
        requires
            self.compiled(),
        ensures
            job.deep_view() == proof_of(matched(RE_ID@, line@)),
    {
        match self.id.captures(line) {
            Some(groups) => if groups.took_part(1) {
                Some(groups.text(1))
            } else {
                None
            },
            None => None,
        }
    }

    /// The entries of the spans field that a worker pattern captured, where it has one.
    fn entries(&self, found: &Found) -> (entries: Option<Vec<Groups>>)
        requires
            self.compiled(),
        ensures
            entries_view(entries) == entries_of(found_view(*found)),
    {
        match found {
            Some((rule, groups)) => {
                let at: usize = if *rule == 0 {
                    4
                } else {
                    3
                };
                if *rule <= 2 && groups.took_part(at) {
                    Some(self.entry.captures_all(groups.text(at).as_str()))
                } else {
                    None
                }
            },
            None => None,
        }
    }

    /// Reads one line of a worker log.
    pub fn read(&self, line: &[char], node: &[char], reader: &mut Reader) -> (done: Result<()>)
        requires
            self.compiled(),
        ensures
            match line_read(old(reader)@, line@, node@) {
                Ok(work) => done is Ok && final(reader)@ == work,
                Err(failure) => done is Err && done->Err_0@ == failure,
            },
    {
        // Every extracted line carries the edge_worker target, which cheaply skips the bulk GPU
        // memory telemetry emitted under other targets.
        if !holds(line, "edge_worker::") {
            return Ok(());
        }
        let text: String = to_text(line);
        let found: Found = self.rules.first_match(text.as_str());
        let entries: Option<Vec<Groups>> = self.entries(&found);
        let job: Option<String> = self.proof_id(text.as_str());
        reader.apply(found, entries, job, line, node)
    }
}

/// Parses one ansi-stripped worker log into pipeline items, coordinator announcements, segment-send
/// moments, and input-file-written times for the given node.
pub fn parse_worker(clean: &str, node: &str, data: WorkerData) -> (parsed: Result<WorkerData>)
    ensures
        match worker_parsed(clean@, node@, data@) {
            Ok(expected) => parsed is Ok && parsed->Ok_0@ == expected,
            Err(failure) => parsed is Err && parsed->Err_0@ == failure,
        },
{
    let patterns: Patterns = Patterns::new();
    let name: Vec<char> = to_chars(node);
    let chars: Vec<char> = to_chars(clean);
    let lines: Vec<Vec<char>> = lines(chars.as_slice());
    let ghost all = lines_of(clean@);
    let ghost start = taken_up(data@);
    let mut reader = Reader { data, coordinator: TextMap::new(), sent: TextMap::new() };
    assert(all.skip(0) =~= all);
    for i in 0..lines.len()
        invariant
            patterns.compiled(),
            name@ == node@,
            all == views(lines@),
            all == lines_of(clean@),
            start == taken_up(data@),
            lines_read(start, all, node@) == lines_read(reader@, all.skip(i as int), node@),
    {
        assert(all.skip(i as int)[0] == lines@[i as int]@);
        assert(all.skip(i as int).skip(1) =~= all.skip(i + 1));
        match patterns.read(lines[i].as_slice(), name.as_slice(), &mut reader) {
            Ok(()) => {},
            Err(error) => {
                return Err(error);
            },
        }
    }
    Ok(reader.finish(name.as_slice()))
}

/// The data after the given worker logs, or the error that ends the read.
pub open spec fn files_loaded(
    data: DataModel,
    files: Seq<(u32, Seq<char>, Seq<char>)>,
) -> core::result::Result<DataModel, Failure>
    decreases files.len(),
{
    if files.len() == 0 {
        Ok(data)
    } else {
        match worker_parsed(without_ansi(files[0].2), node_name(files[0].0), data) {
            Ok(next) => files_loaded(next, files.skip(1)),
            Err(failure) => Err(failure),
        }
    }
}

/// Loads pipeline items, coordinator announcements, segment-send moments, and input-file-written
/// times from every worker-{host}-gpu{gpu}.log of a run. The shared worker pattern also admits a
/// bare worker-{host}.log, which an openvm run never contains.
pub fn load(files: &Vec<WorkerFile>) -> (loaded: Result<WorkerData>)
    ensures
        match files_loaded(no_data(), files.deep_view()) {
            Ok(data) => loaded is Ok && loaded->Ok_0@ == data,
            Err(failure) => loaded is Err && loaded->Err_0@ == failure,
        },
{
    let mut data: WorkerData = WorkerData::new();
    let ghost all = files.deep_view();
    assert(all.skip(0) =~= all);
    for i in 0..files.len()
        invariant
            all == files.deep_view(),
            files_loaded(no_data(), all) == files_loaded(data@, all.skip(i as int)),
    {
        assert(all.skip(i as int)[0] == files@[i as int].deep_view());
        assert(all.skip(i as int).skip(1) =~= all.skip(i + 1));
        let clean: String = strip_ansi(files[i].text.as_str());
        let node: Vec<char> = joined(
            to_chars("node").as_slice(),
            write_decimal(files[i].digit as u64).as_slice(),
        );
        match parse_worker(clean.as_str(), to_text(node.as_slice()).as_str(), data) {
            Ok(next) => {
                data = next;
            },
            Err(error) => {
                return Err(error);
            },
        }
    }
    Ok(data)
}

} // verus!
