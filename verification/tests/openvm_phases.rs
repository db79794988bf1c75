//! The phase windows of the openvm nodes.

use std::collections::BTreeMap;

use tools::log::{Log, LogStatus, PipelineItem, PipelineItemMeta, Reading, Ts};
use tools::openvm::coordinator::RawJob;
use tools::openvm::phases::{APP_SEGMENT, LEAF, WRAP};
use tools::text_map::TextMap;

type JobItems = BTreeMap<String, Vec<PipelineItem>>;
type JobAnnouncements = BTreeMap<String, i64>;
type JobSends = BTreeMap<String, i64>;
type JobWrites = BTreeMap<String, i64>;

fn chars(text: &str) -> Vec<char> {
    text.chars().collect()
}

fn moments(map: Option<&BTreeMap<String, i64>>) -> Option<TextMap<i64>> {
    map.map(|nodes| {
        let mut out = TextMap::new();
        for (node, at) in nodes {
            out.insert(chars(node), *at);
        }
        out
    })
}

/// Builds the log of a job from what the worker logs say of it.
fn build_log(
    raw: &RawJob,
    items: Option<&JobItems>,
    announcements: Option<&JobAnnouncements>,
    writes: Option<&JobWrites>,
    sends: Option<&JobSends>,
) -> Log {
    let items = items.map(|nodes| {
        let mut out = TextMap::new();
        for (node, list) in nodes {
            let list: Vec<PipelineItem> = list.iter().map(PipelineItem::copy).collect();
            out.insert(chars(node), list);
        }
        out
    });
    let announcements = moments(announcements);
    let writes = moments(writes);
    let sends = moments(sends);
    tools::openvm::phases::build_log(
        raw,
        items.as_ref(),
        announcements.as_ref(),
        writes.as_ref(),
        sends.as_ref(),
    )
}

/// A scalar of a log by its output field name.
fn meta(log: &Log, name: &str) -> Option<u64> {
    log.meta.iter().find(|(key, _)| key == name).map(|(_, value)| *value)
}

fn pairs(spans: Vec<[u64; 2]>) -> Vec<(u64, u64)> {
    spans.into_iter().map(|[slot, ms]| (slot, ms)).collect()
}

fn raw_job() -> RawJob {
    RawJob {
        id: "ere-aaaabbbbccccddddeeeeffff00001111".to_string(),
        status: LogStatus::Success,
        t_start: Some(Ts::parse("2026-07-21T13:55:07.563047Z").unwrap()),
        t_end: Some(Ts::parse("2026-07-21T13:56:26.514833Z").unwrap()),
        fanout_start_us: Some(1_000_000_000),
        input_bytes: Some(6711680),
        num_segments: Some(52),
        leaf_arity: Some(4),
        duration_s: Some(Reading {
            text: "4883".to_string(),
            per_second: 1000,
        }),
    }
}

fn span(kind: usize, start: i64, end: i64) -> PipelineItem {
    PipelineItem {
        kind,
        first: (start, Some(end)),
        second: None,
        meta: PipelineItemMeta::default(),
    }
}

#[test]
fn windows_derive_from_items_and_writes() {
    // node1 proves app segments and node2 proves the final wrap, each writing its input file.
    let mut items: JobItems = BTreeMap::new();
    items.insert(
        "node1".to_string(),
        vec![span(APP_SEGMENT, 1_002_000, 1_003_000)],
    );
    items.insert(
        "node2".to_string(),
        vec![
            span(LEAF, 1_003_000, 1_003_500),
            span(WRAP, 1_004_000, 1_004_200),
        ],
    );
    let by_job = BTreeMap::from([(raw_job().id.clone(), items)]);
    let announcements: JobAnnouncements = BTreeMap::from([("node1".to_string(), 1_000_500)]);
    // The node's latest segment send closes its metered execution window.
    let sends: JobSends = BTreeMap::from([("node1".to_string(), 1_002_800)]);
    // Writes are microsecond timestamps well past the fan-out start, so each spans whole
    // milliseconds.
    let writes: JobWrites = BTreeMap::from([
        ("node1".to_string(), 1_000_060_000),
        ("node2".to_string(), 1_000_070_000),
    ]);

    let log = build_log(
        &raw_job(),
        by_job.get(&raw_job().id),
        Some(&announcements),
        Some(&writes),
        Some(&sends),
    );
    assert_eq!(log.nodes.len(), 2);

    let node1 = &log.nodes[0];
    assert_eq!(node1.id, "node1");
    // Input transfer ends at the node's last input-file-written time.
    assert_eq!(node1.phases[0], Some((1_000_000, 1_000_060)));
    // Execution runs from the announcement to the last segment send, overlapping the segment
    // envelope.
    assert_eq!(node1.phases[1], Some((1_000_500, 1_002_800)));
    assert_eq!(node1.phases[2], Some((1_002_000, 1_003_000)));
    assert!(node1.phases[3].is_none() && node1.phases[4].is_none());

    // Only the wrap node carries the final slot, the aggregator convention. Without an
    // announcement or a segment send its execution stays null.
    let node2 = &log.nodes[1];
    assert_eq!(node2.phases[0], Some((1_000_000, 1_000_070)));
    assert!(node2.phases[1].is_none());
    assert_eq!(node2.phases[3], Some((1_003_000, 1_003_500)));
    assert_eq!(node2.phases[4], Some((1_004_000, 1_004_200)));
}

#[test]
fn a_sub_millisecond_input_transfer_keeps_the_node_with_a_measurable_window() {
    // A tiny proof fans out in under a millisecond, its elapsed printed as zero, so the fan-out
    // start and the worker writes share a millisecond. A remote node whose microsecond write
    // follows the start keeps a one-millisecond input band, while a node local to the manager,
    // written before the start, keeps an instantaneous window. Both stay in the proof rather
    // than dropping, the failure block 25580396 showed.
    let mut job = raw_job();
    job.fanout_start_us = Some(1_000_002_500);
    let writes: JobWrites = BTreeMap::from([
        ("node1".to_string(), 1_000_002_800), // remote, write after the fan-out start
        ("node2".to_string(), 1_000_001_800), // local, write before the fan-out start
    ]);
    let log = build_log(&job, None, None, Some(&writes), None);
    assert_eq!(log.nodes.len(), 2);
    assert_eq!(log.nodes[0].phases[0], Some((1_000_002, 1_000_003)));
    assert_eq!(log.nodes[1].phases[0], Some((1_000_002, 1_000_002)));
    assert_eq!(
        log.participants,
        vec!["node1".to_string(), "node2".to_string()]
    );
}

#[test]
fn the_execution_window_runs_from_the_announcement_to_the_last_send() {
    let mut items: JobItems = BTreeMap::new();
    // node1 proves two app segments whose envelope the execution window overlaps rather than
    // abuts, since the executor keeps sending while the earlier segments prove.
    items.insert(
        "node1".to_string(),
        vec![
            span(APP_SEGMENT, 1_001_200, 1_002_100),
            span(APP_SEGMENT, 1_001_000, 1_002_000),
        ],
    );
    // node2 lost its announcement line and node3 sent no segment, so each side of the window
    // is missing once and both nodes carry a null execution.
    items.insert(
        "node2".to_string(),
        vec![span(APP_SEGMENT, 1_001_100, 1_002_000)],
    );
    items.insert("node3".to_string(), vec![span(LEAF, 1_003_000, 1_003_500)]);
    let by_job = BTreeMap::from([(raw_job().id.clone(), items)]);
    let announcements: JobAnnouncements = BTreeMap::from([
        ("node1".to_string(), 1_000_500),
        ("node3".to_string(), 1_000_600),
    ]);
    let sends: JobSends = BTreeMap::from([
        ("node1".to_string(), 1_001_900),
        ("node2".to_string(), 1_001_100),
    ]);

    let log = build_log(
        &raw_job(),
        by_job.get(&raw_job().id),
        Some(&announcements),
        None,
        Some(&sends),
    );
    // The window runs from the earliest coordinator start to the latest segment send, ending
    // inside the segment envelope so the two phases overlap.
    assert_eq!(log.nodes[0].phases[1], Some((1_000_500, 1_001_900)));
    assert!(log.nodes[0].phases[1].unwrap().1 > log.nodes[0].phases[2].unwrap().0);
    assert!(log.nodes[1].phases[1].is_none());
    assert!(log.nodes[2].phases[1].is_none());
}

#[test]
fn leaf_ids_divide_by_the_arity_and_omit_when_unknown() {
    let with_id = |kind: usize, start: i64, end: i64, id: i64| PipelineItem {
        meta: PipelineItemMeta {
            id: Some(id),
            ..Default::default()
        },
        ..span(kind, start, end)
    };
    let mut items: JobItems = BTreeMap::new();
    items.insert(
        "node1".to_string(),
        vec![
            with_id(LEAF, 1_003_000, 1_003_500, 16),
            with_id(APP_SEGMENT, 1_002_000, 1_002_500, 3),
        ],
    );
    let by_job = BTreeMap::from([(raw_job().id.clone(), items)]);

    // The arity 4 turns the leaf's start segment 16 into leaf index 4, while the app segment
    // id passes through untouched.
    let log = build_log(&raw_job(), by_job.get(&raw_job().id), None, None, None);
    let ids: Vec<(usize, Option<i64>)> = log.nodes[0]
        .items
        .iter()
        .map(|i| (i.kind, i.meta.id))
        .collect();
    assert_eq!(ids, vec![(LEAF, Some(4)), (APP_SEGMENT, Some(3))]);

    // A proof whose trigger_tail_proofs line was dropped carries no arity, so the leaf id is
    // omitted rather than left as a raw segment number.
    let mut no_arity = raw_job();
    no_arity.leaf_arity = None;
    let log = build_log(&no_arity, by_job.get(&raw_job().id), None, None, None);
    let ids: Vec<Option<i64>> = log.nodes[0].items.iter().map(|i| i.meta.id).collect();
    assert_eq!(ids, vec![None, Some(3)]);
}

#[test]
fn meta_and_participants_come_from_the_job_and_its_nodes() {
    let mut items: JobItems = BTreeMap::new();
    items.insert("node1".to_string(), vec![span(LEAF, 1_001_000, 1_002_000)]);
    let by_job = BTreeMap::from([(raw_job().id.clone(), items)]);

    let log = build_log(&raw_job(), by_job.get(&raw_job().id), None, None, None);
    assert_eq!(meta(&log, "input_size"), Some(6711680));
    assert_eq!(meta(&log, "segments"), Some(52));
    assert_eq!(log.participants, vec!["node1".to_string()]);
}

#[test]
fn a_job_with_no_worker_evidence_yields_no_nodes() {
    // A proof whose worker lines were all dropped keeps its job record for timing but names no
    // node, since it has neither items nor input-file-written times.
    let log = build_log(&raw_job(), None, None, None, None);
    assert!(log.nodes.is_empty() && log.participants.is_empty());
    assert_eq!(log.status, LogStatus::Success);
}

#[test]
fn the_sub_step_spans_do_not_shift_the_phase_envelopes() {
    // The segment and recursion envelopes read the monolithic item windows, so an item's STARK
    // sub-step spans, which the wire emits as component rows in place of the item, never move
    // its phase window. A new-format node keeps the identical phase envelopes of the same node
    // without spans.
    let phases_of = |items: JobItems| {
        let by_job = BTreeMap::from([(raw_job().id.clone(), items)]);
        build_log(&raw_job(), by_job.get(&raw_job().id), None, None, None).nodes[0]
            .phases
            .clone()
    };
    let plain: JobItems = BTreeMap::from([(
        "node1".to_string(),
        vec![
            span(APP_SEGMENT, 1_002_000, 1_003_000),
            span(LEAF, 1_003_000, 1_003_500),
        ],
    )]);
    let spanned = |kind: usize, start: i64, end: i64, spans: Vec<[u64; 2]>| PipelineItem {
        meta: PipelineItemMeta {
            spans: pairs(spans),
            spans_window: Some((start, end)),
            ..Default::default()
        },
        ..span(kind, start, end)
    };
    let with_spans: JobItems = BTreeMap::from([(
        "node1".to_string(),
        vec![
            spanned(APP_SEGMENT, 1_002_000, 1_003_000, vec![[0, 400], [1, 500]]),
            spanned(LEAF, 1_003_000, 1_003_500, vec![[7, 200]]),
        ],
    )]);
    assert_eq!(phases_of(plain), phases_of(with_spans));
}
