//! Blocks, bindings, rows, and names of the assembled document.

use serde_json::Value;
use tools::assemble::benchmark_name;
use tools::binding::match_blocks_to_logs;
use tools::lines::RawLine;
use tools::log::{
    Log, LogNode, LogStatus, NodeEnd, NodeEndKind, PipelineItem, PipelineItemMeta, Ts,
};
use tools::metrics::{MetricBlock, MetricStatus};
use tools::rows::{any_log_spans, breakdown_overruns};
use tools::schema::{Block, LogEntry, Row};

/// The JSON value that a text writes.
fn json(text: &str) -> Value {
    serde_json::from_str(text).unwrap()
}

/// The wire form of pipeline rows.
fn wire(rows: &[Row]) -> Value {
    let row = |row: &Row| {
        let mut cells: Vec<Value> = row.cells.iter().map(|c| Value::from(*c)).collect();
        if let Some(meta) = row.meta {
            let mut object = serde_json::Map::new();
            if let Some(id) = meta.id {
                object.insert("id".to_string(), Value::from(id));
            }
            if let Some(index) = meta.cpu_heavy {
                object.insert("cpu_heavy".to_string(), Value::from(index));
            }
            if let Some(index) = meta.gpu_heavy {
                object.insert("gpu_heavy".to_string(), Value::from(index));
            }
            if let Some(group) = meta.group {
                object.insert("group".to_string(), Value::from(group));
            }
            cells.push(Value::Object(object));
        }
        Value::Array(cells)
    };
    Value::Array(rows.iter().map(row).collect())
}

fn pairs(spans: Vec<[u64; 2]>) -> Vec<(u64, u64)> {
    spans.into_iter().map(|[slot, ms]| (slot, ms)).collect()
}

/// Scales the ends of a breakdown that overruns its window.
fn scale(item: &PipelineItem) -> PipelineItem {
    let mut item = item.copy();
    if breakdown_overruns(&item.meta) {
        let (start, end) = item.meta.spans_window.unwrap();
        let sum: u64 = item.meta.spans.iter().map(|span| span.1).sum();
        let scale = (end - start).max(0) as f64 / sum as f64;
        let mut cumulative = 0;
        let mut ends = Vec::new();
        for span in &item.meta.spans {
            cumulative += span.1;
            ends.push((cumulative as f64 * scale).round() as i64);
        }
        item.meta.scaled_ends = Some(ends);
    }
    item
}

fn pipeline_rows(items: &[PipelineItem], start_abs: i64, component_base: usize) -> Vec<Row> {
    let items: Vec<PipelineItem> = items.iter().map(scale).collect();
    tools::rows::pipeline_rows(&items, start_abs, component_base)
}

fn block_subphase_rows(log: &Log) -> Vec<[u64; 2]> {
    tools::rows::block_subphase_rows(log)
        .into_iter()
        .map(|(slot, ms)| [slot, ms])
        .collect()
}

fn node_proving_windows(
    logs: &Vec<Log>,
    node_ids: &Vec<String>,
) -> std::collections::BTreeMap<String, Vec<(i64, i64)>> {
    let windows = tools::statistics::node_proving_windows(logs, node_ids);
    (0..windows.len())
        .map(|i| (windows.key_at(i).iter().collect(), windows.value_at(i).clone()))
        .collect()
}

/// The cluster-log slices a block's log window is cut from.
struct LogWindowSource<'a> {
    raw_log: &'a [RawLine],
    starts: &'a [(i64, String)],
}

fn build_block(
    metric: &MetricBlock,
    log: Option<&Log>,
    node_ids: &Vec<String>,
    phase_count: usize,
    t0: i64,
    log_source: &LogWindowSource,
    component_base: usize,
) -> Block {
    let raw_log: Vec<RawLine> = log_source.raw_log.iter().map(RawLine::copy).collect();
    let starts = log_source.starts.to_vec();
    tools::assemble::build_block(
        metric,
        log,
        node_ids,
        phase_count,
        t0,
        &raw_log,
        &starts,
        component_base,
    )
}

fn block_logs(
    log: Option<&Log>,
    raw_log: &[RawLine],
    start_abs: i64,
    metric: &MetricBlock,
    starts: &[(i64, String)],
) -> Vec<LogEntry> {
    let raw_log: Vec<RawLine> = raw_log.iter().map(RawLine::copy).collect();
    let starts = starts.to_vec();
    tools::windows::block_logs(log, &raw_log, start_abs, metric.proving_time_ms, &starts)
}

/// Builds a two-node job log with one phase window per node, for the clean-block window test.
fn job(status: LogStatus, participants: &[&str], window: (i64, i64)) -> Log {
    let mut log = Log::new("job");
    log.status = status;
    log.participants = participants.iter().map(|p| p.to_string()).collect();
    log.nodes = ["node1", "node2"]
        .iter()
        .map(|id| LogNode {
            id: id.to_string(),
            phases: vec![Some(window)],
            items: Vec::new(),
            end: None,
        })
        .collect();
    log
}

#[test]
fn node_windows_count_only_clean_blocks() {
    let node_ids = vec!["node1".to_string(), "node2".to_string()];
    let logs = vec![
        job(LogStatus::Success, &["node1", "node2"], (100, 200)), // clean, counted
        job(LogStatus::Success, &["node1"], (300, 400)),          // node2 missing, skipped
        job(LogStatus::Timeout, &["node1", "node2"], (500, 600)), // not a success, skipped
    ];
    let windows = node_proving_windows(&logs, &node_ids);
    // Only the clean job's window survives for each node, so the rollup that filters telemetry
    // to these windows averages normal proving rather than the degraded or aborted
    // jobs.
    assert_eq!(windows.get("node1"), Some(&vec![(100, 200)]));
    assert_eq!(windows.get("node2"), Some(&vec![(100, 200)]));
}

fn ts(sec: &str) -> Ts {
    Ts::parse(&format!("2026-05-29T00:00:{sec}Z")).unwrap()
}

fn log(id: &str, status: LogStatus, end: &str) -> Log {
    let mut l = Log::new(id);
    l.status = status;
    l.t_end = Some(ts(end));
    l
}

fn success_block(name: &str, completed: &str) -> MetricBlock {
    MetricBlock {
        name: name.to_string(),
        status: MetricStatus::Success,
        block_used_gas: None,
        proving_time_ms: None,
        proof_size: None,
        verification_time_ms: None,
        timestamp_completed: Some(ts(completed)),
        crashed_nodes: Vec::new(),
        crashed_job: None,
    }
}

fn crash_block(name: &str, job: &str) -> MetricBlock {
    MetricBlock {
        name: name.to_string(),
        status: MetricStatus::Crashed,
        block_used_gas: None,
        proving_time_ms: None,
        proof_size: None,
        verification_time_ms: None,
        timestamp_completed: Some(ts("30")),
        crashed_nodes: vec!["node1".to_string()],
        crashed_job: Some(job.to_string()),
    }
}

#[test]
fn clean_runs_match_one_to_one() {
    let logs = vec![
        log("A", LogStatus::Success, "10"),
        log("B", LogStatus::Success, "20"),
    ];
    let blocks = vec![success_block("m0", "10.5"), success_block("m1", "20.5")];
    let matched = match_blocks_to_logs(&logs, &blocks);
    assert_eq!(matched, vec![Some(0), Some(1)]);
}

#[test]
fn success_skips_a_failed_log() {
    let logs = vec![
        log("A", LogStatus::Success, "10"),
        log("B", LogStatus::Failed, "15"),
        log("C", LogStatus::Success, "20"),
    ];
    let blocks = vec![success_block("m0", "11"), success_block("m1", "21")];
    let matched = match_blocks_to_logs(&logs, &blocks);
    assert_eq!(matched, vec![Some(0), Some(2)]);
}

#[test]
fn crash_binds_to_its_log_by_truncated_job_id() {
    // The log carries the truncated job id while the crash reason yielded the full uuid, so the
    // crash binds by prefix and the neighbouring success still binds by timestamp.
    let logs = vec![
        log("b051e0b6\u{2026}", LogStatus::Failed, "30"),
        log("c0ffee00\u{2026}", LogStatus::Success, "20"),
    ];
    let blocks = vec![
        success_block("ok", "20.5"),
        crash_block("boom", "b051e0b6-fc1b-4bf5-8b54-71f5111886a9"),
    ];
    let matched = match_blocks_to_logs(&logs, &blocks);
    assert_eq!(matched, vec![Some(1), Some(0)]);
}

#[test]
fn an_openvm_crash_binds_to_its_full_ere_log_not_the_first() {
    // Every openvm log id shares the leading hex "e" of "ere-", so a leading-hex-run match
    // would bind the first ere- log. Keeping the ere- id whole binds the exact one.
    let logs = vec![
        log(
            "ere-a275aee5c2364484bb429e48dabf6738",
            LogStatus::Failed,
            "10",
        ),
        log(
            "ere-2b70e62f1f704f2ab54adffc7871155e",
            LogStatus::Failed,
            "30",
        ),
    ];
    let blocks = vec![crash_block("boom", "ere-2b70e62f1f704f2ab54adffc7871155e")];
    let matched = match_blocks_to_logs(&logs, &blocks);
    assert_eq!(matched, vec![Some(1)]);
}

#[test]
fn crash_without_a_job_id_stays_unbound() {
    // An unattributed crash carries no job id and must not poach a success log by a near time.
    let logs = vec![log("aaaaaaaa\u{2026}", LogStatus::Success, "20")];
    let mut orphan = crash_block("grpc", "");
    orphan.crashed_job = None;
    let blocks = vec![orphan];
    let matched = match_blocks_to_logs(&logs, &blocks);
    assert_eq!(matched, vec![None]);
}

#[test]
fn block_logs_stop_before_the_next_job() {
    let at = |s: &str| Ts::parse(&format!("2026-01-01T00:00:{s}Z")).unwrap();
    let line = |s: &str, msg: &str| RawLine {
        role: "coordinator".to_string(),
        ts: at(s),
        level: "info".to_string(),
        msg: msg.to_string(),
    };
    // Job A starts at :00. A node end that overshoots to :26 would otherwise pull in job B's
    // :25.5 line, but the next job's :25 start caps the window short of it.
    let mut a = Log::new("aaaaaaaa");
    a.t_start = Some(at("00"));
    a.t_end = Some(at("24"));
    a.nodes = vec![LogNode {
        id: "node1".to_string(),
        phases: Vec::new(),
        items: Vec::new(),
        end: Some(NodeEnd {
            at_ms: at("26").epoch_ms(),
            kind: NodeEndKind::Crashed,
        }),
    }];
    let raw = vec![
        line("23", "A cleanup line"),
        line("25.500000", "B job line"),
    ];
    let starts = vec![(at("25").epoch_us(), "bbbbbbbb".to_string())];
    let out = block_logs(
        Some(&a),
        &raw,
        at("00").epoch_ms(),
        &crash_block("a", "x"),
        &starts,
    );
    let msgs: Vec<&str> = out.iter().map(|e| e.msg.as_str()).collect();
    assert_eq!(msgs, vec!["A cleanup line"]);
}

#[test]
fn block_logs_success_window_reaches_its_terminal_time() {
    let at = |s: &str| Ts::parse(&format!("2026-01-01T00:00:{s}Z")).unwrap();
    let line = |s: &str, msg: &str| RawLine {
        role: "coordinator".to_string(),
        ts: at(s),
        level: "info".to_string(),
        msg: msg.to_string(),
    };
    // A clean job whose terminal time at :24 exceeds a following job's :20 start is not
    // truncated to that start, so its terminal line at :23 stays in the window.
    let mut a = Log::new("aaaaaaaa");
    a.status = LogStatus::Success;
    a.t_start = Some(at("00"));
    a.t_end = Some(at("24"));
    let raw = vec![line("23", "A terminal line")];
    let starts = vec![(at("20").epoch_us(), "bbbbbbbb".to_string())];
    let out = block_logs(
        Some(&a),
        &raw,
        at("00").epoch_ms(),
        &success_block("a", "24"),
        &starts,
    );
    let msgs: Vec<&str> = out.iter().map(|e| e.msg.as_str()).collect();
    assert_eq!(msgs, vec!["A terminal line"]);
}

#[test]
fn block_logs_does_not_panic_on_inverted_window() {
    let at = |s: &str| Ts::parse(&format!("2026-01-01T00:00:{s}Z")).unwrap();
    let line = |s: &str, msg: &str| RawLine {
        role: "coordinator".to_string(),
        ts: at(s),
        level: "info".to_string(),
        msg: msg.to_string(),
    };
    // A coordinator log whose end precedes its start inverts the window bounds. The slice must
    // be floored to empty rather than panic on a backwards range.
    let mut a = Log::new("aaaaaaaa");
    a.status = LogStatus::Success;
    a.t_start = Some(at("10"));
    a.t_end = Some(at("05"));
    let raw = vec![line("07", "A line between the inverted bounds")];
    let out = block_logs(
        Some(&a),
        &raw,
        at("10").epoch_ms(),
        &success_block("a", "05"),
        &[],
    );
    assert!(out.is_empty(), "an inverted window yields no lines");
}

#[test]
fn crashed_offset_is_floored_to_zero_for_a_sub_start_end() {
    let at = |s: &str| Ts::parse(&format!("2026-01-01T00:00:{s}Z")).unwrap();
    // The coordinator started the job at :10 while node1's crash marker reads :05, earlier than
    // the start from cross-host clock skew or a cancel logged before the Started line. The
    // resulting offset must clamp to zero rather than render left of the time origin.
    let mut log = Log::new("job");
    log.status = LogStatus::Failed;
    log.t_start = Some(at("10"));
    log.participants = vec!["node1".to_string()];
    log.nodes = vec![LogNode {
        id: "node1".to_string(),
        phases: vec![None],
        items: Vec::new(),
        end: Some(NodeEnd {
            at_ms: at("05").epoch_ms(),
            kind: NodeEndKind::Crashed,
        }),
    }];
    let node_ids = vec!["node1".to_string()];
    let block = build_block(
        &crash_block("boom", "x"),
        Some(&log),
        &node_ids,
        1,
        at("10").epoch_ms(),
        &LogWindowSource {
            raw_log: &[],
            starts: &[],
        },
        0,
    );
    assert_eq!(block.nodes[0].crashed_ms, Some(0));
    assert_eq!(block.nodes[0].crash_kind.as_deref(), Some("crashed"));
}

/// A metadata-free pipeline item of the given kind and segments.
fn item(
    kind: usize,
    first: (i64, Option<i64>),
    second: Option<(i64, Option<i64>)>,
) -> PipelineItem {
    PipelineItem {
        kind,
        first,
        second,
        meta: PipelineItemMeta::default(),
    }
}

#[test]
fn pipeline_items_rebase_and_encode_by_arity() {
    let at = |s: &str| Ts::parse(&format!("2026-01-01T00:00:{s}Z")).unwrap();
    let start = at("10").epoch_ms();
    // One node holding the four item states, a lone segment, a full witness and compute pair,
    // a witness whose compute dangles, and a bare dangling open.
    let mut log = Log::new("job");
    log.status = LogStatus::Success;
    log.t_start = Some(at("10"));
    log.participants = vec!["node1".to_string()];
    log.nodes = vec![LogNode {
        id: "node1".to_string(),
        phases: vec![None],
        items: vec![
            item(0, (start + 100, Some(start + 300)), None),
            item(
                7,
                (start + 400, Some(start + 600)),
                Some((start + 700, Some(start + 900))),
            ),
            item(
                2,
                (start + 1000, Some(start + 1100)),
                Some((start + 1200, None)),
            ),
            item(8, (start + 1300, None), None),
        ],
        end: None,
    }];
    let node_ids = vec!["node1".to_string()];
    let block = build_block(
        &success_block("a", "20"),
        Some(&log),
        &node_ids,
        1,
        start,
        &LogWindowSource {
            raw_log: &[],
            starts: &[],
        },
        0,
    );
    // Each state encodes by arity, the dangling ends carried by truncation.
    assert_eq!(
        wire(&block.nodes[0].pipeline),
        json(r#"[ [0, 100, 200], [7, 400, 200, 700, 200], [2, 1000, 100, 1200], [8, 1300] ]"#)
    );
}

#[test]
fn pipeline_rows_sort_by_start_then_kind() {
    // Items arrive in close order rather than start order, and two rows share a start.
    let items = vec![
        item(5, (100, Some(150)), None),
        item(3, (100, Some(120)), None),
        item(0, (50, Some(90)), None),
    ];
    let rows = pipeline_rows(&items, 0, 6);
    assert_eq!(
        wire(&rows),
        json(r#"[[0, 50, 40], [3, 100, 20], [5, 100, 50]]"#)
    );
}

#[test]
fn pipeline_metadata_encodes_as_a_trailing_object() {
    // The id and the heavy side markers ride their row as one trailing object, while the
    // metadata-free sibling stays a pure integer row.
    let items = vec![
        PipelineItem {
            meta: PipelineItemMeta {
                id: Some(12),
                ..Default::default()
            },
            ..item(0, (100, Some(300)), None)
        },
        PipelineItem {
            meta: PipelineItemMeta {
                id: Some(3),
                cpu_heavy: Some(0),
                gpu_heavy: Some(1),
                ..Default::default()
            },
            ..item(1, (400, Some(600)), Some((700, Some(900))))
        },
        item(2, (1000, Some(1100)), None),
    ];
    let rows = pipeline_rows(&items, 0, 6);
    assert_eq!(
        wire(&rows),
        json(r#"[ [0, 100, 200, { "id": 12 }], [1, 400, 200, 700, 200, { "id": 3, "cpu_heavy": 0, "gpu_heavy": 1 }], [2, 1000, 100] ]"#)
    );
}

#[test]
fn pipeline_rows_emit_the_sub_step_components_in_place_of_the_item() {
    // A segment item and an internal item each carry a STARK sub-step breakdown, so each emits
    // one component row per sub-step in place of its own row, the component kind the base plus
    // the sub-step slot, packed contiguously across the item's spans window from its start. The
    // segment breakdown fits with a trailing gap, while the internal's merged window is
    // narrower than its sum so its components scale to fill it. Each component carries
    // the parent group, and the segment components its id.
    let items = vec![
        PipelineItem {
            meta: PipelineItemMeta {
                id: Some(4),
                spans: pairs(vec![[0, 5], [1, 620], [2, 240]]),
                spans_window: Some((100, 1000)),
                ..Default::default()
            },
            ..item(2, (100, Some(1000)), None)
        },
        PipelineItem {
            meta: PipelineItemMeta {
                spans: pairs(vec![[7, 10], [8, 300]]),
                spans_window: Some((2000, 2100)),
                ..Default::default()
            },
            ..item(4, (2000, Some(2050)), None)
        },
    ];
    let rows = pipeline_rows(&items, 0, 6);
    assert_eq!(
        wire(&rows),
        json(r#"[ [6, 100, 5, { "id": 4, "group": 0 }], [7, 105, 620, { "id": 4, "group": 0 }], [8, 725, 240, { "id": 4, "group": 0 }], [13, 2000, 3, { "group": 1 }], [14, 2003, 97, { "group": 1 }] ]"#)
    );
    // The scaled internal components fill their 100ms window exactly and never overrun it.
    assert_eq!((2003 - 2000) + 97, 100);
}

#[test]
fn block_subphase_rows_sum_the_item_spans_by_slot() {
    // The block breakdown sums each template slot across every item that carries it, the app
    // segment items filling the segment slots and the leaf and internal items the recursion
    // slots, so a slot present on two items reads their sum and an absent slot yields no row.
    let mut log = Log::new("job");
    log.nodes = vec![
        LogNode {
            id: "node1".to_string(),
            phases: Vec::new(),
            items: vec![
                PipelineItem {
                    meta: PipelineItemMeta {
                        spans: pairs(vec![[0, 100], [1, 620]]),
                        ..Default::default()
                    },
                    ..item(2, (0, Some(1)), None)
                },
                PipelineItem {
                    meta: PipelineItemMeta {
                        spans: pairs(vec![[8, 350]]),
                        ..Default::default()
                    },
                    ..item(4, (0, Some(1)), None)
                },
            ],
            end: None,
        },
        LogNode {
            id: "node2".to_string(),
            phases: Vec::new(),
            items: vec![PipelineItem {
                meta: PipelineItemMeta {
                    spans: pairs(vec![[1, 380], [8, 116]]),
                    ..Default::default()
                },
                ..item(2, (0, Some(1)), None)
            }],
            end: None,
        },
    ];
    assert_eq!(
        block_subphase_rows(&log),
        vec![[0, 100], [1, 1000], [8, 466]]
    );
    assert!(any_log_spans(&vec![log]));

    // A log whose items carry no spans yields no rows and does not trigger the template.
    let bare = Log::new("bare");
    assert!(block_subphase_rows(&bare).is_empty());
    assert!(!any_log_spans(&vec![bare]));
}


#[test]
fn benchmark_name_drops_a_trailing_timestamp() {
    // The several timestamped runs of one benchmark share the name with the timestamp dropped,
    // so a run directory without a benchmark.json still merges with its siblings.
    assert_eq!(benchmark_name("eest-60m-20260602-000001"), "eest-60m");
    assert_eq!(benchmark_name("eest-60m-20260602-000002"), "eest-60m");
}

#[test]
fn benchmark_name_keeps_a_run_id_without_a_timestamp() {
    // A run id lacking the -YYYYMMDD-HHMMSS suffix is returned unchanged, so the fixture
    // basename and a hand-named run keep their full id as the name.
    assert_eq!(benchmark_name("fixture"), "fixture");
    assert_eq!(benchmark_name("eest-60m-20260602"), "eest-60m-20260602");
    assert_eq!(
        benchmark_name("eest-60m-2026060-000001"),
        "eest-60m-2026060-000001"
    );
}
