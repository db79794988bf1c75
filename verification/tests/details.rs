//! Edge cases of the readers, and what holds of every read and merge, on concrete values.

use std::collections::BTreeSet;

use tools::assemble::{assemble, can_pack, Sources};
use tools::catalog::{metric_at, present_metrics, METRIC_COUNT};
use tools::error::ParseError;
use tools::input::{sort_files, worker_files_sorted, WORKER_LOG_RE};
use tools::lines::{load_raw_lines, scrub, RawLine};
use tools::log::{
    job_prefix, Log, LogNode, LogStatus, NodeEndKind, PipelineItem, PipelineItemMeta, Ts,
};
use tools::merge::merge_run;
use tools::metrics::{
    classify_crash, load_hardware, load_metrics, parse_metric_json, sort_blocks, unique_nodes,
    MetricBlock, MetricStatus, MetricsMeta, RawCrashed, RawHardware, RawMetric, RawProving,
};
use tools::openvm::phases::{openvm_component_pipeline, openvm_pipeline, subphase_template};
use tools::paths::{extension, file_name, file_stem, sorted_paths, with_added_extension};
use tools::pattern::{Groups, Pattern, Rules};
use tools::rows::pipeline_rows;
use tools::run::{run_id_of, run_name};
use tools::schema::Benchmark;
use tools::sort::sort_places;
use tools::statistics::{proving_figures, proving_gpus, proving_samples, within_windows};
use tools::telemetry::{axis_width, build_telemetry, tick_of, NodeSamples, Sample};
use tools::text_map::{TextMap, TextSet};
use tools::zisk::coordinator::{parse, Coordinator, Section};
use tools::zisk::kinds::{classify, Side};
use tools::zisk::worker::{parse_agg, parse_stages};
use tools::zkvm::ParsedLogs;

fn chars(text: &str) -> Vec<char> {
    text.chars().collect()
}

fn groups(texts: &[&str]) -> Groups {
    Groups {
        groups: texts.iter().map(|t| Some(t.to_string())).collect(),
    }
}

#[test]
fn a_short_dmon_date_is_refused_with_the_reading() {
    let err = Ts::from_dmon("2026", "09:51:25").err().unwrap();
    let ParseError::Timestamp { value, reason } = err else {
        panic!("expected Timestamp, got {err:?}");
    };
    assert_eq!(value, "2026 09:51:25");
    assert_eq!(reason, "dmon date is shorter than YYYYMMDD");
}

#[test]
fn a_timestamp_error_carries_the_value_and_the_reason() {
    let err = Ts::parse("not a timestamp").err().unwrap();
    let ParseError::Timestamp { value, reason } = err else {
        panic!("expected Timestamp, got {err:?}");
    };
    assert_eq!(value, "not a timestamp");
    assert!(!reason.is_empty());
}

#[test]
fn epoch_units_truncate_toward_zero() {
    let before = Ts::parse("1969-12-31T23:59:59.998500Z").unwrap();
    assert_eq!(before.epoch_us(), -1500);
    assert_eq!(before.epoch_ms(), -1);
    let after = Ts::parse("1970-01-01T00:00:00.001999Z").unwrap();
    assert_eq!(after.epoch_us(), 1999);
    assert_eq!(after.epoch_ms(), 1);
}

#[test]
fn an_edge_proof_id_is_its_own_job_key() {
    assert_eq!(job_prefix("ere-6f8d9d31"), "ere-6f8d9d31");
    assert_eq!(job_prefix("eread"), "e");
    assert_eq!(job_prefix("xyz"), "");
}

#[test]
fn a_refused_pattern_matches_nothing() {
    let broken = Pattern::new("(");
    assert!(broken.captures("(").is_none());
    assert!(broken.captures_all("((").is_empty());
    assert_eq!(broken.replace_all("a(b", "x"), "a(b");
}

#[test]
fn the_first_matching_rule_wins() {
    let rules = Rules::new().with("b+").with("(a+)(c)?");
    let (rule, found) = rules.first_match("xaay").unwrap();
    assert_eq!(rule, 1);
    assert_eq!(found.text(0), "aa");
    assert_eq!(found.text(1), "aa");
    assert!(!found.took_part(2));
    assert_eq!(found.text(2), "");
    assert_eq!(rules.first_match("aab").unwrap().0, 0);
    assert!(rules.first_match("xyz").is_none());
}

#[test]
fn a_continuation_line_joins_the_record_before_it() {
    let text = "panicked before any stamp\n\
                2026-06-03T07:31:16.3Z zisk_worker ERROR: panicked at zkevm-gpu-beast-01\n\
                \n   at 10.1.2.3:80  \n\
                2026-06-03T07:31:17Z zisk_worker INFO: next\r\n";
    let mut out: Vec<RawLine> = Vec::new();
    tools::lines::parse_file(text, "worker3", &mut out);
    assert_eq!(out.len(), 2);
    assert_eq!(out[0].role, "worker3");
    assert_eq!(out[0].level, "error");
    assert_eq!(out[0].msg, "panicked at gpu-node-01\n   at 10.0.0.1:80");
    assert_eq!(out[1].msg, "next");
}

#[test]
fn lines_of_different_roles_interleave_in_time_order() {
    let coordinator = "\x1b[2m2026-06-03T07:31:16.000002Z\x1b[0m INFO: second\n\
                       2026-06-03T07:31:16.000004Z INFO: fourth\n"
        .to_string();
    let worker = tools::input::WorkerFile {
        digit: 2,
        name: "worker-2-gpu1.log".to_string(),
        text: "2026-06-03T07:31:16.000003Z a WARN: third\n2026-06-03T07:31:16.000001Z a TRACE: first\n"
            .to_string(),
    };
    let lines = load_raw_lines(&Some(coordinator), &vec![worker]);
    let seen: Vec<(&str, &str, &str)> = lines
        .iter()
        .map(|l| (l.role.as_str(), l.level.as_str(), l.msg.as_str()))
        .collect();
    assert_eq!(
        seen,
        vec![
            ("worker2-gpu1", "trace", "first"),
            ("coordinator", "info", "second"),
            ("worker2-gpu1", "warn", "third"),
            ("coordinator", "info", "fourth"),
        ]
    );
}

#[test]
fn a_scrubbed_message_never_names_a_host() {
    let scrubbed = scrub("zkevm-zkevm-gpu-beast-gpu-beast zkevm-gpu-beastzkevm-gpu-beast");
    assert!(!scrubbed.contains("zkevm-gpu-beast"));
    assert_eq!(scrubbed, "zkevm-gpu-node-gpu-beast gpu-nodegpu-node");
}

#[test]
fn worker_files_sort_by_digit_and_drop_the_rest() {
    let names: Vec<String> = [
        "worker-10.log",
        "worker-2-gpu1.log",
        "worker-2-dmon.log",
        "coordinator.log",
        "worker-2-gpu0.log",
        "worker-99999999999.log",
        "worker-1.log",
    ]
    .iter()
    .map(|n| n.to_string())
    .collect();
    let files = worker_files_sorted(&names, &Pattern::new(WORKER_LOG_RE));
    let expected: Vec<(u32, String)> = [
        (1, "worker-1.log"),
        (2, "worker-2-gpu1.log"),
        (2, "worker-2-gpu0.log"),
        (10, "worker-10.log"),
    ]
    .iter()
    .map(|(d, n)| (*d, n.to_string()))
    .collect();
    assert_eq!(files, expected);
    assert_eq!(sort_files(&expected), expected, "a sorted list stays as it is");
}

#[test]
fn equal_keys_keep_their_places() {
    let keys = vec![(3, 0), (1, 5), (3, 0), (1, 4), (2, 0)];
    assert_eq!(sort_places(&keys), vec![3, 1, 4, 0, 2]);
    assert!(sort_places(&Vec::new()).is_empty());
}

#[test]
fn a_text_map_walks_its_keys_in_order() {
    let mut map: TextMap<u64> = TextMap::new();
    for (key, value) in [("node10", 1), ("node2", 2), ("node1", 3), ("node2", 4)] {
        map.insert(chars(key), value);
    }
    let seen: Vec<(String, u64)> = (0..map.len())
        .map(|i| (map.key_at(i).iter().collect(), *map.value_at(i)))
        .collect();
    let expected: Vec<(String, u64)> = [("node1", 3), ("node10", 1), ("node2", 4)]
        .iter()
        .map(|(k, v)| (k.to_string(), *v))
        .collect();
    assert_eq!(seen, expected);
    assert_eq!(map.get(&chars("node2")), Some(&4));
    assert_eq!(map.remove(&chars("node2")), Some(4));
    assert_eq!(map.get(&chars("node2")), None);

    let mut set = TextSet::new();
    set.extend(&vec!["b".to_string(), "a".to_string(), "b".to_string()]);
    assert_eq!(set.to_texts(), vec!["a", "b"]);
}

#[test]
fn marker_tokens_resolve_by_stem_and_instance() {
    let hit = classify(&chars("GENERATING_WC_12"), false).unwrap();
    assert_eq!((hit.kind, hit.side), (2, Side::Witness));
    assert_eq!(hit.x.unwrap().iter().collect::<String>(), "12");
    // Outside a contribution the shared witness stem names the proof kind.
    assert_eq!(classify(&chars("GENERATING_WC_12"), true).unwrap().kind, 7);
    // A stem that ends in a digit is taken whole.
    let hit = classify(&chars("GEN_RECURSIVE_PROOF_Recursive1"), true).unwrap();
    assert_eq!((hit.kind, hit.side), (8, Side::Compute));
    assert!(hit.x.is_none());
    assert!(classify(&chars("GENERATING_WC"), false).is_none());
    assert!(classify(&chars("PLAN_3"), false).is_none());
    assert!(classify(&chars("UNLISTED_1"), false).is_none());
}

#[test]
fn a_later_completion_does_not_move_the_aggregation_end() {
    let done = |time: &str| {
        format!("{time} zisk_worker::worker_node INFO: Aggregation task completed for JobId(efd42874\u{2026})\n")
    };
    let mut agg = TextMap::new();
    let log = done("2026-05-29T09:53:16Z") + &done("2026-05-29T09:53:20Z");
    parse_agg(&log, &mut agg).unwrap();
    parse_agg(&done("2026-05-29T09:53:25Z"), &mut agg).unwrap();
    let bounds = agg.get(&chars("efd42874")).unwrap();
    assert_eq!(
        bounds.t_end.map(Ts::epoch_ms),
        Some(Ts::parse("2026-05-29T09:53:16Z").unwrap().epoch_ms())
    );
}

#[test]
fn a_later_log_does_not_move_a_stage() {
    let begin = |time: &str| {
        format!("{time} zisk_worker::worker_node INFO: Starting Partial Contribution for efd42874-b32d\n")
    };
    let mut stages = TextMap::new();
    parse_stages(&begin("2026-06-02T06:36:20Z"), "node4", &mut stages).unwrap();
    parse_stages(&begin("2026-06-02T06:40:00Z"), "node4", &mut stages).unwrap();
    let nodes = stages.get(&chars("efd42874")).unwrap();
    let own = nodes.get(&chars("node4")).unwrap();
    assert_eq!(
        own.contribution_start.map(Ts::epoch_ms),
        Some(Ts::parse("2026-06-02T06:36:20Z").unwrap().epoch_ms())
    );
    let err = parse_stages(
        &begin("2026-06-02TXX:40:00Z"),
        "node4",
        &mut stages,
    );
    assert!(matches!(err, Err(ParseError::Timestamp { .. })));
}

#[test]
fn a_failure_never_demotes_a_success() {
    let finished = "2026-05-29T09:53:16.678680Z INFO: [Job] Finished JobId(JOBA) successfully \u{2714} Duration: 7.342s (3.216s+3.822s+0.305s) Steps: 304.964.424 Instances: 174 Capacity: 40CU\n";
    let failed = "2026-05-29T09:54:00Z ERROR: Failed job JobId(JOBA)\n";
    let jobs = parse(&format!("{finished}{failed}")).unwrap();
    assert_eq!(jobs.len(), 1);
    assert_eq!(jobs[0].status, LogStatus::Success);
    assert_eq!(
        jobs[0].t_end.map(Ts::epoch_ms),
        Some(Ts::parse("2026-05-29T09:53:16.678680Z").unwrap().epoch_ms())
    );
    let jobs = parse(&format!("{failed}{finished}")).unwrap();
    assert_eq!(jobs[0].status, LogStatus::Success);
}

#[test]
fn dropped_and_cancelled_workers_are_kept_with_their_moments() {
    let text = "\
2026-05-29T09:53:20Z ERROR: Worker WorkerId(node2) connection dropped while computing for job JobId(JOBA)
2026-05-29T09:53:21Z INFO: Worker WorkerId(node1) acknowledged cancellation of job JobId(JOBA)
";
    let jobs = parse(text).unwrap();
    let ends: Vec<(&str, i64, NodeEndKind)> = jobs[0]
        .node_ends
        .iter()
        .map(|(worker, ts, kind)| (worker.as_str(), ts.epoch_ms() % 60_000, *kind))
        .collect();
    assert_eq!(
        ends,
        vec![
            ("node2", 20_000, NodeEndKind::Crashed),
            ("node1", 21_000, NodeEndKind::Cancelled),
        ]
    );
}

#[test]
fn captured_groups_reach_the_job_they_name() {
    let mut state = Coordinator { jobs: Vec::new() };
    let found = Some((1, groups(&["whole", "node4", "JOBA"])));
    state.apply(Section::Phase1, found, "line").unwrap();
    let found = Some((0, groups(&["whole", "ts", "JOBB"])));
    state.apply(Section::Phase2, found, "line").unwrap();
    assert_eq!(state.jobs.len(), 2);
    assert_eq!(state.jobs[0].id, "JOBA");
    assert_eq!(state.jobs[0].p1, vec!["node4"]);
    assert_eq!(state.jobs[1].id, "JOBB");
    assert!(state.jobs[1].p2.is_empty());
    let err = state.apply(Section::New, None, "  odd line ").unwrap_err();
    assert!(matches!(err, ParseError::UnrecognizedCoordinatorLine(line) if line == "odd line"));
}

#[test]
fn crash_reasons_are_classified_without_regard_to_case() {
    assert_eq!(classify_crash("Job TIMED OUT after 60s"), MetricStatus::Timeout);
    assert_eq!(classify_crash("gRPC Timeout"), MetricStatus::Timeout);
    assert_eq!(classify_crash("connection dropped"), MetricStatus::Crashed);
    assert_eq!(MetricStatus::Timeout.as_str(), "timeout");
    assert_eq!(MetricStatus::Crashed.as_str(), "crashed");
    assert_eq!(MetricStatus::Success.as_str(), "success");
    assert_eq!(NodeEndKind::Crashed.as_str(), "crashed");
    assert_eq!(NodeEndKind::Cancelled.as_str(), "cancelled");
}

#[test]
fn blamed_nodes_come_once_in_first_seen_order() {
    let all = vec![
        groups(&["WorkerId(node3)", "node3"]),
        groups(&["WorkerId(node1)", "node1"]),
        groups(&["WorkerId(node3)", "node3"]),
    ];
    assert_eq!(unique_nodes(&all), vec!["node3", "node1"]);

    let raw = RawMetric {
        name: None,
        timestamp_completed: None,
        metadata: None,
        proving: Some(RawProving {
            success: None,
            crashed: Some(RawCrashed {
                reason: Some(
                    "job b051e0b6-fc1b-4bf5-8b54-71f5111886a9: WorkerId(node2) and WorkerId(node1), WorkerId(node2)"
                        .to_string(),
                ),
            }),
        }),
    };
    let block = parse_metric_json("stem", raw).unwrap();
    assert_eq!(block.name, "stem");
    assert_eq!(block.crashed_nodes, vec!["node2", "node1"]);
    assert_eq!(
        block.crashed_job.as_deref(),
        Some("b051e0b6-fc1b-4bf5-8b54-71f5111886a9")
    );
}

#[test]
fn metric_files_are_read_in_path_order_and_name_the_guest() {
    let paths: Vec<String> = [
        "hardware.json",
        "reth-v1.2/zisk-v0.18.0/b.json",
        "reth-v1.2/zisk-v0.18.0/a.json",
        "reth-v1.2/zisk-v0.18.0/notes.txt",
        "reth/zisk/z.json",
        "shallow/a.json",
    ]
    .iter()
    .map(|p| p.to_string())
    .collect();
    let plan = load_metrics(&paths);
    assert_eq!(
        plan.files,
        vec![
            "reth/zisk/z.json",
            "reth-v1.2/zisk-v0.18.0/a.json",
            "reth-v1.2/zisk-v0.18.0/b.json",
        ],
        "a component comes before its own continuations"
    );
    assert_eq!(plan.meta.guest.as_deref(), Some("reth"));
    assert_eq!(plan.meta.guest_version, None);
    assert_eq!(plan.meta.version.as_deref(), Some("zisk"));
    assert_eq!(
        sorted_paths(&vec!["a-b/c".to_string(), "a/d".to_string()]),
        vec!["a/d", "a-b/c"]
    );
}

#[test]
fn path_names_follow_their_components() {
    assert_eq!(file_name("runs/eest-60m/").as_deref(), Some("eest-60m"));
    assert_eq!(file_name("runs/eest-60m/.").as_deref(), Some("eest-60m"));
    assert_eq!(file_name("runs/.."), None);
    assert_eq!(file_name("/"), None);
    assert_eq!(file_name("."), None);
    assert_eq!(file_name(""), None);
    assert_eq!(extension("a/b.json").as_deref(), Some("json"));
    assert_eq!(extension("a/.json"), None);
    assert_eq!(extension("a.d/b"), None);
    assert_eq!(file_stem("a/b.tar.json"), "b.tar");
    assert_eq!(with_added_extension("a/b.json/", "zstd"), "a/b.json.zstd");
    assert_eq!(with_added_extension("..", "zstd"), "..");
    assert_eq!(run_id_of("runs/eest-60m/"), "eest-60m");
    assert_eq!(run_id_of("/"), "");
    assert_eq!(run_name("/"), "run");
    assert_eq!(run_name("runs/x"), "x");
}

fn metric(name: &str, status: MetricStatus, ms: Option<u64>, gas: Option<u64>) -> MetricBlock {
    MetricBlock {
        name: name.to_string(),
        status,
        block_used_gas: gas,
        proving_time_ms: ms,
        proof_size: None,
        verification_time_ms: None,
        timestamp_completed: None,
        crashed_nodes: Vec::new(),
        crashed_job: None,
    }
}

#[test]
fn results_without_a_completion_come_first() {
    let mut late = metric("late", MetricStatus::Success, None, None);
    late.timestamp_completed = Some(Ts::parse("2026-05-29T00:00:02Z").unwrap());
    let mut early = metric("early", MetricStatus::Success, None, None);
    early.timestamp_completed = Some(Ts::parse("2026-05-29T00:00:01Z").unwrap());
    let none = metric("none", MetricStatus::Crashed, None, None);
    let sorted = sort_blocks(&vec![late, early, none]);
    let names: Vec<&str> = sorted.iter().map(|b| b.name.as_str()).collect();
    assert_eq!(names, vec!["none", "early", "late"]);
}

#[test]
fn proving_figures_count_the_successes() {
    let blocks = vec![
        metric("a", MetricStatus::Success, Some(300), Some(10)),
        metric("b", MetricStatus::Crashed, Some(1), Some(1000)),
        metric("c", MetricStatus::Success, Some(100), None),
        metric("d", MetricStatus::Success, None, Some(5)),
    ];
    let figures = proving_figures(&blocks);
    assert_eq!(figures.times_ms, vec![100, 300]);
    assert_eq!(figures.total_ms, 400);
    assert_eq!(figures.total_gas, 15);
}

fn sample(time: &str, gpu: u32) -> Sample {
    Sample {
        t: Ts::parse(time).unwrap(),
        gpu,
    }
}

#[test]
fn samples_under_load_are_those_inside_a_window() {
    let samples = vec![
        sample("2026-05-29T10:00:00Z", 0),
        sample("2026-05-29T10:00:05Z", 3),
        sample("2026-05-29T10:00:06Z", 1),
        sample("2026-05-29T10:00:30Z", 2),
    ];
    let start = Ts::parse("2026-05-29T10:00:05Z").unwrap().epoch_ms();
    let windows = vec![(start, start + 1000)];
    let places = proving_samples(&samples, &windows);
    assert_eq!(places, vec![1, 2], "both ends of a window are inside");
    assert_eq!(proving_gpus(&samples, &places), 2);
    assert_eq!(proving_gpus(&samples, &Vec::new()), 1);
    assert!(!within_windows(start - 1, &windows));
}

#[test]
fn telemetry_aligns_on_the_shared_axis() {
    let t0 = Ts::parse("2026-05-29T10:00:00Z").unwrap().epoch_ms();
    assert_eq!(tick_of(t0 + 499, t0), 0);
    assert_eq!(tick_of(t0 + 500, t0), 1);
    assert_eq!(tick_of(t0 - 5000, t0), 0);
    let nodes = vec![
        NodeSamples {
            digit: 1,
            samples: vec![
                sample("2026-05-29T10:00:00Z", 7),
                sample("2026-05-29T10:00:02Z", 4),
                sample("2026-05-29T10:00:02.1Z", 4),
            ],
        },
        NodeSamples {
            digit: 2,
            samples: vec![sample("2026-05-29T10:00:03Z", 0)],
        },
    ];
    let width = axis_width(&nodes, t0) as usize;
    assert_eq!(width, 4);
    let grids = build_telemetry(&nodes, t0, width);
    assert_eq!(grids[0].gpus, vec![4, 7]);
    assert_eq!(
        grids[0].cells,
        vec![
            vec![None, None, Some(2), None],
            vec![Some(0), None, None, None],
        ],
        "the last sample of a second wins"
    );
    assert_eq!(grids[1].cells, vec![vec![None, None, None, Some(0)]]);
    assert_eq!(axis_width(&Vec::new(), t0), 0);
}

#[test]
fn the_metric_catalog_keeps_its_order() {
    let present: Vec<bool> = (0..METRIC_COUNT).map(|i| i % 3 == 0).collect();
    let keys: Vec<&str> = present_metrics(&present).iter().map(|m| m.key).collect();
    assert_eq!(keys, vec!["pwr", "rxpci", "pclk", "fb"]);
    assert_eq!(metric_at(1).max, Some(100));
    assert!(metric_at(4).one_decimal && !metric_at(5).one_decimal);
    let all: BTreeSet<&str> = (0..METRIC_COUNT).map(|i| metric_at(i).key).collect();
    assert_eq!(all.len(), METRIC_COUNT);
}

#[test]
fn the_openvm_components_mirror_the_sub_phases() {
    let kinds = openvm_pipeline();
    assert_eq!(kinds.len(), 6);
    let preset: BTreeSet<String> = tools::openvm::openvm_phases()
        .into_iter()
        .map(|phase| phase.name)
        .collect();
    assert!(kinds.iter().all(|kind| preset.contains(&kind.phase)));
    let components = openvm_component_pipeline();
    let subphases = subphase_template();
    assert_eq!(components.len(), 14);
    for (component, subphase) in components.iter().zip(&subphases) {
        assert_eq!(component.name, subphase.name);
        assert_eq!(component.label, subphase.label);
        assert_eq!(component.phase, subphase.phase);
        assert!(!component.paired);
    }
    assert_eq!(subphases[6].name, "openings");
    assert_eq!(subphases[6].phase, "segment");
    assert_eq!(subphases[7].name, "execute_preflight");
    assert_eq!(subphases[7].phase, "recursion");
}

fn spanned(window: Option<(i64, i64)>, ends: Option<Vec<i64>>) -> PipelineItem {
    PipelineItem {
        kind: 2,
        first: (100, Some(200)),
        second: None,
        meta: PipelineItemMeta {
            spans: vec![(0, 60), (3, 60)],
            spans_window: window,
            scaled_ends: ends,
            ..Default::default()
        },
    }
}

fn log_of(item: PipelineItem) -> Log {
    let mut log = Log::new("job");
    log.nodes = vec![LogNode {
        id: "node1".to_string(),
        phases: Vec::new(),
        items: vec![item],
        end: None,
    }];
    log
}

#[test]
fn a_breakdown_needs_a_window_and_scaled_ends_where_it_overruns() {
    assert!(!can_pack(&vec![log_of(spanned(None, None))]));
    assert!(!can_pack(&vec![log_of(spanned(Some((100, 200)), None))]));
    assert!(!can_pack(&vec![log_of(spanned(Some((100, 200)), Some(vec![50])))]));
    // The ends never fall and stay inside the window.
    assert!(!can_pack(&vec![log_of(spanned(Some((100, 200)), Some(vec![50, 40])))]));
    assert!(!can_pack(&vec![log_of(spanned(Some((100, 200)), Some(vec![50, 101])))]));
    assert!(!can_pack(&vec![log_of(spanned(Some((100, 200)), Some(vec![-1, 100])))]));
    assert!(can_pack(&vec![log_of(spanned(Some((100, 200)), Some(vec![50, 100])))]));
    assert!(can_pack(&vec![log_of(spanned(Some((100, 220)), None))]));

    // The components touch, scaled or not.
    let rows = pipeline_rows(&vec![spanned(Some((100, 200)), Some(vec![50, 100]))], 100, 6);
    let cells: Vec<&[i64]> = rows.iter().map(|r| r.cells.as_slice()).collect();
    assert_eq!(cells, vec![&[6, 0, 50][..], &[9, 50, 50][..]]);
    let rows = pipeline_rows(&vec![spanned(Some((100, 220)), None)], 100, 6);
    let cells: Vec<&[i64]> = rows.iter().map(|r| r.cells.as_slice()).collect();
    assert_eq!(cells, vec![&[6, 0, 60][..], &[9, 60, 60][..]]);
}

fn document(run_id: &str, cpu: &str, guest: &str) -> Benchmark<u8, u8> {
    let parsed = ParsedLogs {
        name: "zisk",
        phases: tools::zisk::zisk_phases(),
        pipeline: tools::zisk::kinds::zisk_pipeline(),
        pipeline_components: Vec::new(),
        subphases: Vec::new(),
        logs: vec![log_of(spanned(Some((100, 220)), None))],
    };
    let sources = Sources {
        blocks: vec![metric("a", MetricStatus::Crashed, None, None)],
        meta: MetricsMeta::from_dirs(Some(guest.to_string()), None),
        hardware: load_hardware(Some(RawHardware {
            cpu_model: Some(cpu.to_string()),
            total_ram_gib: None,
            gpus: Vec::new(),
        })),
        samples: Vec::new(),
        raw_log: Vec::new(),
    };
    let name = "bench".to_string();
    assemble(parsed, sources, run_id, name, String::new(), 7, 9)
}

#[test]
fn a_patch_names_the_field_that_differs() {
    let mut existing = document("run", "cpu", "guest-v1");
    for (incoming, field) in [
        (document("run", "other", "guest-v2"), "hardware"),
        (document("run", "cpu", "guest-v2"), "software"),
    ] {
        let err = merge_run(&mut existing, incoming).unwrap_err();
        assert!(matches!(err, ParseError::PatchMismatch(name) if name == field));
        assert_eq!(existing.runs.len(), 1, "a refused patch changes nothing");
    }
}

#[test]
fn run_ids_stay_distinct_over_many_patches() {
    let mut existing = document("run", "cpu", "guest");
    for _ in 0..11 {
        assert_eq!(merge_run(&mut existing, document("run", "cpu", "guest")).unwrap(), 1);
    }
    let ids: BTreeSet<&str> = existing.runs.iter().map(|r| r.id.as_str()).collect();
    assert_eq!(ids.len(), 12);
    assert_eq!(existing.runs[11].id, "run-patch-11");
    assert!(existing.runs.iter().all(|r| r.statistics == 7 && r.telemetry == 9));
    assert_eq!(existing.runs[0].failure_count, 1);
}
