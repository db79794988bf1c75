//! Whole runs, from the logs and metrics of a ten-proof zisk cluster to the merged document.

use tools::assemble::{assemble, can_pack, node_axis, run_epoch, Sources};
use tools::backend::{detect_backend, Backend};
use tools::error::{ParseError, Result};
use tools::input::WorkerFile;
use tools::lines::load_raw_lines;
use tools::log::LogStatus;
use tools::merge::{assert_unique_block_names, merge_run};
use tools::metrics::{
    load_hardware, load_metrics, parse_metric_json, sort_blocks, MetricBlock, RawMetadata,
    RawMetric, RawProving, RawSuccess,
};
use tools::output::{lean, write_block_logs};
use tools::run::{block_total, run_name, run_one, ParseBenchmarkArgs, Persist};
use tools::schema::{Benchmark, PipelineStep, SubPhase};
use tools::zisk::coordinator;

type Document = Benchmark<(), ()>;

/// The run holds ten successful proofs for the consecutive blocks 25192300 through 25192309.
const EXPECTED_PROOFS: usize = 10;

/// The instant a number of milliseconds into the run.
fn at(ms: u64) -> String {
    let (minutes, rest) = (ms / 60_000, ms % 60_000);
    format!(
        "2026-05-29T09:{:02}:{:02}.{:03}000Z",
        51 + minutes,
        rest / 1000,
        rest % 1000
    )
}

/// The short id of a proving job.
fn job(k: usize) -> String {
    format!("{:08x}", 0xefd4_2870 + k)
}

/// The moment a proving job starts, in milliseconds into the run.
fn start(k: usize) -> u64 {
    (k as u64) * 10_000
}

fn coordinator_log() -> String {
    let mut log = format!("{} INFO: zisk-coordinator listening on 0.0.0.0:7000\n", at(0));
    for k in 0..EXPECTED_PROOFS {
        let (id, t) = (format!("JobId({}\u{2026})", job(k)), start(k));
        let mut line = |ms: u64, text: String| log.push_str(&format!("{} INFO: {text}\n", at(ms)));
        line(t, format!("[Job] Started {id} successfully Capacity: 40CU Workers: 4"));
        line(t + 40, format!("Job {id} using inline input data (8549632 bytes)"));
        line(t + 60, format!("[Phase1] Started with 4 workers for {id}"));
        for n in 1..=4 {
            line(t + 2900 + n, format!("[Phase1] WorkerId(node{n}) finished phase 1 for {id} ({n}/4 workers done, Phase: 2.947s, Delay: 0.057s, Witness: 2.225s, Asm Execution: 0.636s at 479.19495 MHz)"));
        }
        line(t + 3200, format!("[Phase2] Started with 4 workers for {id}"));
        for n in 1..=4 {
            line(t + 6400 + n, format!("[Phase2] WorkerId(node{n}) finished phase 2 for {id} ({n} / 4 workers done, 3.269s)"));
        }
        line(t + 6500, format!("[Phase3] Assigned worker WorkerId(node3) as aggregator for job {id}"));
        line(t + 7340, format!("[Phase3] WorkerId WorkerId(node3) done, phase 3 completed for {id} (0.305s)"));
        line(t + 7342, format!("[Job] Finished {id} successfully \u{2714} Duration: 7.342s (3.216s+3.822s+0.305s) Steps: 304.964.424 Instances: 174 Capacity: 40CU"));
    }
    log
}

fn worker_log(node: usize) -> String {
    let mut log = String::from("ZisK Worker v0.18.0\n");
    for k in 0..EXPECTED_PROOFS {
        let t = start(k);
        let mut line =
            |ms: u64, text: String| log.push_str(&format!("{} proofman::proofman {text}\n", at(ms)));
        line(t + 100, format!("INFO: Starting Partial Contribution for {}-b32d-4539-9ac7-8c7d900b73d1", job(k)));
        line(t + 150, "INFO: >>> COMPUTE_MINIMAL_TRACE".to_string());
        line(t + 750, "INFO: <<< COMPUTE_MINIMAL_TRACE (600ms)".to_string());
        line(t + 800, "INFO: >>> PLAN".to_string());
        line(t + 850, "INFO: <<< PLAN (50ms)".to_string());
        for x in 0..5u64 {
            let w = t + 900 + x * 300;
            line(w, format!("DEBUG: >>> GENERATING_WC_{x} [0:{x}]"));
            line(w + 100, format!("DEBUG: <<< GENERATING_WC_{x} [0:{x}] (100ms)"));
            line(w + 110, format!("DEBUG: >>> GET_CONTRIBUTION_AIR_{x} [0:{x}]"));
            line(w + 190, format!("DEBUG: <<< GET_CONTRIBUTION_AIR_{x} [0:{x}] (80ms)"));
        }
        line(t + 2800, format!("INFO: Contribution computation successful for JobId({}\u{2026})", job(k)));
        line(t + 3300, format!("INFO: Starting Prove for JobId({}\u{2026})", job(k)));
        for x in 0..5u64 {
            let w = t + 3400 + x * 400;
            line(w, format!("DEBUG: >>> GEN_PROOF_{x} [0:{x}]"));
            line(w + 300, format!("DEBUG: <<< GEN_PROOF_{x} [0:{x}] (300ms)"));
        }
        line(t + 6300, "INFO: <<< GENERATING_PROOFS (2900ms)".to_string());
        if node == 3 {
            line(t + 6510, format!("INFO: Starting aggregation step for JobId({}\u{2026})", job(k)));
            line(t + 6520, "INFO: Last proof received. [4] proofs were received".to_string());
            line(t + 6600, "DEBUG: >>> GENERATE_VADCOP_FINAL_PROOF_WITNESS".to_string());
            line(t + 6700, "DEBUG: <<< GENERATE_VADCOP_FINAL_PROOF_WITNESS (100ms)".to_string());
            line(t + 6710, "DEBUG: >>> GEN_RECURSIVE_PROOF_VadcopFinal".to_string());
            line(t + 7000, "DEBUG: <<< GEN_RECURSIVE_PROOF_VadcopFinal (290ms)".to_string());
            line(t + 7330, format!("INFO: Aggregation task completed for JobId({}\u{2026})", job(k)));
        }
    }
    log
}

fn worker_files() -> Vec<WorkerFile> {
    (1..=4)
        .map(|n| WorkerFile {
            digit: n as u32,
            name: format!("worker-{n}.log"),
            text: worker_log(n),
        })
        .collect()
}

fn metric_blocks() -> Vec<MetricBlock> {
    (0..EXPECTED_PROOFS)
        .map(|k| {
            let raw = RawMetric {
                name: Some(format!("rpc_block_{}", 25192300 + k)),
                timestamp_completed: Some(at(start(k) + 7500)),
                metadata: Some(RawMetadata {
                    block_used_gas: Some(29758135 + k as u64),
                    original_test_name: None,
                }),
                proving: Some(RawProving {
                    success: Some(RawSuccess {
                        proof_size: Some(261313),
                        proving_time_ms: Some(7342),
                        verification_time_ms: Some(5),
                    }),
                    crashed: None,
                }),
            };
            parse_metric_json("stem", raw).unwrap()
        })
        .collect()
}

/// Parses a run into a document, the run directory giving it its id.
fn parse_run(input: &str, name: &str) -> Result<Document> {
    let coordinator = coordinator_log();
    let files = worker_files();
    let backend = detect_backend(Some(&coordinator), None).expect("zisk backend detected");
    let parsed = backend.parse(&coordinator, &files)?;
    assert!(can_pack(&parsed.logs));
    let paths = vec!["zisk-eth-client-reth-v0.9.0/zisk-v0.18.0/rpc_block_25192300.json".to_string()];
    let sources = Sources {
        blocks: sort_blocks(&metric_blocks()),
        meta: load_metrics(&paths).meta,
        hardware: load_hardware(None),
        samples: Vec::new(),
        raw_log: load_raw_lines(&Some(coordinator), &files),
    };
    let document = assemble(
        parsed,
        sources,
        &run_name(input),
        name.to_string(),
        String::new(),
        (),
        (),
    );
    assert_unique_block_names(&document)?;
    Ok(document)
}

/// Parses a run whose directory carries no benchmark.json.
fn parse_to_benchmark(input: &str) -> Result<Document> {
    parse_run(input, "")
}

fn timestamped_run(stamp: &str) -> String {
    format!("/tmp/merge-1/eest-60m-{stamp}")
}

/// What stands at the output path.
#[derive(Default)]
struct Disk {
    document: Option<Document>,
}

impl Disk {
    fn run(&mut self, inputs: &[&str], output: &str, force: bool, patch: bool) -> Result<usize> {
        let inputs: Vec<String> = inputs.iter().map(|i| i.to_string()).collect();
        let mut total = 0;
        for planned in tools::run::run(&inputs, force, patch) {
            let parsed = parse_run(&planned.input, "fixture")?;
            let exists = self.document.is_some();
            match run_one(output, exists, planned.force, planned.patch)? {
                Persist::Append => {
                    total += merge_run(self.document.as_mut().unwrap(), parsed)?;
                }
                Persist::Create => {
                    total += block_total(&parsed);
                    self.document = Some(parsed);
                }
            }
        }
        Ok(total)
    }
}

#[test]
fn coordinator_log_parses_without_error() {
    let logs = coordinator::parse(&coordinator_log()).unwrap();
    let success = logs
        .iter()
        .filter(|l| l.status == LogStatus::Success)
        .count();
    assert_eq!(success, EXPECTED_PROOFS, "coordinator success logs");
}

#[test]
fn zisk_backend_parses_cluster_logs() {
    let text = coordinator_log();
    let backend = detect_backend(Some(&text), Some(&text)).expect("zisk backend detected");
    assert_eq!(backend, Backend::Zisk);
    let parsed = backend.parse(&text, &worker_files()).unwrap();

    assert_eq!(parsed.name, "zisk");
    assert_eq!(parsed.phases.len(), 5, "phase preset");
    let success = parsed
        .logs
        .iter()
        .filter(|l| l.status == LogStatus::Success)
        .count();
    assert_eq!(success, EXPECTED_PROOFS, "success logs");
    // Every successful log carries exactly one aggregator node, whose final phase window is set.
    assert!(parsed
        .logs
        .iter()
        .filter(|l| l.status == LogStatus::Success)
        .all(|l| l
            .nodes
            .iter()
            .filter(|n| n.phases.last().is_some_and(Option::is_some))
            .count()
            == 1));
    assert_eq!(detect_backend(None, None), None);
    assert_eq!(
        detect_backend(Some("other"), Some("INFO edge_manager: Starting")),
        Some(Backend::Openvm)
    );
}

#[test]
fn assembles_a_ten_proof_run() {
    let b = parse_run("runs/fixture/", "fixture").unwrap();

    assert_eq!(b.schema_version, 1);
    assert_eq!(b.software.zkvm.name, "zisk");
    assert_eq!(b.software.zkvm.version, "v0.18.0");
    assert_eq!(b.software.guest.name, "zisk-eth-client-reth");
    assert_eq!(b.software.guest.version, "v0.9.0");
    assert_eq!(b.software.zkvm.phases.len(), 5);
    assert_eq!(b.software.zkvm.phases[0].name, "input");
    assert_eq!(b.software.zkvm.phases[0].label, "Input Transfer");
    assert_eq!(b.software.zkvm.phases[3].label, "Prove + Recurse");
    assert_eq!(b.software.zkvm.pipeline.len(), 13);
    assert_eq!(b.software.zkvm.pipeline[2].name, "wc_contribution");
    assert_eq!(b.software.zkvm.pipeline[2].phase, "commit");
    assert!(b.software.zkvm.pipeline[2].paired);
    assert_eq!(b.software.zkvm.pipeline[7].name, "wc_proof");
    assert_eq!(b.software.zkvm.pipeline[7].phase, "prove");
    assert!(b.software.zkvm.pipeline[7].paired);
    assert_eq!(b.id, "fixture");
    assert_eq!(b.name, "fixture");
    assert_eq!(b.runs.len(), 1);
    let run = &b.runs[0];
    assert_eq!(run.id, "fixture");
    assert!(run.started_at > 0);
    assert_eq!(run.block_count, EXPECTED_PROOFS);
    assert_eq!(run.success_count, EXPECTED_PROOFS);
    assert_eq!(run.failure_count, 0);
    assert_eq!(b.hardware.nodes.len(), 4);
    assert_eq!(run.blocks.len(), EXPECTED_PROOFS);
    assert!(run.blocks.iter().all(|bl| bl.status == "success"));
    assert!(run
        .blocks
        .iter()
        .all(|bl| bl.proving_ms.is_some_and(|m| m > 0)));
    assert!(run.blocks.iter().all(|bl| bl.nodes.len() == 4));
    assert!(run
        .blocks
        .iter()
        .all(|bl| bl.nodes.iter().all(|n| n.crashed_ms.is_none())));
    assert!(run
        .blocks
        .iter()
        .all(|bl| bl.nodes.iter().all(|n| n.phases.len() == 5)));
    assert!(run
        .blocks
        .iter()
        .all(|bl| bl.nodes.iter().filter(|n| n.phases[4].is_some()).count() == 1));

    // The blocks stand in completion order under their metric names.
    let names: Vec<&str> = run.blocks.iter().map(|bl| bl.name.as_str()).collect();
    let expected: Vec<String> = (25192300..=25192309)
        .map(|n| format!("rpc_block_{n}"))
        .collect();
    assert_eq!(
        names,
        expected.iter().map(String::as_str).collect::<Vec<_>>()
    );
    assert!(run.blocks.iter().all(|bl| bl.start_ms >= 0));
    assert_eq!(run.blocks[3].start_ms, 30_000);
}

#[test]
fn first_block_matches_known_values() {
    let b = parse_run("fixture", "fixture").unwrap();
    let first = b.runs[0]
        .blocks
        .iter()
        .find(|bl| bl.name == "rpc_block_25192300")
        .expect("block rpc_block_25192300");

    assert_eq!(first.proving_ms, Some(7342), "block 25192300 proving_ms");
    assert_eq!(first.gas_used, Some(29758135), "block 25192300 gas");
    assert_eq!(
        first
            .meta
            .iter()
            .find(|(name, _)| name == "steps")
            .map(|(_, value)| *value),
        Some(304964424),
        "block 25192300 steps"
    );
    assert!(
        first.nodes[2].phases[4].is_some(),
        "node3 carries the aggregate window"
    );
    assert!(
        (0..4)
            .filter(|&i| i != 2)
            .all(|i| first.nodes[i].phases[4].is_none()),
        "only the aggregator carries the aggregate window"
    );
}

#[test]
fn blocks_carry_pipeline_items() {
    let b = parse_run("fixture", "fixture").unwrap();
    let kind_count = b.software.zkvm.pipeline.len() as i64;
    let mut cached_proof_rows = 0;
    let mut full_contribution_rows = 0;
    let mut lone_contribution_rows = 0;
    for block in &b.runs[0].blocks {
        for (ni, node) in block.nodes.iter().enumerate() {
            assert!(
                node.pipeline.len() >= 10,
                "block {} node {ni} carries only {} pipeline rows",
                block.name,
                node.pipeline.len()
            );
            let aggregator = node.phases[4].is_some();
            for row in &node.pipeline {
                let row = &row.cells;
                assert!(
                    (0..kind_count).contains(&row[0]),
                    "kind {} out of template range",
                    row[0]
                );
                assert!(
                    row.len() == 3 || row.len() == 5,
                    "unexpected arity in block {} node {ni}: {row:?}",
                    block.name
                );
                assert!(
                    !(row[0] == 11 || row[0] == 12) || aggregator,
                    "vadcop row on non-aggregator node {ni} of block {}",
                    block.name
                );
                if row[0] == 7 && row.len() == 3 {
                    cached_proof_rows += 1;
                }
                if row[0] == 2 && row.len() == 5 {
                    full_contribution_rows += 1;
                }
                if row[0] == 2 && row.len() == 3 {
                    lone_contribution_rows += 1;
                }
            }
            assert!(
                node.pipeline.windows(2).all(|w| (w[0].cells[1], w[0].cells[0])
                    <= (w[1].cells[1], w[1].cells[0])),
                "pipeline rows out of (start, kind) order in block {}",
                block.name
            );
        }
    }
    assert!(cached_proof_rows > 0, "no compute-only wc_proof row");
    assert!(
        full_contribution_rows > lone_contribution_rows,
        "paired wc_contribution rows must outnumber lone ones, \
         got {full_contribution_rows} paired vs {lone_contribution_rows} lone"
    );
}

#[test]
fn block_logs_capture_the_proving_window() {
    let b = parse_run("fixture", "fixture").unwrap();
    let first = b.runs[0]
        .blocks
        .iter()
        .find(|bl| bl.name == "rpc_block_25192300")
        .expect("block rpc_block_25192300");

    assert!(!first.logs.is_empty(), "block carries log lines");
    let roles: std::collections::BTreeSet<&str> =
        first.logs.iter().map(|l| l.role.as_str()).collect();
    assert!(roles.contains("coordinator"), "coordinator lines present");
    assert!(
        roles.iter().any(|r| r.starts_with("worker")),
        "worker lines present, tagged by worker number"
    );
    assert!(
        first.logs.iter().any(|l| l.level == "debug"),
        "debug lines are captured"
    );
    assert!(
        first.logs.iter().all(|l| l
            .msg
            .split_whitespace()
            .next()
            .is_none_or(|w| !w.contains("::"))),
        "the leading module path is stripped from the message"
    );
    assert!(
        first.logs.windows(2).all(|w| w[0].time <= w[1].time),
        "lines are time ordered"
    );
    assert_eq!(
        first.logs.first().unwrap().time,
        0,
        "the first line sits at the block start"
    );
    let last = first.logs.last().unwrap().time;
    assert!(
        last < 30_000_000,
        "lines stay within the proving window, got {last}us"
    );

    // Every block with lines gets one archive, named after it.
    let archives = write_block_logs(&b.runs[0]);
    assert_eq!(archives.len(), EXPECTED_PROOFS);
    assert_eq!(archives[0], (0, "rpc_block_25192300.tar.json".to_string()));
}

#[test]
fn the_lean_document_is_the_document_without_logs() {
    let full = parse_run("runs/fixture/", "fixture").unwrap();
    let same = parse_run("runs/fixture/", "fixture").unwrap();
    let lean = lean(full);
    assert_eq!(lean.id, same.id);
    assert_eq!(lean.hardware.nodes, same.hardware.nodes);
    assert_eq!(lean.runs.len(), same.runs.len());
    assert_eq!(lean.runs[0].started_at, same.runs[0].started_at);
    assert_eq!(lean.runs[0].blocks.len(), EXPECTED_PROOFS);
    for (lean, full) in lean.runs[0].blocks.iter().zip(&same.runs[0].blocks) {
        assert!(lean.logs.is_empty() && !full.logs.is_empty());
        assert_eq!(lean.name, full.name);
        assert_eq!(lean.start_ms, full.start_ms);
        assert_eq!(lean.proving_ms, full.proving_ms);
        assert_eq!(lean.nodes.len(), full.nodes.len());
    }
    assert!(write_block_logs(&lean.runs[0]).is_empty());
}

#[test]
fn write_refuses_to_overwrite_without_force() {
    let out = "benchmark.json";
    let mut disk = Disk::default();

    disk.run(&["fixture"], out, false, false)
        .expect("first write succeeds");
    let err = disk
        .run(&["fixture"], out, false, false)
        .expect_err("a second write without --force is refused");
    assert!(
        matches!(&err, ParseError::OutputExists(path) if path == out),
        "expected OutputExists, got {err:?}"
    );
    disk.run(&["fixture"], out, true, false)
        .expect("--force overwrites");

    let doc = disk.document.unwrap();
    assert_eq!(doc.runs.len(), 1, "a forced overwrite is still one run");
}

#[test]
fn patch_appends_a_second_run_and_dedupes_the_id() {
    let out = "benchmark.json";
    let mut disk = Disk::default();

    let missing = disk
        .run(&["fixture"], out, false, true)
        .expect_err("patching a missing target is refused");
    assert!(
        matches!(&missing, ParseError::PatchTargetMissing(path) if path == out),
        "expected PatchTargetMissing, got {missing:?}"
    );

    disk.run(&["fixture"], out, false, false)
        .expect("seed the document");
    let added = disk
        .run(&["fixture"], out, false, true)
        .expect("patch appends a run");
    assert_eq!(added, EXPECTED_PROOFS, "the patch added the run's blocks");

    let doc = disk.document.unwrap();
    assert_eq!(doc.runs.len(), 2);
    assert_eq!(doc.id, "fixture");
    assert_eq!(doc.name, "fixture");
    assert_eq!(doc.runs[0].id, "fixture");
    assert_eq!(doc.runs[1].id, "fixture-patch-1");
    assert_eq!(doc.runs[1].blocks.len(), EXPECTED_PROOFS);
}

#[test]
fn patch_refuses_a_different_benchmark_name() {
    let out = "benchmark.json";
    let mut disk = Disk::default();

    disk.run(&["fixture"], out, false, false)
        .expect("seed the document");
    disk.document.as_mut().unwrap().name = "other-benchmark".to_string();

    let err = disk
        .run(&["fixture"], out, false, true)
        .expect_err("a name mismatch is refused");
    assert!(
        matches!(&err, ParseError::PatchMismatch(field) if field == "name"),
        "expected PatchMismatch(name), got {err:?}"
    );
    assert_eq!(disk.document.unwrap().runs.len(), 1, "nothing was appended");
}

#[test]
fn several_inputs_are_taken_in_run_id_order() {
    let mut disk = Disk::default();
    let inputs = ["z/run-3", "y/run-1/", "x/run-2"];
    let total = disk.run(&inputs, "out.json", false, false).unwrap();
    assert_eq!(total, 3 * EXPECTED_PROOFS);
    let doc = disk.document.unwrap();
    let ids: Vec<&str> = doc.runs.iter().map(|r| r.id.as_str()).collect();
    assert_eq!(ids, vec!["run-1", "run-2", "run-3"]);
    assert_eq!(doc.id, "run-1", "the earliest run creates the document");

    // Only the creating run honours force, and every later run is a patch.
    let inputs: Vec<String> = inputs.iter().map(|i| i.to_string()).collect();
    let plan = tools::run::run(&inputs, true, false);
    let flags: Vec<(&str, bool, bool)> = plan
        .iter()
        .map(|p| (p.input.as_str(), p.force, p.patch))
        .collect();
    assert_eq!(
        flags,
        vec![
            ("y/run-1/", true, false),
            ("x/run-2", false, true),
            ("z/run-3", false, true),
        ]
    );
}

#[test]
fn a_duplicate_block_name_is_refused() {
    let mut document = parse_to_benchmark("fixture").unwrap();
    document.runs[0].blocks[4].name = "rpc_block_25192301".to_string();
    let err = assert_unique_block_names(&document).unwrap_err();
    assert!(
        matches!(&err, ParseError::DuplicateBlockName(name) if name == "rpc_block_25192301"),
        "expected DuplicateBlockName, got {err:?}"
    );
}

#[test]
fn the_epoch_and_the_axis_come_from_the_logs_without_telemetry() {
    let parsed = Backend::Zisk
        .parse(&coordinator_log(), &worker_files())
        .unwrap();
    let first = tools::log::Ts::parse(&at(0)).unwrap().epoch_ms();
    assert_eq!(run_epoch(&parsed.logs, &Vec::new()), first);
    assert_eq!(
        node_axis(&parsed.logs, &Vec::new()),
        vec!["node1", "node2", "node3", "node4"]
    );
}

/// The compression flag appends the suffix to the output path rather than replacing the .json
/// one, so the file names the format it decompresses to.
#[test]
fn the_compression_flag_appends_the_suffix_to_the_output_path() {
    let args = |zstd| ParseBenchmarkArgs {
        input: vec!["run".to_string()],
        output: "data/bench.json".to_string(),
        force: false,
        patch: false,
        zstd,
    };
    assert_eq!(args(false).output_path(), "data/bench.json");
    assert_eq!(args(true).output_path(), "data/bench.json.zstd");
}

/// A one-entry sub-phase template naming the given sub-step under the segment owner.
fn segment_template(name: &str) -> Vec<SubPhase> {
    vec![SubPhase {
        name: name.to_string(),
        label: name.to_string(),
        phase: "segment".to_string(),
    }]
}

/// The seven STARK sub-steps, in template order.
const SUB_STEPS: [&str; 7] = [
    "execute_preflight",
    "trace_gen",
    "main_trace_commit",
    "logup_gkr",
    "round0",
    "mle_rounds",
    "openings",
];

/// The full fourteen-entry sub-phase template, the seven sub-steps under the segment owner then
/// the recursion owner.
fn openvm_subphases() -> Vec<SubPhase> {
    ["segment", "recursion"]
        .iter()
        .flat_map(|phase| {
            SUB_STEPS.iter().map(move |name| SubPhase {
                name: name.to_string(),
                label: name.to_string(),
                phase: phase.to_string(),
            })
        })
        .collect()
}

/// The openvm pipeline template, the six base kinds alone or those plus the fourteen component
/// kinds a new-format run appends, mirroring the sub-phase template.
fn openvm_pipeline(components: bool) -> Vec<PipelineStep> {
    let step = |name: &str, phase: &str| PipelineStep {
        name: name.to_string(),
        label: name.to_string(),
        phase: phase.to_string(),
        paired: false,
    };
    let mut kinds: Vec<PipelineStep> = [
        ("execution", "execution"),
        ("fastfwd", "execution"),
        ("app_segment", "segment"),
        ("leaf", "recursion"),
        ("internal", "recursion"),
        ("wrap", "wrap"),
    ]
    .iter()
    .map(|(name, phase)| step(name, phase))
    .collect();
    if components {
        kinds.extend(openvm_subphases().iter().map(|s| step(&s.name, &s.phase)));
    }
    kinds
}

/// The parsed benchmark reshaped to the openvm templates, a new-format run carrying the
/// component pipeline kinds and the sub-phase template together as assemble emits them from one
/// gate, an old-format run carrying the base pipeline alone with no sub-phase template.
fn with_openvm_templates(mut b: Document, new_format: bool) -> Document {
    b.software.zkvm.pipeline = openvm_pipeline(new_format);
    b.software.zkvm.subphases = if new_format {
        openvm_subphases()
    } else {
        Vec::new()
    };
    b
}

#[test]
fn two_timestamped_runs_without_benchmark_json_merge() {
    // Two runs of one benchmark, distinguished only by their -YYYYMMDD-HHMMSS suffix and
    // lacking a benchmark.json, share the derived name yet keep their own ids, so the
    // second merges onto the first into one document of two runs.
    let first = parse_to_benchmark(&timestamped_run("20260602-000001")).unwrap();
    let second = parse_to_benchmark(&timestamped_run("20260602-000002")).unwrap();
    assert_eq!(first.name, "eest-60m");
    assert_eq!(second.name, "eest-60m");
    assert_ne!(first.id, second.id, "the per-run id stays distinct");

    let mut existing = first;
    let added = merge_run(&mut existing, second).expect("same-benchmark runs merge");
    assert_eq!(added, existing.runs[0].blocks.len());
    assert_eq!(existing.runs.len(), 2, "the document holds both runs");
}

#[test]
fn patch_refuses_a_conflicting_pipeline_prefix() {
    // Two runs whose pipeline templates differ within the shared base prefix must not merge,
    // since the per-block kind indices of one run would point at the other's template. A pure
    // extension is the version difference the prefix reconciliation allows, so the conflict
    // must sit in the prefix itself. Both runs are reshaped to the openvm base template because
    // the component kinds extend that one.
    let mut existing = with_openvm_templates(
        parse_to_benchmark(&timestamped_run("20260602-000003")).unwrap(),
        false,
    );
    let mut incoming = with_openvm_templates(
        parse_to_benchmark(&timestamped_run("20260602-000004")).unwrap(),
        false,
    );
    incoming.software.zkvm.pipeline[0].name = "different".to_string();
    let err = merge_run(&mut existing, incoming).unwrap_err();
    assert!(matches!(err, ParseError::PatchMismatch(field) if field == "pipeline"));
}

#[test]
fn patch_adopts_a_sub_phase_template_from_the_run_that_carries_it() {
    // The seeded run's logs carried no per-item spans and the incoming run's did, so the
    // incoming run carries the component pipeline kinds and the sub-phase template together,
    // the paired fields assemble emits from one gate. The shared base prefix matches,
    // so the merge succeeds and the merged document adopts the incoming run's longer
    // templates.
    let mut existing = with_openvm_templates(
        parse_to_benchmark(&timestamped_run("20260602-000010")).unwrap(),
        false,
    );
    let incoming = with_openvm_templates(
        parse_to_benchmark(&timestamped_run("20260602-000011")).unwrap(),
        true,
    );
    assert!(existing.software.zkvm.subphases.is_empty());
    assert_eq!(existing.software.zkvm.pipeline.len(), 6);
    merge_run(&mut existing, incoming).expect("the templates reconcile");
    assert_eq!(existing.software.zkvm.pipeline.len(), 20);
    assert_eq!(existing.software.zkvm.subphases.len(), 14);
    assert_eq!(existing.runs.len(), 2);
}

#[test]
fn patch_reconciles_an_old_format_run_onto_a_new_format_document() {
    // The seeded document already carries the component pipeline and the sub-phase template,
    // and the incoming unpatched-image run carries the base template alone. Their
    // shared base prefix matches, so the merge succeeds and the merged document keeps
    // its own longer templates.
    let mut existing = with_openvm_templates(
        parse_to_benchmark(&timestamped_run("20260602-000016")).unwrap(),
        true,
    );
    let incoming = with_openvm_templates(
        parse_to_benchmark(&timestamped_run("20260602-000017")).unwrap(),
        false,
    );
    merge_run(&mut existing, incoming).expect("the templates reconcile");
    assert_eq!(existing.software.zkvm.pipeline.len(), 20);
    assert_eq!(existing.software.zkvm.subphases.len(), 14);
    assert_eq!(existing.runs.len(), 2);
}

#[test]
fn patch_merges_two_runs_without_a_sub_phase_template() {
    // Two spans-less runs merge as before, the merged document carrying no template.
    let mut existing = parse_to_benchmark(&timestamped_run("20260602-000012")).unwrap();
    let incoming = parse_to_benchmark(&timestamped_run("20260602-000013")).unwrap();
    merge_run(&mut existing, incoming).expect("report-less runs merge");
    assert!(existing.software.zkvm.subphases.is_empty());
    assert_eq!(existing.runs.len(), 2);
}

#[test]
fn patch_refuses_two_conflicting_sub_phase_templates() {
    // Two runs whose non-empty templates differ would misalign the per-block row indices, so
    // the merge is refused with a subphases mismatch rather than a misleading software
    // one.
    let mut existing = {
        let mut b = parse_to_benchmark(&timestamped_run("20260602-000014")).unwrap();
        b.software.zkvm.subphases = segment_template("trace_gen");
        b
    };
    let incoming = {
        let mut b = parse_to_benchmark(&timestamped_run("20260602-000015")).unwrap();
        b.software.zkvm.subphases = segment_template("openings");
        b
    };
    let err = merge_run(&mut existing, incoming).unwrap_err();
    assert!(matches!(err, ParseError::PatchMismatch(field) if field == "subphases"));
}
