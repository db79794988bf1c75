//! The stages and aggregation bounds of the zisk worker logs.

use std::collections::BTreeMap;

use tools::error::Result;
use tools::log::Ts;
use tools::text_map::TextMap;
use tools::zisk::worker::{AggBounds, WorkerStages};

type Stages = BTreeMap<String, BTreeMap<String, WorkerStages>>;

fn chars(text: &str) -> Vec<char> {
    text.chars().collect()
}

fn text(chars: &[char]) -> String {
    chars.iter().collect()
}

/// Parses one worker log's aggregation markers, adding to what the map holds.
fn parse_agg(clean: &str, agg: &mut BTreeMap<String, AggBounds>) -> Result<()> {
    let mut map = TextMap::new();
    for (job, bounds) in agg.iter() {
        map.insert(chars(job), *bounds);
    }
    tools::zisk::worker::parse_agg(clean, &mut map)?;
    *agg = (0..map.len())
        .map(|i| (text(map.key_at(i)), *map.value_at(i)))
        .collect();
    Ok(())
}

/// Parses one worker log's stages, adding to what the map holds.
fn parse_stages(clean: &str, node: &str, stages: &mut Stages) -> Result<()> {
    let mut map = TextMap::new();
    for (job, nodes) in stages.iter() {
        let mut inner = TextMap::new();
        for (name, value) in nodes {
            inner.insert(chars(name), *value);
        }
        map.insert(chars(job), inner);
    }
    tools::zisk::worker::parse_stages(clean, node, &mut map)?;
    stages.clear();
    for i in 0..map.len() {
        let inner = map.value_at(i);
        let nodes = (0..inner.len())
            .map(|j| (text(inner.key_at(j)), *inner.value_at(j)))
            .collect();
        stages.insert(text(map.key_at(i)), nodes);
    }
    Ok(())
}

// The loader ansi-strips before calling the parsers, so the tests pass already-clean text. The
// job id is the truncated JobId(8hex...) form the worker log prints, and the agg map keys on
// its eight-hex prefix.
const AGG_LOG: &str = "\
2026-05-29T09:53:16.000000Z zisk_worker::worker INFO: Starting aggregation step for JobId(efd42874\u{2026})
2026-05-29T09:53:16.384473Z proofman::proofman INFO: Last proof received. [4] proofs were received
2026-05-29T09:53:16.678613Z zisk_worker::worker_node INFO: Aggregation task completed for JobId(efd42874\u{2026})
";

#[test]
fn binds_first_step_last_proof_and_done() {
    let mut agg: BTreeMap<String, AggBounds> = BTreeMap::new();
    parse_agg(AGG_LOG, &mut agg).unwrap();
    // The bounds are keyed by the eight-hex job prefix, not the raw truncated id.
    let rec = agg.get("efd42874").expect("efd42874 bounds");
    assert_eq!(
        rec.t_first_step.map(Ts::epoch_ms),
        Some(Ts::parse("2026-05-29T09:53:16.000000Z").unwrap().epoch_ms())
    );
    assert_eq!(
        rec.t_start.map(Ts::epoch_ms),
        Some(Ts::parse("2026-05-29T09:53:16.384473Z").unwrap().epoch_ms())
    );
    assert_eq!(
        rec.t_end.map(Ts::epoch_ms),
        Some(Ts::parse("2026-05-29T09:53:16.678613Z").unwrap().epoch_ms())
    );
}

const STAGE_LOG: &str = "\
2026-06-02T06:36:20.100000Z h2::codec::framed_read DEBUG: received
2026-06-02T06:36:20.200000Z h2::codec::framed_read DEBUG: received
2026-06-02T06:36:20.329136Z zisk_worker::worker_node INFO: Starting Partial Contribution for efd42874-b32d-4539-9ac7-8c7d900b73d1
2026-06-02T06:36:20.341869Z executor::executor INFO: >>> COMPUTE_MINIMAL_TRACE
2026-06-02T06:36:22.000000Z h2::codec::framed_read DEBUG: received
2026-06-02T06:36:25.109399Z executor::executor INFO: <<< COMPUTE_MINIMAL_TRACE (4767ms)
2026-06-02T06:36:25.200000Z executor::executor INFO: >>> PLAN
2026-06-02T06:36:30.000000Z zisk_worker::worker INFO: Contribution computation successful for JobId(efd42874\u{2026})
2026-06-02T06:36:31.000000Z zisk_worker::worker_node INFO: Starting Prove for JobId(efd42874\u{2026})
2026-06-02T06:36:40.000000Z proofman::proofman INFO: <<< GENERATING_PROOFS (9000ms)
2026-06-02T06:36:45.000000Z h2::codec::framed_read DEBUG: received
2026-06-02T06:36:45.100000Z h2::codec::framed_read DEBUG: received
2026-06-02T06:36:45.200000Z zisk_worker::worker_node INFO: Starting Partial Contribution for abcd1234-0000-0000-0000-000000000000
";

#[test]
fn records_each_subphase_boundary_for_the_job_and_node() {
    let mut stages = BTreeMap::new();
    parse_stages(STAGE_LOG, "node4", &mut stages).unwrap();
    let s = stages
        .get("efd42874")
        .and_then(|j| j.get("node4"))
        .expect("node4 stages");
    // Input transfer ends at Starting Partial Contribution, when the node has the input and
    // begins, with the h2 received frames ignored.
    assert_eq!(
        s.contribution_start.map(Ts::epoch_ms),
        Some(Ts::parse("2026-06-02T06:36:20.329136Z").unwrap().epoch_ms())
    );
    assert!(s.emulation_start.is_some() && s.emulation_end.is_some());
    assert!(s.witgen_start.is_some() && s.witgen_end.is_some());
    assert!(s.prove_start.is_some() && s.prove_end.is_some());

    // The next job records its own contribution start, the proving-time received frames between
    // the two jobs carrying no weight.
    let next = stages
        .get("abcd1234")
        .and_then(|j| j.get("node4"))
        .expect("next job stages");
    assert_eq!(
        next.contribution_start.map(Ts::epoch_ms),
        Some(Ts::parse("2026-06-02T06:36:45.200000Z").unwrap().epoch_ms())
    );
}

// The v1.1.0 phase-1 markers, whose planning bracket is PLAN_SECONDARY and whose emulation
// bracket now encloses the contribution work zisk streams alongside the assembly execution.
const STAGE_LOG_V1_1: &str = "\
2026-08-18T14:26:02.174498Z zisk_worker::worker_node INFO: Starting Partial Contribution for 18689344-7792-4e26-a958-212cc6dccc84
2026-08-18T14:26:02.264677Z executor::executor INFO: >>> COMPUTE_MINIMAL_TRACE
2026-08-18T14:26:02.512151Z executor::executor INFO: First GPU contribution queued
2026-08-18T14:26:02.629278Z executor::executor INFO: <<< COMPUTE_MINIMAL_TRACE (364ms)
2026-08-18T14:26:02.629293Z executor::executor INFO: >>> PLAN_SECONDARY
2026-08-18T14:26:03.607868Z zisk_worker::worker INFO: Contribution computation successful for JobId(18689344\u{2026})
2026-08-18T14:26:03.640000Z zisk_worker::worker_node INFO: Starting Prove for JobId(18689344\u{2026})
2026-08-18T14:26:05.274000Z proofman::proofman INFO: <<< GENERATING_PROOFS (1634ms)
";

#[test]
fn the_renamed_planning_marker_starts_witness_generation() {
    // zisk 1.1.0 renamed the planning bracket from PLAN to PLAN_SECONDARY without moving it, so
    // witness generation still runs from that bracket to the contribution success line.
    let mut stages = BTreeMap::new();
    parse_stages(STAGE_LOG_V1_1, "node1", &mut stages).unwrap();
    let s = stages
        .get("18689344")
        .and_then(|j| j.get("node1"))
        .expect("node1 stages");
    assert_eq!(
        s.witgen_start.map(Ts::epoch_ms),
        Some(Ts::parse("2026-08-18T14:26:02.629293Z").unwrap().epoch_ms())
    );
    assert_eq!(
        s.witgen_end.map(Ts::epoch_ms),
        Some(Ts::parse("2026-08-18T14:26:03.607868Z").unwrap().epoch_ms())
    );
    // Emulation still ends where witness generation begins, so the two windows stay adjacent.
    assert_eq!(
        s.emulation_end.map(Ts::epoch_ms),
        s.witgen_start.map(Ts::epoch_ms)
    );
    assert!(s.prove_start.is_some() && s.prove_end.is_some());
}

// A node that froze mid-contribution, modeled on the eest run0 crash. The last timestamped line
// is a witness-generation DEBUG marker, followed by the untimestamped mpirun teardown and
// worker banner, then the restart's own timestamped lines and the next job.
const CRASH_LOG: &str = "\
2026-06-03T00:28:50.947466Z zisk_worker::worker_node INFO: Starting Partial Contribution for d177ea78-4a1f-4f1d-8888-9fa228cf7514
2026-06-03T00:28:50.959238Z executor::executor INFO: >>> COMPUTE_MINIMAL_TRACE
2026-06-03T00:28:55.514618Z executor::executor INFO: <<< COMPUTE_MINIMAL_TRACE (4555ms)
2026-06-03T00:28:55.514631Z executor::executor INFO: >>> PLAN
2026-06-03T00:29:10.643541Z proofman::proofman DEBUG: >>> GET_CONTRIBUTION_AIR_1340 [0:19]
--------------------------------------------------------------------------
Primary job  terminated normally, but 1 process returned
a non-zero exit code. Per user-direction, the job has been aborted.
mpirun noticed that process rank 0 with PID 0 on node host exited on signal 9 (Killed).
ZisK Worker v0.18.0
2026-06-03T00:29:20.467168Z proofman_common::proof_ctx INFO: Creating proof context
2026-06-03T00:29:20.472783Z proofman::proofman INFO: >>> INITIALIZING_PROOFMAN
2026-06-03T00:29:25.000000Z zisk_worker::worker_node INFO: Starting Partial Contribution for 04bd25d2-65bf-4e60-965f-ff1c688a022b
";

#[test]
fn a_crash_freezes_at_the_last_line_before_the_restart_banner() {
    let mut stages = BTreeMap::new();
    parse_stages(CRASH_LOG, "node4", &mut stages).unwrap();
    let s = stages
        .get("d177ea78")
        .and_then(|j| j.get("node4"))
        .expect("crashed job stages");
    assert!(s.crashed, "the restart banner marks the node crashed");
    // The freeze is the last work line, not the restart's later timestamped lines.
    assert_eq!(
        s.last_activity.map(Ts::epoch_ms),
        Some(Ts::parse("2026-06-03T00:29:10.643541Z").unwrap().epoch_ms())
    );
    // The completed sub-phases up to the freeze are still recorded.
    assert!(s.emulation_start.is_some() && s.emulation_end.is_some());
    assert!(s.witgen_start.is_some() && s.witgen_end.is_none());
    // The restart belongs to the next job, which is not itself crashed.
    let next = stages.get("04bd25d2").and_then(|j| j.get("node4"));
    assert!(next.is_none_or(|n| !n.crashed && n.last_activity.is_none()));
}

// A surviving sibling cancelled after a peer crashed, with its own cancellation and recovery
// lines.
const CANCEL_LOG: &str = "\
2026-06-03T00:28:50.947466Z zisk_worker::worker_node INFO: Starting Partial Contribution for d177ea78-4a1f-4f1d-8888-9fa228cf7514
2026-06-03T00:28:50.958847Z executor::executor INFO: >>> COMPUTE_MINIMAL_TRACE
2026-06-03T00:28:55.570272Z executor::executor INFO: <<< COMPUTE_MINIMAL_TRACE (4611ms)
2026-06-03T00:28:55.570294Z executor::executor INFO: >>> PLAN
2026-06-03T00:29:14.647634Z zisk_worker::worker_node INFO: Job d177ea78-4a1f-4f1d-8888-9fa228cf7514 cancelled: Worker WorkerId(node4) connection dropped
2026-06-03T00:29:14.679326Z zisk_worker::worker_node WARN: [Recovery] node1: running cluster cancellation handshake
2026-06-03T00:29:15.532165Z zisk_worker::worker_node INFO: Starting Partial Contribution for 04bd25d2-65bf-4e60-965f-ff1c688a022b
";

#[test]
fn a_cancelled_sibling_records_its_own_cancellation_time() {
    let mut stages = BTreeMap::new();
    parse_stages(CANCEL_LOG, "node1", &mut stages).unwrap();
    let s = stages
        .get("d177ea78")
        .and_then(|j| j.get("node1"))
        .expect("cancelled job stages");
    // The cancellation time is the worker's own line, not a crash and not the coordinator's
    // ack.
    assert!(!s.crashed);
    assert_eq!(
        s.cancelled_at.map(Ts::epoch_ms),
        Some(Ts::parse("2026-06-03T00:29:14.647634Z").unwrap().epoch_ms())
    );
    // It reached witgen but never finished its contribution before being cancelled.
    assert!(s.witgen_start.is_some() && s.witgen_end.is_none());
}

// Two nodes parsed from their own logs in the same job, only one of which carries a restart
// banner, so the crash classification is independent per node rather than a single
// coordinator-named one.
#[test]
fn multiple_nodes_each_classify_from_their_own_log() {
    let mut stages = BTreeMap::new();
    parse_stages(CRASH_LOG, "node4", &mut stages).unwrap();
    parse_stages(CANCEL_LOG, "node1", &mut stages).unwrap();
    let job = stages.get("d177ea78").expect("job stages");
    assert!(job.get("node4").is_some_and(|n| n.crashed));
    assert!(
        job.get("node1")
            .is_some_and(|n| !n.crashed && n.cancelled_at.is_some())
    );
}
