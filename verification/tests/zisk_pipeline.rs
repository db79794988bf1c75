//! The fine pipeline items of the zisk worker logs.

use std::collections::BTreeMap;

use tools::error::Result;
use tools::log::{PipelineItem, Ts};
use tools::text_map::TextMap;
use tools::zisk::kinds::zisk_pipeline;
use tools::zisk::zisk_phases;

type Items = BTreeMap<String, BTreeMap<String, Vec<PipelineItem>>>;

fn chars(text: &str) -> Vec<char> {
    text.chars().collect()
}

fn text(chars: &[char]) -> String {
    chars.iter().collect()
}

fn copies(items: &[PipelineItem]) -> Vec<PipelineItem> {
    items.iter().map(PipelineItem::copy).collect()
}

fn items_in(items: &Items) -> TextMap<TextMap<Vec<PipelineItem>>> {
    let mut outer = TextMap::new();
    for (job, nodes) in items {
        let mut inner = TextMap::new();
        for (node, list) in nodes {
            inner.insert(chars(node), copies(list));
        }
        outer.insert(chars(job), inner);
    }
    outer
}

fn items_out(map: &TextMap<TextMap<Vec<PipelineItem>>>) -> Items {
    let mut items = Items::new();
    for i in 0..map.len() {
        let inner = map.value_at(i);
        let nodes = (0..inner.len())
            .map(|j| (text(inner.key_at(j)), copies(inner.value_at(j))))
            .collect();
        items.insert(text(map.key_at(i)), nodes);
    }
    items
}

/// Parses one worker log, adding to what the map holds.
fn parse(clean: &str, node: &str, pipelines: &mut Items) -> Result<()> {
    let mut map = items_in(pipelines);
    tools::zisk::pipeline::parse(clean, node, &mut map)?;
    *pipelines = items_out(&map);
    Ok(())
}

/// The epoch milliseconds of an RFC-3339 instant, for comparing item segments.
fn ms(value: &str) -> i64 {
    Ts::parse(value).unwrap().epoch_ms()
}

/// Parses a log for node1 and returns the items of the given job.
fn parse_job(log: &str, job: &str) -> Vec<PipelineItem> {
    let mut map = BTreeMap::new();
    parse(log, "node1", &mut map).unwrap();
    map.remove(job)
        .expect("job items")
        .remove("node1")
        .expect("node1 items")
}

// The loader ansi-strips before calling the parser, so the tests pass already-clean text. A wc
// bracket before Starting Prove is a contribution witness and one after it is a proof witness,
// each claimed by its own compute stem, with each compute open printed before its witness
// close the way the interleaved logger orders the real logs.
const WC_SPLIT_LOG: &str = "\
2026-06-02T06:36:20.000000Z zisk_worker::worker_node INFO: Starting Partial Contribution for aaaa1111-0000-0000-0000-000000000000
2026-06-02T06:36:21.000000Z proofman::proofman DEBUG: >>> GENERATING_WC_2 [0:12]
2026-06-02T06:36:21.600000Z proofman::proofman DEBUG: >>> GET_CONTRIBUTION_AIR_2 [0:12]
2026-06-02T06:36:21.500000Z proofman::proofman DEBUG: <<< GENERATING_WC_2 [0:12] (500ms)
2026-06-02T06:36:21.800000Z proofman::proofman DEBUG: <<< GET_CONTRIBUTION_AIR_2 [0:12] (200ms)
2026-06-02T06:36:22.000000Z zisk_worker::worker_node INFO: Starting Prove for JobId(aaaa1111\u{2026})
2026-06-02T06:36:22.100000Z proofman::proofman DEBUG: >>> GENERATING_WC_2 [0:12]
2026-06-02T06:36:22.500000Z proofman::proofman DEBUG: >>> GEN_PROOF_2 [0:12]
2026-06-02T06:36:22.400000Z proofman::proofman DEBUG: <<< GENERATING_WC_2 [0:12] (300ms)
2026-06-02T06:36:22.900000Z proofman::proofman DEBUG: <<< GEN_PROOF_2 [0:12] (400ms)
";

#[test]
fn wc_splits_between_commit_and_prove_by_the_starting_prove_marker() {
    let items = parse_job(WC_SPLIT_LOG, "aaaa1111");
    assert_eq!(items.len(), 2);
    // The pre-prove wc pairs the contribution kind with both segments complete.
    assert_eq!(items[0].kind, 2);
    assert_eq!(
        items[0].first,
        (
            ms("2026-06-02T06:36:21.000Z"),
            Some(ms("2026-06-02T06:36:21.500Z"))
        )
    );
    assert_eq!(
        items[0].second,
        Some((
            ms("2026-06-02T06:36:21.600Z"),
            Some(ms("2026-06-02T06:36:21.800Z"))
        ))
    );
    // The post-prove wc pairs the proof kind, untouched by the earlier contribution pair.
    assert_eq!(items[1].kind, 7);
    assert_eq!(
        items[1].first,
        (
            ms("2026-06-02T06:36:22.100Z"),
            Some(ms("2026-06-02T06:36:22.400Z"))
        )
    );
    assert_eq!(
        items[1].second,
        Some((
            ms("2026-06-02T06:36:22.500Z"),
            Some(ms("2026-06-02T06:36:22.900Z"))
        ))
    );
}

// The logger prints the compute open a few microseconds before the witness close it consumes,
// the usual thread interleave in the real logs, which the late attach still pairs.
const INTERLEAVED_WC_LOG: &str = "\
2026-06-02T06:36:20.000000Z zisk_worker::worker_node INFO: Starting Partial Contribution for aaaa1111-0000-0000-0000-000000000000
2026-06-02T06:36:21.000000Z proofman::proofman DEBUG: >>> GENERATING_WC_2 [0:12]
2026-06-02T06:36:21.604000Z proofman::proofman DEBUG: >>> GET_CONTRIBUTION_AIR_2 [0:12]
2026-06-02T06:36:21.604013Z proofman::proofman DEBUG: <<< GENERATING_WC_2 [0:12] (604ms)
2026-06-02T06:36:21.804000Z proofman::proofman DEBUG: <<< GET_CONTRIBUTION_AIR_2 [0:12] (200ms)
";

#[test]
fn a_witness_closing_after_its_compute_opened_still_pairs() {
    let items = parse_job(INTERLEAVED_WC_LOG, "aaaa1111");
    assert_eq!(items.len(), 1);
    assert_eq!(items[0].kind, 2);
    assert_eq!(
        items[0].first,
        (
            ms("2026-06-02T06:36:21.000000Z"),
            Some(ms("2026-06-02T06:36:21.604013Z"))
        )
    );
    assert_eq!(
        items[0].second,
        Some((
            ms("2026-06-02T06:36:21.604000Z"),
            Some(ms("2026-06-02T06:36:21.804000Z"))
        ))
    );
}

// A proof bracket with no post-prove wc for its instance, the shape a cached witness leaves.
const CACHED_WITNESS_LOG: &str = "\
2026-06-02T06:36:20.000000Z zisk_worker::worker_node INFO: Starting Partial Contribution for aaaa1111-0000-0000-0000-000000000000
2026-06-02T06:36:22.000000Z zisk_worker::worker_node INFO: Starting Prove for JobId(aaaa1111\u{2026})
2026-06-02T06:36:22.500000Z proofman::proofman DEBUG: >>> GEN_PROOF_6 [0:12]
2026-06-02T06:36:22.900000Z proofman::proofman DEBUG: <<< GEN_PROOF_6 [0:12] (400ms)
";

#[test]
fn a_cached_witness_yields_a_compute_only_item() {
    let items = parse_job(CACHED_WITNESS_LOG, "aaaa1111");
    assert_eq!(items.len(), 1);
    assert_eq!(items[0].kind, 7);
    assert_eq!(
        items[0].first,
        (
            ms("2026-06-02T06:36:22.500Z"),
            Some(ms("2026-06-02T06:36:22.900Z"))
        )
    );
    assert_eq!(items[0].second, None);
}

// A table air's contribution runs without any wc bracket for its instance.
const TABLE_AIR_LOG: &str = "\
2026-06-02T06:36:20.000000Z zisk_worker::worker_node INFO: Starting Partial Contribution for aaaa1111-0000-0000-0000-000000000000
2026-06-02T06:36:21.000000Z proofman::proofman DEBUG: >>> GET_CONTRIBUTION_AIR_1340 [0:19]
2026-06-02T06:36:21.200000Z proofman::proofman DEBUG: <<< GET_CONTRIBUTION_AIR_1340 [0:19] (200ms)
";

#[test]
fn a_table_air_without_wc_is_compute_only() {
    let items = parse_job(TABLE_AIR_LOG, "aaaa1111");
    assert_eq!(items.len(), 1);
    assert_eq!(items[0].kind, 2);
    assert_eq!(
        items[0].first,
        (
            ms("2026-06-02T06:36:21.000Z"),
            Some(ms("2026-06-02T06:36:21.200Z"))
        )
    );
    assert_eq!(items[0].second, None);
}

// Three recursive1 witnesses complete under two tags before any proof runs, so each proof must
// claim the earliest unconsumed witness of its own tag.
const RECURSIVE1_LOG: &str = "\
2026-06-02T06:36:20.000000Z zisk_worker::worker_node INFO: Starting Partial Contribution for aaaa1111-0000-0000-0000-000000000000
2026-06-02T06:36:22.000000Z zisk_worker::worker_node INFO: Starting Prove for JobId(aaaa1111\u{2026})
2026-06-02T06:36:23.000000Z proofman::recursion DEBUG: >>> GENERATING_RECURSIVE1_WITNESS_10 [0:1]
2026-06-02T06:36:23.100000Z proofman::recursion DEBUG: <<< GENERATING_RECURSIVE1_WITNESS_10 [0:1] (100ms)
2026-06-02T06:36:23.200000Z proofman::recursion DEBUG: >>> GENERATING_RECURSIVE1_WITNESS_14 [0:1]
2026-06-02T06:36:23.300000Z proofman::recursion DEBUG: <<< GENERATING_RECURSIVE1_WITNESS_14 [0:1] (100ms)
2026-06-02T06:36:23.400000Z proofman::recursion DEBUG: >>> GENERATING_RECURSIVE1_WITNESS_20 [0:2]
2026-06-02T06:36:23.500000Z proofman::recursion DEBUG: <<< GENERATING_RECURSIVE1_WITNESS_20 [0:2] (100ms)
2026-06-02T06:36:24.000000Z proofman::recursion DEBUG: >>> GEN_RECURSIVE_PROOF_Recursive1 [0:2]
2026-06-02T06:36:24.100000Z proofman::recursion DEBUG: <<< GEN_RECURSIVE_PROOF_Recursive1 [0:2] (100ms)
2026-06-02T06:36:24.200000Z proofman::recursion DEBUG: >>> GEN_RECURSIVE_PROOF_Recursive1 [0:1]
2026-06-02T06:36:24.300000Z proofman::recursion DEBUG: <<< GEN_RECURSIVE_PROOF_Recursive1 [0:1] (100ms)
2026-06-02T06:36:24.400000Z proofman::recursion DEBUG: >>> GEN_RECURSIVE_PROOF_Recursive1 [0:1]
2026-06-02T06:36:24.500000Z proofman::recursion DEBUG: <<< GEN_RECURSIVE_PROOF_Recursive1 [0:1] (100ms)
";

#[test]
fn recursive1_pairs_witness_to_proof_by_tag_fifo() {
    let items = parse_job(RECURSIVE1_LOG, "aaaa1111");
    assert_eq!(items.len(), 3);
    assert!(items.iter().all(|i| i.kind == 8));
    // The tag 0:2 proof takes the tag's only witness, not the earlier 0:1 ones.
    assert_eq!(items[0].first.0, ms("2026-06-02T06:36:23.400Z"));
    assert_eq!(items[0].second.unwrap().0, ms("2026-06-02T06:36:24.000Z"));
    // The two 0:1 proofs take their tag's witnesses in completion order.
    assert_eq!(items[1].first.0, ms("2026-06-02T06:36:23.000Z"));
    assert_eq!(items[1].second.unwrap().0, ms("2026-06-02T06:36:24.200Z"));
    assert_eq!(items[2].first.0, ms("2026-06-02T06:36:23.200Z"));
    assert_eq!(items[2].second.unwrap().0, ms("2026-06-02T06:36:24.400Z"));
}

// Two aggregation witnesses overlap and their closes arrive in the reverse of open order, so
// only the printed durations pair them correctly where first-open-first-close would not.
const OVERLAP_LOG: &str = "\
2026-06-02T06:36:20.000000Z zisk_worker::worker_node INFO: Starting Partial Contribution for aaaa1111-0000-0000-0000-000000000000
2026-06-02T06:36:20.500000Z zisk_worker::worker_node INFO: Starting Prove for JobId(aaaa1111\u{2026})
2026-06-02T06:36:21.000000Z proofman::recursion DEBUG: >>> GENERATE_WITNESS_AGGREGATION
2026-06-02T06:36:22.000000Z proofman::recursion DEBUG: >>> GENERATE_WITNESS_AGGREGATION
2026-06-02T06:36:22.050000Z proofman::recursion DEBUG: <<< GENERATE_WITNESS_AGGREGATION (50ms)
2026-06-02T06:36:22.100000Z proofman::recursion DEBUG: <<< GENERATE_WITNESS_AGGREGATION (1100ms)
";

#[test]
fn overlapping_closes_resolve_by_printed_duration() {
    let items = parse_job(OVERLAP_LOG, "aaaa1111");
    // Both witnesses flush unclaimed as lone segments, whose bounds show the pairing.
    assert_eq!(items.len(), 2);
    assert!(items.iter().all(|i| i.kind == 9 && i.second.is_none()));
    let short = (
        ms("2026-06-02T06:36:22.000Z"),
        Some(ms("2026-06-02T06:36:22.050Z")),
    );
    let long = (
        ms("2026-06-02T06:36:21.000Z"),
        Some(ms("2026-06-02T06:36:22.100Z")),
    );
    assert!(items.iter().any(|i| i.first == short));
    assert!(items.iter().any(|i| i.first == long));
}

// A completed aggregation witness followed by a recursive2 proof, whose 0:0 tag the global
// queue ignores.
const RECURSIVE2_LOG: &str = "\
2026-06-02T06:36:20.000000Z zisk_worker::worker_node INFO: Starting Partial Contribution for aaaa1111-0000-0000-0000-000000000000
2026-06-02T06:36:20.500000Z zisk_worker::worker_node INFO: Starting Prove for JobId(aaaa1111\u{2026})
2026-06-02T06:36:21.000000Z proofman::recursion DEBUG: >>> GENERATE_WITNESS_AGGREGATION
2026-06-02T06:36:21.500000Z proofman::recursion DEBUG: <<< GENERATE_WITNESS_AGGREGATION (500ms)
2026-06-02T06:36:21.600000Z proofman::recursion DEBUG: >>> GEN_RECURSIVE_PROOF_Recursive2 [0:0]
2026-06-02T06:36:21.900000Z proofman::recursion DEBUG: <<< GEN_RECURSIVE_PROOF_Recursive2 [0:0] (300ms)
";

#[test]
fn aggregation_witness_pairs_the_next_recursive2_proof() {
    let items = parse_job(RECURSIVE2_LOG, "aaaa1111");
    assert_eq!(items.len(), 1);
    assert_eq!(items[0].kind, 9);
    assert_eq!(
        items[0].first,
        (
            ms("2026-06-02T06:36:21.000Z"),
            Some(ms("2026-06-02T06:36:21.500Z"))
        )
    );
    assert_eq!(
        items[0].second,
        Some((
            ms("2026-06-02T06:36:21.600Z"),
            Some(ms("2026-06-02T06:36:21.900Z"))
        ))
    );
}

// Two aggregation witnesses complete before either recursive2 proof opens, so the global queue
// hands them out in completion order and the proofs' differing bracket tags carry no weight.
const GLOBAL_FIFO_LOG: &str = "\
2026-06-02T06:36:20.000000Z zisk_worker::worker_node INFO: Starting Partial Contribution for aaaa1111-0000-0000-0000-000000000000
2026-06-02T06:36:20.500000Z zisk_worker::worker_node INFO: Starting Prove for JobId(aaaa1111\u{2026})
2026-06-02T06:36:21.000000Z proofman::recursion DEBUG: >>> GENERATE_WITNESS_AGGREGATION
2026-06-02T06:36:21.200000Z proofman::recursion DEBUG: <<< GENERATE_WITNESS_AGGREGATION (200ms)
2026-06-02T06:36:21.300000Z proofman::recursion DEBUG: >>> GENERATE_WITNESS_AGGREGATION
2026-06-02T06:36:21.500000Z proofman::recursion DEBUG: <<< GENERATE_WITNESS_AGGREGATION (200ms)
2026-06-02T06:36:22.000000Z proofman::recursion DEBUG: >>> GEN_RECURSIVE_PROOF_Recursive2 [0:1]
2026-06-02T06:36:22.300000Z proofman::recursion DEBUG: <<< GEN_RECURSIVE_PROOF_Recursive2 [0:1] (300ms)
2026-06-02T06:36:22.400000Z proofman::recursion DEBUG: >>> GEN_RECURSIVE_PROOF_Recursive2 [0:0]
2026-06-02T06:36:22.700000Z proofman::recursion DEBUG: <<< GEN_RECURSIVE_PROOF_Recursive2 [0:0] (300ms)
";

#[test]
fn global_fifo_pops_queued_aggregation_witnesses_in_completion_order() {
    let items = parse_job(GLOBAL_FIFO_LOG, "aaaa1111");
    assert_eq!(items.len(), 2);
    assert!(items.iter().all(|i| i.kind == 9));
    // The first proof takes the witness that completed first, the second the later one.
    assert_eq!(
        items[0].first,
        (
            ms("2026-06-02T06:36:21.000Z"),
            Some(ms("2026-06-02T06:36:21.200Z"))
        )
    );
    assert_eq!(
        items[0].second,
        Some((
            ms("2026-06-02T06:36:22.000Z"),
            Some(ms("2026-06-02T06:36:22.300Z"))
        ))
    );
    assert_eq!(
        items[1].first,
        (
            ms("2026-06-02T06:36:21.300Z"),
            Some(ms("2026-06-02T06:36:21.500Z"))
        )
    );
    assert_eq!(
        items[1].second,
        Some((
            ms("2026-06-02T06:36:22.400Z"),
            Some(ms("2026-06-02T06:36:22.700Z"))
        ))
    );
}

// The aggregator's vadcop brackets follow the prove-success line inside the same job window,
// wrapped in unlisted proof stems.
const VADCOP_LOG: &str = "\
2026-06-02T06:36:20.000000Z zisk_worker::worker_node INFO: Starting Partial Contribution for aaaa1111-0000-0000-0000-000000000000
2026-06-02T06:36:22.000000Z zisk_worker::worker_node INFO: Starting Prove for JobId(aaaa1111\u{2026})
2026-06-02T06:36:30.000000Z zisk_worker::worker INFO: Prove computation successful for JobId(aaaa1111\u{2026})
2026-06-02T06:36:31.000000Z proofman::recursion INFO: >>> GENERATE_VADCOP_FINAL_PROOF
2026-06-02T06:36:31.100000Z proofman::recursion DEBUG: >>> GENERATE_VADCOP_FINAL_PROOF_WITNESS
2026-06-02T06:36:31.200000Z proofman::recursion DEBUG: <<< GENERATE_VADCOP_FINAL_PROOF_WITNESS (100ms)
2026-06-02T06:36:31.300000Z proofman::recursion DEBUG: >>> GEN_RECURSIVE_PROOF_VadcopFinal [0:0]
2026-06-02T06:36:31.400000Z proofman::recursion DEBUG: <<< GEN_RECURSIVE_PROOF_VadcopFinal [0:0] (100ms)
2026-06-02T06:36:31.500000Z proofman::recursion INFO: <<< GENERATE_VADCOP_FINAL_PROOF (500ms)
2026-06-02T06:36:31.600000Z proofman::recursion INFO: >>> GENERATE_VADCOP_FINAL_COMPRESSED_PROOF
2026-06-02T06:36:31.700000Z proofman::recursion DEBUG: >>> GENERATE_VADCOP_FINAL_COMPRESSED_PROOF_WITNESS
2026-06-02T06:36:31.800000Z proofman::recursion DEBUG: <<< GENERATE_VADCOP_FINAL_COMPRESSED_PROOF_WITNESS (100ms)
2026-06-02T06:36:31.900000Z proofman::recursion DEBUG: >>> GEN_RECURSIVE_PROOF_VadcopFinalCompressed [0:0]
2026-06-02T06:36:32.000000Z proofman::recursion DEBUG: <<< GEN_RECURSIVE_PROOF_VadcopFinalCompressed [0:0] (100ms)
2026-06-02T06:36:32.100000Z proofman::recursion INFO: <<< GENERATE_VADCOP_FINAL_COMPRESSED_PROOF (500ms)
2026-06-02T06:36:35.000000Z zisk_worker::worker_node INFO: Starting Partial Contribution for bbbb2222-0000-0000-0000-000000000000
";

#[test]
fn vadcop_pairs_attach_to_the_job_after_prove_success() {
    let items = parse_job(VADCOP_LOG, "aaaa1111");
    assert_eq!(items.len(), 2);
    assert_eq!(items[0].kind, 11);
    assert_eq!(
        items[0].first,
        (
            ms("2026-06-02T06:36:31.100Z"),
            Some(ms("2026-06-02T06:36:31.200Z"))
        )
    );
    assert_eq!(
        items[0].second,
        Some((
            ms("2026-06-02T06:36:31.300Z"),
            Some(ms("2026-06-02T06:36:31.400Z"))
        ))
    );
    assert_eq!(items[1].kind, 12);
    assert!(items[1].second.is_some());
}

// A node that froze mid-prove, one proof bracket still open with its late-attached witness and
// one wc bracket never closed, followed by the untimestamped restart output and the next job.
const CRASH_LOG: &str = "\
2026-06-02T06:36:20.000000Z zisk_worker::worker_node INFO: Starting Partial Contribution for dddd4444-0000-0000-0000-000000000000
2026-06-02T06:36:22.000000Z zisk_worker::worker_node INFO: Starting Prove for JobId(dddd4444\u{2026})
2026-06-02T06:36:23.000000Z proofman::proofman DEBUG: >>> GENERATING_WC_2 [0:12]
2026-06-02T06:36:23.600000Z proofman::proofman DEBUG: >>> GEN_PROOF_2 [0:12]
2026-06-02T06:36:23.500000Z proofman::proofman DEBUG: <<< GENERATING_WC_2 [0:12] (500ms)
2026-06-02T06:36:23.700000Z proofman::proofman DEBUG: >>> GENERATING_WC_6 [0:12]
--------------------------------------------------------------------------
Primary job  terminated normally, but 1 process returned
mpirun noticed that process rank 0 with PID 0 on node host exited on signal 9 (Killed).
ZisK Worker v0.18.0
2026-06-02T06:37:00.000000Z proofman::proofman INFO: >>> INITIALIZING_PROOFMAN
2026-06-02T06:37:05.000000Z zisk_worker::worker_node INFO: Starting Partial Contribution for eeee5555-0000-0000-0000-000000000000
2026-06-02T06:37:06.000000Z executor::executor INFO: >>> PLAN
2026-06-02T06:37:06.200000Z executor::executor INFO: <<< PLAN (200ms)
";

#[test]
fn a_crash_leaves_dangling_items_and_the_next_job_starts_clean() {
    let mut map = BTreeMap::new();
    parse(CRASH_LOG, "node1", &mut map).unwrap();
    let crashed = map.get("dddd4444").and_then(|j| j.get("node1")).unwrap();
    assert_eq!(crashed.len(), 2);
    // The late-attached witness stays with its dangling proof, the completed segment first.
    let dangling_pair = crashed.iter().find(|i| i.second.is_some()).unwrap();
    assert_eq!(dangling_pair.kind, 7);
    assert_eq!(
        dangling_pair.first,
        (
            ms("2026-06-02T06:36:23.000Z"),
            Some(ms("2026-06-02T06:36:23.500Z"))
        )
    );
    assert_eq!(
        dangling_pair.second,
        Some((ms("2026-06-02T06:36:23.600Z"), None))
    );
    // The never-closed wc open flushes as a dangling lone segment.
    let dangling_open = crashed.iter().find(|i| i.second.is_none()).unwrap();
    assert_eq!(dangling_open.kind, 7);
    assert_eq!(dangling_open.first, (ms("2026-06-02T06:36:23.700Z"), None));
    // The restart's own brackets attach to nothing and the next job starts clean.
    let next = map.get("eeee5555").and_then(|j| j.get("node1")).unwrap();
    assert_eq!(next.len(), 1);
    assert_eq!(next[0].kind, 1);
    assert_eq!(
        next[0].first,
        (
            ms("2026-06-02T06:37:06.000Z"),
            Some(ms("2026-06-02T06:37:06.200Z"))
        )
    );
}

// Brackets outside the kinds table, before any job, and the decorative rank banners.
const UNLISTED_LOG: &str = "\
2026-06-02T06:36:10.000000Z proofman::proofman INFO: >>> INITIALIZING_PROOFMAN
2026-06-02T06:36:11.000000Z proofman::proofman INFO: <<< INITIALIZING_PROOFMAN (1000ms)
2026-06-02T06:36:20.000000Z zisk_worker::worker_node INFO: Starting Partial Contribution for aaaa1111-0000-0000-0000-000000000000
2026-06-02T06:36:21.000000Z asm_runner::asm_services::services DEBUG: >>> [0] Creating shmem for service (stdio): mo
2026-06-02T06:36:22.000000Z executor::executor DEBUG: >>> MEM_SORT
2026-06-02T06:36:22.500000Z executor::executor DEBUG: <<< MEM_SORT (500ms)
2026-06-02T06:36:23.000000Z proofman::proofman INFO: >>> GENERATING_PROOFS
2026-06-02T06:36:24.000000Z proofman::proofman INFO: <<< GENERATING_PROOFS (1000ms)
";

#[test]
fn unlisted_stems_produce_no_items() {
    let items = parse_job(UNLISTED_LOG, "aaaa1111");
    assert!(items.is_empty());
}

#[test]
fn kinds_reference_existing_phase_names() {
    let pipeline = zisk_pipeline();
    let names: Vec<&str> = pipeline.iter().map(|k| k.name.as_str()).collect();
    assert_eq!(
        names,
        vec![
            "minimal_trace",
            "plan",
            "wc_contribution",
            "mem_plan_wait",
            "mem_plan_collect",
            "tables",
            "internal_contribution",
            "wc_proof",
            "recursive1",
            "recursive2",
            "compressor",
            "vadcop_final",
            "vadcop_final_compressed",
        ]
    );
    let phases: Vec<String> = zisk_phases().into_iter().map(|p| p.name).collect();
    assert!(pipeline.iter().all(|k| phases.contains(&k.phase)));
    let paired: Vec<usize> = pipeline
        .iter()
        .enumerate()
        .filter(|(_, k)| k.paired)
        .map(|(i, _)| i)
        .collect();
    assert_eq!(paired, vec![2, 7, 8, 9, 10, 11, 12]);
}

// The same job dispatched twice to the node, whose second run must not overwrite the first.
const RETRY_LOG: &str = "\
2026-06-02T06:36:20.000000Z zisk_worker::worker_node INFO: Starting Partial Contribution for aaaa1111-0000-0000-0000-000000000000
2026-06-02T06:36:21.000000Z executor::executor INFO: >>> PLAN
2026-06-02T06:36:21.200000Z executor::executor INFO: <<< PLAN (200ms)
2026-06-02T06:36:25.000000Z zisk_worker::worker_node INFO: Starting Partial Contribution for bbbb2222-0000-0000-0000-000000000000
2026-06-02T06:36:30.000000Z zisk_worker::worker_node INFO: Starting Partial Contribution for aaaa1111-0000-0000-0000-000000000000
2026-06-02T06:36:31.000000Z executor::executor INFO: >>> COMPUTE_MINIMAL_TRACE
2026-06-02T06:36:32.000000Z executor::executor INFO: <<< COMPUTE_MINIMAL_TRACE (1000ms)
";

#[test]
fn a_retried_job_keeps_the_first_runs_items() {
    let mut map = BTreeMap::new();
    parse(RETRY_LOG, "node1", &mut map).unwrap();
    let items = map.get("aaaa1111").and_then(|j| j.get("node1")).unwrap();
    assert_eq!(items.len(), 1);
    assert_eq!(items[0].kind, 1);
    assert_eq!(
        items[0].first,
        (
            ms("2026-06-02T06:36:21.000Z"),
            Some(ms("2026-06-02T06:36:21.200Z"))
        )
    );
}

// Job B's contribution dispatch and PLAN bracket arrive while job A still proves, the overlap
// zisk produces when it hands the next job out early, so each slot keeps its own job's
// brackets.
const INTERLEAVED_JOBS_LOG: &str = "\
2026-06-02T06:36:20.000000Z zisk_worker::worker_node INFO: Starting Partial Contribution for aaaa1111-0000-0000-0000-000000000000
2026-06-02T06:36:21.000000Z proofman::proofman DEBUG: >>> GENERATING_WC_2 [0:12]
2026-06-02T06:36:21.600000Z proofman::proofman DEBUG: >>> GET_CONTRIBUTION_AIR_2 [0:12]
2026-06-02T06:36:21.500000Z proofman::proofman DEBUG: <<< GENERATING_WC_2 [0:12] (500ms)
2026-06-02T06:36:21.800000Z proofman::proofman DEBUG: <<< GET_CONTRIBUTION_AIR_2 [0:12] (200ms)
2026-06-02T06:36:22.000000Z zisk_worker::worker_node INFO: Starting Prove for JobId(aaaa1111\u{2026})
2026-06-02T06:36:23.000000Z zisk_worker::worker_node INFO: Starting Partial Contribution for bbbb2222-0000-0000-0000-000000000000
2026-06-02T06:36:23.100000Z executor::executor INFO: >>> PLAN
2026-06-02T06:36:23.300000Z executor::executor INFO: <<< PLAN (200ms)
2026-06-02T06:36:24.000000Z proofman::proofman DEBUG: >>> GEN_PROOF_2 [0:12]
2026-06-02T06:36:24.400000Z proofman::proofman DEBUG: <<< GEN_PROOF_2 [0:12] (400ms)
";

#[test]
fn an_interleaved_next_contribution_keeps_the_proving_jobs_brackets() {
    let mut map = BTreeMap::new();
    parse(INTERLEAVED_JOBS_LOG, "node1", &mut map).unwrap();
    // Job A holds its contribution pair and its proof, closed after job B was dispatched.
    let a = map.get("aaaa1111").and_then(|j| j.get("node1")).unwrap();
    assert_eq!(a.len(), 2);
    assert_eq!(a[0].kind, 2);
    assert_eq!(
        a[0].second,
        Some((
            ms("2026-06-02T06:36:21.600Z"),
            Some(ms("2026-06-02T06:36:21.800Z"))
        ))
    );
    assert_eq!(a[1].kind, 7);
    assert_eq!(
        a[1].first,
        (
            ms("2026-06-02T06:36:24.000Z"),
            Some(ms("2026-06-02T06:36:24.400Z"))
        )
    );
    assert_eq!(a[1].second, None);
    // Job B holds its own PLAN bracket, and neither job flushes anything dangling.
    let b = map.get("bbbb2222").and_then(|j| j.get("node1")).unwrap();
    assert_eq!(b.len(), 1);
    assert_eq!(b[0].kind, 1);
    assert_eq!(
        b[0].first,
        (
            ms("2026-06-02T06:36:23.100Z"),
            Some(ms("2026-06-02T06:36:23.300Z"))
        )
    );
    assert!(a.iter().chain(b).all(|i| i.first.1.is_some()));
}

// The same wc instance pends in the proving job and the next contribution when the close
// arrives, so only its printed duration says which job it belongs to.
const CROSS_SLOT_LOG: &str = "\
2026-06-02T06:36:20.000000Z zisk_worker::worker_node INFO: Starting Partial Contribution for aaaa1111-0000-0000-0000-000000000000
2026-06-02T06:36:21.000000Z zisk_worker::worker_node INFO: Starting Prove for JobId(aaaa1111\u{2026})
2026-06-02T06:36:22.000000Z proofman::proofman DEBUG: >>> GENERATING_WC_2 [0:12]
2026-06-02T06:36:22.500000Z zisk_worker::worker_node INFO: Starting Partial Contribution for bbbb2222-0000-0000-0000-000000000000
2026-06-02T06:36:22.900000Z proofman::proofman DEBUG: >>> GENERATING_WC_2 [0:12]
2026-06-02T06:36:23.100000Z proofman::proofman DEBUG: <<< GENERATING_WC_2 [0:12] (1100ms)
2026-06-02T06:36:23.150000Z proofman::proofman DEBUG: <<< GENERATING_WC_2 [0:12] (250ms)
";

#[test]
fn a_cross_slot_close_routes_to_the_slot_its_duration_points_at() {
    let mut map = BTreeMap::new();
    parse(CROSS_SLOT_LOG, "node1", &mut map).unwrap();
    // The 1100ms close back-computes to the proving job's open even though the contribution
    // slot also holds the instance, and the 250ms close then pairs the contribution's open.
    let a = map.get("aaaa1111").and_then(|j| j.get("node1")).unwrap();
    assert_eq!(a.len(), 1);
    assert_eq!(a[0].kind, 7);
    assert_eq!(
        a[0].first,
        (
            ms("2026-06-02T06:36:22.000Z"),
            Some(ms("2026-06-02T06:36:23.100Z"))
        )
    );
    let b = map.get("bbbb2222").and_then(|j| j.get("node1")).unwrap();
    assert_eq!(b.len(), 1);
    assert_eq!(b[0].kind, 2);
    assert_eq!(
        b[0].first,
        (
            ms("2026-06-02T06:36:22.900Z"),
            Some(ms("2026-06-02T06:36:23.150Z"))
        )
    );
}

// A job re-dispatched mid-prove holds both slots at the end of the log, the retry's fresh
// contribution in one and the first run's promoted prove state in the other.
const REDISPATCH_EOF_LOG: &str = "\
2026-06-02T06:36:20.000000Z zisk_worker::worker_node INFO: Starting Partial Contribution for cccc3333-0000-0000-0000-000000000000
2026-06-02T06:36:21.000000Z executor::executor INFO: >>> PLAN
2026-06-02T06:36:21.200000Z executor::executor INFO: <<< PLAN (200ms)
2026-06-02T06:36:22.000000Z zisk_worker::worker_node INFO: Starting Prove for JobId(cccc3333\u{2026})
2026-06-02T06:36:22.500000Z proofman::proofman DEBUG: >>> GEN_PROOF_5 [0:12]
2026-06-02T06:36:22.900000Z proofman::proofman DEBUG: <<< GEN_PROOF_5 [0:12] (400ms)
2026-06-02T06:36:25.000000Z zisk_worker::worker_node INFO: Starting Partial Contribution for cccc3333-0000-0000-0000-000000000000
2026-06-02T06:36:26.000000Z executor::executor INFO: >>> COMPUTE_MINIMAL_TRACE
2026-06-02T06:36:27.000000Z executor::executor INFO: <<< COMPUTE_MINIMAL_TRACE (1000ms)
";

#[test]
fn an_end_of_log_flush_keeps_the_first_run_of_a_redispatched_job() {
    let mut map = BTreeMap::new();
    parse(REDISPATCH_EOF_LOG, "node1", &mut map).unwrap();
    // The prove slot flushes first, so the first run's plan and proof survive first-write-wins
    // and the retry's fresh contribution is dropped.
    let items = map.get("cccc3333").and_then(|j| j.get("node1")).unwrap();
    let kinds: Vec<usize> = items.iter().map(|i| i.kind).collect();
    assert_eq!(kinds, vec![1, 7]);
}
