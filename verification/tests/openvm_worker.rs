//! The openvm worker logs.

use std::collections::BTreeMap;

use tools::error::{ParseError, Result};
use tools::log::{PipelineItem, Ts};
use tools::openvm::phases::{APP_SEGMENT, EXECUTION, FASTFWD, INTERNAL, LEAF, WRAP};
use tools::openvm::worker::WorkerData;
use tools::text_map::TextMap;

type Items = BTreeMap<String, BTreeMap<String, Vec<PipelineItem>>>;
type Moments = BTreeMap<String, BTreeMap<String, i64>>;

fn chars(text: &str) -> Vec<char> {
    text.chars().collect()
}

fn text(chars: &[char]) -> String {
    chars.iter().collect()
}

fn moments_in(moments: &Moments) -> TextMap<TextMap<i64>> {
    let mut outer = TextMap::new();
    for (job, nodes) in moments {
        let mut inner = TextMap::new();
        for (node, at) in nodes {
            inner.insert(chars(node), *at);
        }
        outer.insert(chars(job), inner);
    }
    outer
}

fn moments_out(map: &TextMap<TextMap<i64>>) -> Moments {
    let mut moments = Moments::new();
    for i in 0..map.len() {
        let inner = map.value_at(i);
        let nodes = (0..inner.len())
            .map(|j| (text(inner.key_at(j)), *inner.value_at(j)))
            .collect();
        moments.insert(text(map.key_at(i)), nodes);
    }
    moments
}

fn copies(items: &[PipelineItem]) -> Vec<PipelineItem> {
    items.iter().map(PipelineItem::copy).collect()
}

fn items_in(items: &Items) -> TextMap<TextMap<Vec<PipelineItem>>> {
    let mut outer = TextMap::new();
    for (job, nodes) in items {
        let mut inner = TextMap::new();
        for (node, list) in nodes {
            inner.insert(chars(node), copies(list));
        }
        outer.insert(chars(job), inner);
    }
    outer
}

fn items_out(map: &TextMap<TextMap<Vec<PipelineItem>>>) -> Items {
    let mut items = Items::new();
    for i in 0..map.len() {
        let inner = map.value_at(i);
        let nodes = (0..inner.len())
            .map(|j| (text(inner.key_at(j)), copies(inner.value_at(j))))
            .collect();
        items.insert(text(map.key_at(i)), nodes);
    }
    items
}

/// Parses one worker log, adding to what the maps hold.
fn parse_worker(
    clean: &str,
    node: &str,
    items: &mut Items,
    announcements: &mut Moments,
    sends: &mut Moments,
    writes: &mut Moments,
) -> Result<()> {
    let data = WorkerData {
        items: items_in(items),
        announcements: moments_in(announcements),
        sends: moments_in(sends),
        writes: moments_in(writes),
    };
    let data = tools::openvm::worker::parse_worker(clean, node, data)?;
    *items = items_out(&data.items);
    *announcements = moments_out(&data.announcements);
    *sends = moments_out(&data.sends);
    *writes = moments_out(&data.writes);
    Ok(())
}

/// The sub-steps of an item as slot and millisecond pairs.
fn pairs(spans: &[(u64, u64)]) -> Vec<[u64; 2]> {
    spans.iter().map(|&(slot, ms)| [slot, ms]).collect()
}

/// Parses one line for node1 and returns the items it produced for the given proof.
fn items_of(text: &str, job: &str) -> Vec<PipelineItem> {
    let mut items = BTreeMap::new();
    let mut announcements = BTreeMap::new();
    let mut sends = BTreeMap::new();
    let mut writes = BTreeMap::new();
    parse_worker(
        text,
        "node1",
        &mut items,
        &mut announcements,
        &mut sends,
        &mut writes,
    )
    .expect("parse should succeed");
    items
        .get(job)
        .and_then(|j| j.get("node1"))
        .map(|list| copies(list))
        .unwrap_or_default()
}

fn ms(value: &str) -> i64 {
    Ts::parse(value).unwrap().epoch_ms()
}

#[test]
fn an_app_segment_line_splits_into_a_fast_forward_and_a_stark_span() {
    // Verbatim consumer line from a real run. The prove span placed backward from the line
    // timestamp holds the fast-forward then the STARK, split into a fast-forward item and the
    // app segment that follows it, both carrying the segment index.
    let line = "2026-07-21T13:56:24.477882Z  INFO app_consumer{proof_id=ere-6f8d9d31213b4238b586606bc0e6bb19 prover_id=0 consumer_idx=1}: edge_worker::provers::sharded_app_prover::real_impl: Consumer: proved segment 16: queue_wait=0ms, fastfwd=4ms, stark=1483ms, prove=1487ms";
    let items = items_of(line, "ere-6f8d9d31213b4238b586606bc0e6bb19");
    assert_eq!(items.len(), 2);
    let end = ms("2026-07-21T13:56:24.477882Z");
    // The fast-forward is the first four ms of the prove window, the app segment the rest.
    assert_eq!(items[0].kind, FASTFWD);
    assert_eq!(items[0].first, (end - 1487, Some(end - 1483)));
    assert_eq!(items[0].meta.id, Some(16));
    assert_eq!(items[1].kind, APP_SEGMENT);
    assert_eq!(items[1].first, (end - 1483, Some(end)));
    assert_eq!(items[1].second, None);
    assert_eq!(items[1].meta.id, Some(16));
}

#[test]
fn the_coordinator_consumer_variant_parses_alike_and_a_zero_fast_forward_is_stored() {
    // The coordinator-consumer variant parses like the others, and a zero fast-forward, a
    // segment proved straight from a snapshot, is still stored as a zero-width item so every
    // segment carries one, ahead of the app segment.
    let line = "2026-07-21T13:56:22.806865Z  INFO coordinate_parallel_prove{proof_id=ere-6f8d9d31213b4238b586606bc0e6bb19 prover_id=0 num_provers=16}: edge_worker::provers::sharded_app_prover::real_impl: Coordinator-consumer: proved segment 0: queue_wait=0ms, fastfwd=0ms, stark=384ms, prove=384ms";
    let items = items_of(line, "ere-6f8d9d31213b4238b586606bc0e6bb19");
    assert_eq!(items.len(), 2);
    let end = ms("2026-07-21T13:56:22.806865Z");
    // The fast-forward is a zero-width span at the prove start, the app segment the whole
    // prove.
    assert_eq!(items[0].kind, FASTFWD);
    assert_eq!(items[0].first, (end - 384, Some(end - 384)));
    assert_eq!(items[0].meta.id, Some(0));
    assert_eq!(items[1].kind, APP_SEGMENT);
    assert_eq!(items[1].first, (end - 384, Some(end)));
    assert_eq!(items[1].meta.id, Some(0));
}

#[test]
fn leaf_and_wrap_lines_yield_single_spans() {
    let text = "\
2026-07-21T13:56:25.046890Z  INFO prove_leaf_with_prover{proof_id=ere-aaaabbbbccccddddeeeeffff00001111 segment_start=16 segment_end=19 num_app_proofs=4}: edge_worker::provers::leaf_prover::real_impl: Generated leaf proof for segments [16, 19] (221ms)
2026-07-21T13:56:26.513681Z  INFO prove_internal_with_prover{proof_id=ere-aaaabbbbccccddddeeeeffff00001111 layer_idx=2 segment_start=0 segment_end=51 is_final=true num_child_proofs=2}: edge_worker::provers::internal_prover::real_impl: Final internal proof wrapped successfully (69ms)
";
    let items = items_of(text, "ere-aaaabbbbccccddddeeeeffff00001111");
    assert_eq!(items.len(), 2);
    assert_eq!(items[0].kind, LEAF);
    // The leaf's provisional id is its start segment, awaiting the arity division.
    assert_eq!(items[0].meta.id, Some(16));
    assert_eq!(items[1].kind, WRAP);
    assert_eq!(items[1].meta.id, None);
    assert!(items.iter().all(|i| i.second.is_none()));
}

#[test]
fn executor_finished_lines_are_skipped() {
    // The executor-finished line carries no send or completion anchor, so both prover-path
    // variants parse without error and produce nothing.
    let text = "\
2026-07-21T13:56:24.725734Z  INFO coordinate_parallel_prove{proof_id=ere-aaaabbbbccccddddeeeeffff00001111 prover_id=0 num_provers=16}: edge_worker::provers::sharded_app_prover::real_impl: Executor thread (parallel): finished, 5 segments in 2331ms
2026-07-21T13:56:24.725812Z  INFO prove_app{proof_id=ere-aaaabbbbccccddddeeeeffff00001111}: edge_worker::provers::app_prover::real_impl: Executor thread: finished, 52 segments discovered in 2331ms
";
    let mut items = BTreeMap::new();
    let mut announcements = BTreeMap::new();
    let mut sends = BTreeMap::new();
    let mut writes = BTreeMap::new();
    parse_worker(
        text,
        "node1",
        &mut items,
        &mut announcements,
        &mut sends,
        &mut writes,
    )
    .unwrap();
    assert!(
        items.is_empty() && announcements.is_empty() && sends.is_empty() && writes.is_empty()
    );
}

#[test]
fn an_internal_line_spans_the_prove_and_excludes_the_compress() {
    // The line timestamp follows the wrap, so the prove window ends where the compress span
    // begins. A non-final proof's compress is zero and changes nothing.
    let line = "2026-07-21T13:56:26.513683Z  INFO prove_internal_with_prover{proof_id=ere-aaaabbbbccccddddeeeeffff00001111 layer_idx=2 segment_start=0 segment_end=51 is_final=true num_child_proofs=2}: edge_worker::provers::internal_prover::real_impl: Generated internal proof: layer=2, segment=[0, 51], is_final=true, prove=88ms, compress=69ms";
    let items = items_of(line, "ere-aaaabbbbccccddddeeeeffff00001111");
    assert_eq!(items.len(), 1);
    let end = ms("2026-07-21T13:56:26.513683Z");
    assert_eq!(items[0].kind, INTERNAL);
    assert_eq!(items[0].first, (end - 88 - 69, Some(end - 69)));
}

#[test]
fn a_new_format_app_line_parses_its_stark_sub_step_breakdown() {
    // A synthetic line in the patched worker format, its trailing spans field carrying the
    // seven STARK sub-steps under their drained span keys, sorted lexicographically, alongside
    // parent and extra spans the parser ignores, one holding spaces, an apostrophe, and a
    // greater-than. The breakdown lands on the app segment, the STARK it measures, resolved
    // into the segment-owner template slots in execution order, while the fast-forward
    // carries none.
    let line = "2026-07-21T13:56:24.477882Z  INFO app_consumer{proof_id=ere-6f8d9d31213b4238b586606bc0e6bb19 prover_id=0 consumer_idx=1}: edge_worker::provers::sharded_app_prover::real_impl: Consumer: proved segment 16: queue_wait=0ms, fastfwd=4ms, stark=1483ms, prove=1487ms, spans={execute_preflight_time_ms=5,prover.main_trace_commit_time_ms=240,prover.openings_time_ms=130,prover.rap_constraints.logup_gkr_time_ms=40,prover.rap_constraints.mle_rounds_time_ms=90,prover.rap_constraints.round0_time_ms=20,prover.rap_constraints_time_ms=150,s'_0 -> s_0 cpu interpolations=12,stark_prove_excluding_trace_time_ms=1400,trace_gen_time_ms=620,vm.transport_init_memory_time_ms=8}";
    let items = items_of(line, "ere-6f8d9d31213b4238b586606bc0e6bb19");
    assert_eq!(items.len(), 2);
    assert_eq!(items[0].kind, FASTFWD);
    assert!(items[0].meta.spans.is_empty());
    assert_eq!(items[1].kind, APP_SEGMENT);
    assert_eq!(
        pairs(&items[1].meta.spans),
        vec![
            [0, 5],
            [1, 620],
            [2, 240],
            [3, 40],
            [4, 20],
            [5, 90],
            [6, 130]
        ]
    );
}

#[test]
fn a_new_format_leaf_line_parses_its_breakdown_into_the_recursion_slots() {
    // A synthetic leaf line in the patched worker format. Its spans resolve into the
    // recursion-owner slots, the seven sub-steps offset by seven.
    let line = "2026-07-21T13:56:25.046890Z  INFO prove_leaf_with_prover{proof_id=ere-aaaabbbbccccddddeeeeffff00001111 segment_start=16 segment_end=19 num_app_proofs=4}: edge_worker::provers::leaf_prover::real_impl: Generated leaf proof for segments [16, 19] (221ms), spans={execute_preflight_time_ms=4,prover.main_trace_commit_time_ms=45,prover.openings_time_ms=30,prover.rap_constraints.logup_gkr_time_ms=10,prover.rap_constraints.mle_rounds_time_ms=18,prover.rap_constraints.round0_time_ms=6,trace_gen_time_ms=120}";
    let items = items_of(line, "ere-aaaabbbbccccddddeeeeffff00001111");
    assert_eq!(items.len(), 1);
    assert_eq!(items[0].kind, LEAF);
    assert_eq!(
        pairs(&items[0].meta.spans),
        vec![
            [7, 4],
            [8, 120],
            [9, 45],
            [10, 10],
            [11, 6],
            [12, 18],
            [13, 30]
        ]
    );
}

#[test]
fn a_final_internal_line_stores_merged_spans_exceeding_the_prove_span() {
    // A synthetic final internal line in the patched worker format. The wrap re-runs the VM
    // prove and its drained spans merge into the internal map under the same keys, so the
    // sub-step sum can exceed the prove span, which the parser stores verbatim into the
    // recursion slots for the frontend to scale.
    let line = "2026-07-21T13:56:26.513683Z  INFO prove_internal_with_prover{proof_id=ere-aaaabbbbccccddddeeeeffff00001111 layer_idx=2 segment_start=0 segment_end=51 is_final=true num_child_proofs=2}: edge_worker::provers::internal_prover::real_impl: Generated internal proof: layer=2, segment=[0, 51], is_final=true, prove=88ms, compress=69ms, spans={execute_preflight_time_ms=3,prover.main_trace_commit_time_ms=30,prover.openings_time_ms=20,prover.rap_constraints.logup_gkr_time_ms=8,prover.rap_constraints.mle_rounds_time_ms=12,prover.rap_constraints.round0_time_ms=5,trace_gen_time_ms=110}";
    let items = items_of(line, "ere-aaaabbbbccccddddeeeeffff00001111");
    assert_eq!(items.len(), 1);
    assert_eq!(items[0].kind, INTERNAL);
    assert_eq!(
        pairs(&items[0].meta.spans),
        vec![
            [7, 3],
            [8, 110],
            [9, 30],
            [10, 8],
            [11, 5],
            [12, 12],
            [13, 20]
        ]
    );
    // The packing window runs from the item start to the line timestamp, past the item's own
    // end by the compress span, so the merged wrap sub-steps ride into the compress region
    // rather than overflowing the prove span.
    let line_end = ms("2026-07-21T13:56:26.513683Z");
    assert_eq!(
        items[0].meta.spans_window,
        Some((line_end - 88 - 69, line_end))
    );
    // The merged trace_gen alone exceeds the prove span the item covers, the overflow the
    // component packing scales to fit.
    let (start, end) = items[0].first;
    assert!(items[0].meta.spans[1].1 as i64 > end.unwrap() - start);
}

#[test]
fn an_empty_spans_map_yields_no_breakdown() {
    // A segment proved with no drained spans still renders the field, an empty map, so the line
    // parses and the app segment simply carries no breakdown.
    let line = "2026-07-21T13:56:22.806865Z  INFO coordinate_parallel_prove{proof_id=ere-6f8d9d31213b4238b586606bc0e6bb19 prover_id=0 num_provers=16}: edge_worker::provers::sharded_app_prover::real_impl: Coordinator-consumer: proved segment 0: queue_wait=0ms, fastfwd=0ms, stark=384ms, prove=384ms, spans={}";
    let items = items_of(line, "ere-6f8d9d31213b4238b586606bc0e6bb19");
    assert_eq!(items.len(), 2);
    assert!(items.iter().all(|i| i.meta.spans.is_empty()));
}

#[test]
fn an_old_format_line_parses_with_no_breakdown() {
    // An unpatched-image line carries no spans field, so it parses as before and its items hold
    // no breakdown, the backward-compatibility the committed fixtures also cover.
    let line = "2026-07-21T13:56:24.477882Z  INFO app_consumer{proof_id=ere-6f8d9d31213b4238b586606bc0e6bb19 prover_id=0 consumer_idx=1}: edge_worker::provers::sharded_app_prover::real_impl: Consumer: proved segment 16: queue_wait=0ms, fastfwd=4ms, stark=1483ms, prove=1487ms";
    let items = items_of(line, "ere-6f8d9d31213b4238b586606bc0e6bb19");
    assert_eq!(items.len(), 2);
    assert!(items.iter().all(|i| i.meta.spans.is_empty()));
}

#[test]
fn a_malformed_spans_blob_is_fatal() {
    // An otherwise-matching completion line whose spans blob is malformed, an entry missing its
    // value, matches neither form, so the anchored line falls to the fatal path rather than
    // silently dropping the breakdown.
    let line = "2026-07-21T13:56:24.477882Z  INFO app_consumer{proof_id=ere-6f8d prover_id=0 consumer_idx=1}: edge_worker::provers::sharded_app_prover::real_impl: Consumer: proved segment 16: queue_wait=0ms, fastfwd=4ms, stark=1483ms, prove=1487ms, spans={trace_gen_time_ms}";
    let mut items = BTreeMap::new();
    let mut announcements = BTreeMap::new();
    let mut sends = BTreeMap::new();
    let mut writes = BTreeMap::new();
    let err = parse_worker(
        line,
        "node1",
        &mut items,
        &mut announcements,
        &mut sends,
        &mut writes,
    )
    .expect_err("the malformed spans blob must fail");
    assert!(matches!(err, ParseError::UnrecognizedWorkerLine(_)));
}

#[test]
fn a_span_value_past_u64_is_fatal() {
    // The pattern guarantees a digit run, so a span value only fails to parse on an adversarial
    // overflow past u64, which is fatal like any other malformed content rather than silently
    // zeroed.
    let line = "2026-07-21T13:56:24.477882Z  INFO app_consumer{proof_id=ere-6f8d prover_id=0 consumer_idx=1}: edge_worker::provers::sharded_app_prover::real_impl: Consumer: proved segment 16: queue_wait=0ms, fastfwd=4ms, stark=1483ms, prove=1487ms, spans={trace_gen_time_ms=99999999999999999999999999}";
    let mut items = BTreeMap::new();
    let mut announcements = BTreeMap::new();
    let mut sends = BTreeMap::new();
    let mut writes = BTreeMap::new();
    let err = parse_worker(
        line,
        "node1",
        &mut items,
        &mut announcements,
        &mut sends,
        &mut writes,
    )
    .expect_err("the overflowing span value must fail");
    assert!(matches!(err, ParseError::UnrecognizedWorkerLine(_)));
}

#[test]
fn an_input_file_written_line_records_the_last_write_per_node() {
    // Verbatim write lines from a real run. The proof uuid rides in the written path, and the
    // latest write among a node's workers ends its input transfer.
    let text = "\
2026-07-22T09:24:04.001673Z  INFO edge_worker::handlers: Input file written to \"/dev/shm/edge_ere-d29eebc6d2404aedb9f86d3071deefe7/input.bin\"
2026-07-22T09:24:04.002471Z  INFO edge_worker::handlers: Input file written to \"/dev/shm/edge_ere-d29eebc6d2404aedb9f86d3071deefe7/input.bin\"
";
    let mut items = BTreeMap::new();
    let mut announcements = BTreeMap::new();
    let mut sends = BTreeMap::new();
    let mut writes = BTreeMap::new();
    parse_worker(
        text,
        "node2",
        &mut items,
        &mut announcements,
        &mut sends,
        &mut writes,
    )
    .unwrap();
    assert!(items.is_empty() && announcements.is_empty() && sends.is_empty());
    assert_eq!(
        writes
            .get("ere-d29eebc6d2404aedb9f86d3071deefe7")
            .and_then(|w| w.get("node2"))
            .copied(),
        Some(Ts::parse("2026-07-22T09:24:04.002471Z").unwrap().epoch_us())
    );
}

#[test]
fn a_parallel_coordinator_line_records_the_earliest_announcement() {
    // Verbatim announcement from a real run, followed by a later duplicate for the same proof
    // on the same node. The earliest timestamp is kept and no pipeline item is produced.
    let text = "\
2026-07-21T13:56:22.192354Z  INFO coordinate_parallel_prove{proof_id=ere-6f8d9d31213b4238b586606bc0e6bb19 prover_id=0 num_provers=16}: edge_worker::provers::sharded_app_prover::real_impl: Parallel coordinator: prover_id=0, num_provers=16, max_app_provers=2
2026-07-21T13:56:22.253367Z  INFO coordinate_parallel_prove{proof_id=ere-6f8d9d31213b4238b586606bc0e6bb19 prover_id=1 num_provers=16}: edge_worker::provers::sharded_app_prover::real_impl: Parallel coordinator: prover_id=1, num_provers=16, max_app_provers=2
";
    let mut items = BTreeMap::new();
    let mut announcements = BTreeMap::new();
    let mut sends = BTreeMap::new();
    let mut writes = BTreeMap::new();
    parse_worker(
        text,
        "node1",
        &mut items,
        &mut announcements,
        &mut sends,
        &mut writes,
    )
    .unwrap();
    assert!(items.is_empty() && sends.is_empty());
    assert_eq!(
        announcements
            .get("ere-6f8d9d31213b4238b586606bc0e6bb19")
            .and_then(|s| s.get("node1"))
            .copied(),
        Some(ms("2026-07-21T13:56:22.192354Z"))
    );
}

#[test]
fn a_send_line_yields_a_segment_send_moment() {
    // Verbatim send line from a real run. It carries no completion span, so it records the
    // node's latest send moment and buffers the segment for a derived execution item, producing
    // no standalone pipeline item on its own.
    let text = "2026-07-21T13:56:22.421870Z  INFO coordinate_parallel_prove{proof_id=ere-6f8d9d31213b4238b586606bc0e6bb19 prover_id=0 num_provers=16}: edge_worker::provers::sharded_app_prover::real_impl: Executor (parallel): sending segment 32 for proving";
    let mut items = BTreeMap::new();
    let mut announcements = BTreeMap::new();
    let mut sends = BTreeMap::new();
    let mut writes = BTreeMap::new();
    parse_worker(
        text,
        "node1",
        &mut items,
        &mut announcements,
        &mut sends,
        &mut writes,
    )
    .unwrap();
    // Without an announcement the send derives no item, but the node's send moment is recorded.
    assert!(items.is_empty() && announcements.is_empty() && writes.is_empty());
    assert_eq!(
        sends
            .get("ere-6f8d9d31213b4238b586606bc0e6bb19")
            .and_then(|s| s.get("node1"))
            .copied(),
        Some(ms("2026-07-21T13:56:22.421870Z"))
    );
}

#[test]
fn a_worker_derives_one_execution_item_per_sent_segment() {
    // The serial executor tiles its derived items with no overlap, each spanning the prior
    // segment's send to its own send and the first spanning the announcement to its send, and
    // each carries the segment id it shares with the app segment of the same index. Without a
    // proof line no queue wait is subtracted, so the items tile flush.
    let text = "\
2026-07-21T13:56:22.253367Z  INFO coordinate_parallel_prove{proof_id=ere-6f8d9d31213b4238b586606bc0e6bb19 prover_id=0 num_provers=16}: edge_worker::provers::sharded_app_prover::real_impl: Parallel coordinator: prover_id=0, num_provers=16, max_app_provers=2
2026-07-21T13:56:22.421870Z  INFO coordinate_parallel_prove{proof_id=ere-6f8d9d31213b4238b586606bc0e6bb19 prover_id=0 num_provers=16}: edge_worker::provers::sharded_app_prover::real_impl: Executor (parallel): sending segment 0 for proving
2026-07-21T13:56:22.990247Z  INFO coordinate_parallel_prove{proof_id=ere-6f8d9d31213b4238b586606bc0e6bb19 prover_id=0 num_provers=16}: edge_worker::provers::sharded_app_prover::real_impl: Executor (parallel): sending segment 16 for proving
";
    let items = items_of(text, "ere-6f8d9d31213b4238b586606bc0e6bb19");
    let derived: Vec<_> = items.iter().filter(|i| i.kind == EXECUTION).collect();
    assert_eq!(derived.len(), 2);
    let coord = ms("2026-07-21T13:56:22.253367Z");
    let send0 = ms("2026-07-21T13:56:22.421870Z");
    let send16 = ms("2026-07-21T13:56:22.990247Z");
    // The first item starts at the announcement and each later item at the prior send, so the
    // items tile [coord, send16] consecutively without overlap, and each carries its sent
    // segment id.
    assert_eq!(derived[0].first, (coord, Some(send0)));
    assert_eq!(derived[0].meta.id, Some(0));
    assert_eq!(derived[1].first, (send0, Some(send16)));
    assert_eq!(derived[1].meta.id, Some(16));
}

#[test]
fn a_dropped_send_drops_its_item_rather_than_widening_a_neighbor() {
    // The coordinator capture lost segment 16's send, so the worker's recorded sends jump from
    // segment 0 to segment 32. Tiling both into one item would fabricate a window covering two
    // execution intervals, so the guard drops segment 32's item and derives only segment 0's,
    // from the announcement to its send.
    let text = "\
2026-07-21T13:56:22.253367Z  INFO coordinate_parallel_prove{proof_id=ere-6f8d9d31213b4238b586606bc0e6bb19 prover_id=0 num_provers=16}: edge_worker::provers::sharded_app_prover::real_impl: Parallel coordinator: prover_id=0, num_provers=16, max_app_provers=2
2026-07-21T13:56:22.421870Z  INFO coordinate_parallel_prove{proof_id=ere-6f8d9d31213b4238b586606bc0e6bb19 prover_id=0 num_provers=16}: edge_worker::provers::sharded_app_prover::real_impl: Executor (parallel): sending segment 0 for proving
2026-07-21T13:56:22.990247Z  INFO coordinate_parallel_prove{proof_id=ere-6f8d9d31213b4238b586606bc0e6bb19 prover_id=0 num_provers=16}: edge_worker::provers::sharded_app_prover::real_impl: Executor (parallel): sending segment 32 for proving
";
    let items = items_of(text, "ere-6f8d9d31213b4238b586606bc0e6bb19");
    let derived: Vec<_> = items.iter().filter(|i| i.kind == EXECUTION).collect();
    assert_eq!(derived.len(), 1);
    let coord = ms("2026-07-21T13:56:22.253367Z");
    let send0 = ms("2026-07-21T13:56:22.421870Z");
    assert_eq!(derived[0].first, (coord, Some(send0)));
    assert_eq!(derived[0].meta.id, Some(0));
}

#[test]
fn a_proof_lines_queue_wait_does_not_shift_the_execution_items() {
    // A segment's proof line reports a large queue wait, but the execution items tile straight
    // from send to send regardless, so every sent segment keeps its full metering window. The
    // proof line still yields the segment's app item.
    let text = "\
2026-07-21T13:56:22.100000Z  INFO coordinate_parallel_prove{proof_id=ere-6f8d9d31213b4238b586606bc0e6bb19 prover_id=0 num_provers=16}: edge_worker::provers::sharded_app_prover::real_impl: Parallel coordinator: prover_id=0, num_provers=16, max_app_provers=2
2026-07-21T13:56:22.200000Z  INFO coordinate_parallel_prove{proof_id=ere-6f8d9d31213b4238b586606bc0e6bb19 prover_id=0 num_provers=16}: edge_worker::provers::sharded_app_prover::real_impl: Executor (parallel): sending segment 0 for proving
2026-07-21T13:56:22.806865Z  INFO app_consumer{proof_id=ere-6f8d9d31213b4238b586606bc0e6bb19 prover_id=0 consumer_idx=1}: edge_worker::provers::sharded_app_prover::real_impl: Consumer: proved segment 0: queue_wait=600ms, fastfwd=0ms, stark=384ms, prove=384ms
2026-07-21T13:56:22.990000Z  INFO coordinate_parallel_prove{proof_id=ere-6f8d9d31213b4238b586606bc0e6bb19 prover_id=0 num_provers=16}: edge_worker::provers::sharded_app_prover::real_impl: Executor (parallel): sending segment 16 for proving
";
    let items = items_of(text, "ere-6f8d9d31213b4238b586606bc0e6bb19");
    let derived: Vec<_> = items.iter().filter(|i| i.kind == EXECUTION).collect();
    assert_eq!(derived.len(), 2);
    let coord = ms("2026-07-21T13:56:22.100000Z");
    let send0 = ms("2026-07-21T13:56:22.200000Z");
    let send16 = ms("2026-07-21T13:56:22.990000Z");
    // The 600ms queue wait does not move segment 16's start off send 0.
    assert_eq!(derived[0].first, (coord, Some(send0)));
    assert_eq!(derived[0].meta.id, Some(0));
    assert_eq!(derived[1].first, (send0, Some(send16)));
    assert_eq!(derived[1].meta.id, Some(16));
}

#[test]
fn no_item_derives_without_the_announcement_or_without_a_send() {
    // A worker whose announcement line the capture dropped derives nothing from its sends, and
    // a worker that announced but sent no segment derives nothing either.
    let send_only = "2026-07-21T13:56:22.421870Z  INFO coordinate_parallel_prove{proof_id=ere-6f8d9d31213b4238b586606bc0e6bb19 prover_id=0 num_provers=16}: edge_worker::provers::sharded_app_prover::real_impl: Executor (parallel): sending segment 0 for proving";
    assert!(items_of(send_only, "ere-6f8d9d31213b4238b586606bc0e6bb19").is_empty());

    let announcement_only = "2026-07-21T13:56:22.192354Z  INFO coordinate_parallel_prove{proof_id=ere-6f8d9d31213b4238b586606bc0e6bb19 prover_id=0 num_provers=16}: edge_worker::provers::sharded_app_prover::real_impl: Parallel coordinator: prover_id=0, num_provers=16, max_app_provers=2";
    assert!(items_of(announcement_only, "ere-6f8d9d31213b4238b586606bc0e6bb19").is_empty());
}

#[test]
fn a_vm_setup_line_is_skipped() {
    // Newer builds print per-step VM setup timings during execution. The line carries no
    // completion anchor, so it parses without error and produces nothing.
    let line = "2026-07-21T13:56:22.410000Z  INFO coordinate_parallel_prove{proof_id=ere-6f8d9d31213b4238b586606bc0e6bb19 prover_id=0 num_provers=16}: edge_worker::provers::sharded_app_prover::real_impl: VM setup: input_read=12ms, stdin=3ms, metered_ctx=1ms, vm_state=30ms, snapshot_clone=170ms, total=220ms";
    let mut items = BTreeMap::new();
    let mut announcements = BTreeMap::new();
    let mut sends = BTreeMap::new();
    let mut writes = BTreeMap::new();
    parse_worker(
        line,
        "node1",
        &mut items,
        &mut announcements,
        &mut sends,
        &mut writes,
    )
    .unwrap();
    assert!(
        items.is_empty() && announcements.is_empty() && sends.is_empty() && writes.is_empty()
    );
}

#[test]
fn worker_an_anchored_line_that_fails_its_pattern_is_fatal() {
    // A reworded timing field must fail the parse rather than silently drop the item.
    let line = "2026-07-21T13:56:24.477882Z  INFO app_consumer{proof_id=ere-6f8d prover_id=0 consumer_idx=1}: edge_worker::provers::sharded_app_prover::real_impl: Consumer: proved segment 16: wait=0ms, fastfwd=4ms, stark=1483ms, total=1487ms";
    let mut items = BTreeMap::new();
    let mut announcements = BTreeMap::new();
    let mut sends = BTreeMap::new();
    let mut writes = BTreeMap::new();
    let err = parse_worker(
        line,
        "node1",
        &mut items,
        &mut announcements,
        &mut sends,
        &mut writes,
    )
    .expect_err("the reworded line must fail");
    assert!(matches!(err, ParseError::UnrecognizedWorkerLine(_)));
}

#[test]
fn progress_and_telemetry_lines_are_skipped() {
    // Segment start markers, streaming notices, and the GPU memory telemetry carry no
    // completion anchor and produce nothing.
    let text = "\
2026-07-21T13:56:21.706034Z  INFO edge_worker::prover_pool: Dispatched app job to slot=0
2026-07-21T13:56:22.421906Z  INFO coordinate_parallel_prove{proof_id=ere-6f8d prover_id=0 num_provers=16}: edge_worker::provers::sharded_app_prover::real_impl: Coordinator-consumer: proving segment 0
2026-07-21T13:56:22.806881Z  INFO edge_worker::handlers: Streaming result 1 for proof ere-6f8d (worker_id=0)
2026-07-21T13:56:24.477871Z  INFO app_consumer{proof_id=ere-6f8d prover_id=0 consumer_idx=1}:stark_prove_excluding_trace{phase=\"prover\"}: openvm_cuda_common::memory_manager: GPU mem: used=-2.6 GiB, current=3.5 GiB, peak=9.0 GiB, in pool=17.0 GiB (prover.prove_whir_opening)
";
    let mut items = BTreeMap::new();
    let mut announcements = BTreeMap::new();
    let mut sends = BTreeMap::new();
    let mut writes = BTreeMap::new();
    parse_worker(
        text,
        "node1",
        &mut items,
        &mut announcements,
        &mut sends,
        &mut writes,
    )
    .unwrap();
    assert!(
        items.is_empty() && announcements.is_empty() && sends.is_empty() && writes.is_empty()
    );
}
