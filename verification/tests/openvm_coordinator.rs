//! The openvm coordinator log.

use tools::error::ParseError;
use tools::log::{LogStatus, Reading, Ts};
use tools::openvm::coordinator::parse;

/// The seconds that a reading stands for.
fn seconds(reading: &Option<Reading>) -> Option<f64> {
    reading
        .as_ref()
        .map(|r| r.text.parse::<f64>().unwrap() / f64::from(r.per_second))
}

// Verbatim lines from a real run, one complete proof lifecycle with the high-volume scheduler
// and batching lines the parser skips.
const NAMED: &str = "\
2026-07-21T13:55:07.562820Z  INFO edge_manager::handlers: Staged input for proof ere-6f8d9d31213b4238b586606bc0e6bb19 (main=true, deferral_states=0, deferral_inputs=0)
2026-07-21T13:55:07.563047Z  INFO edge_manager::handlers: Starting Edge proof: proof_uuid=ere-6f8d9d31213b4238b586606bc0e6bb19, program=ere-d11a3ab751015b5e@v2290884206
2026-07-21T13:56:21.631436Z  INFO edge_manager::scheduler: init_proof ere-6f8d9d31213b4238b586606bc0e6bb19: 16 workers registered (16 app-eligible / normal-set)
2026-07-21T13:56:21.675074Z  INFO edge_manager::handlers: Successfully uploaded input to worker 0 for proof ere-6f8d9d31213b4238b586606bc0e6bb19
2026-07-21T13:56:21.705734Z  INFO edge_manager::handlers: Input fan-out complete for proof ere-6f8d9d31213b4238b586606bc0e6bb19: workers=16, bytes=6711680, elapsed=73ms
2026-07-21T13:56:21.706118Z  INFO edge_manager::handlers: Work sent to worker 8 for proof ere-6f8d9d31213b4238b586606bc0e6bb19: prover_id=8, num_provers=16
2026-07-21T13:56:22.809842Z  INFO edge_manager::handlers: Received result from worker 0: proof_uuid=ere-6f8d9d31213b4238b586606bc0e6bb19, kind=app
2026-07-21T13:56:22.809826Z  INFO edge_manager::proof_state::result_handler: Batch [0-3] not yet complete, missing segment 1
2026-07-21T13:56:23.676185Z  INFO edge_manager::proof_state::result_handler: Execute e2 done, cost: 0
2026-07-21T13:56:23.676207Z  INFO edge_manager::proof_state::result_handler: trigger_tail_proofs for proof ere-6f8d9d31213b4238b586606bc0e6bb19: num_segments=52, leaf_arity=4, internal_arity=3, num_leaf_proofs=13, num_internal_layers=3, effective_final_layer=2
2026-07-21T13:56:23.272492Z  INFO edge_manager::proof_state::result_handler: Batch [0-3] complete! Creating leaf proof request with 4 app proofs
2026-07-21T14:00:04.356336Z  INFO edge_manager::handlers: Sending leaf_prove work to worker 0 for proof ere-6f8d9d31213b4238b586606bc0e6bb19: segments=[20, 23], children=4, queue_wait=2ms
2026-07-21T13:56:26.354010Z  INFO edge_manager::handlers: Sending internal_prove work to worker 0 for proof ere-6f8d9d31213b4238b586606bc0e6bb19: layer=2, segments=[0, 51], children=2, is_final=true, queue_wait=1ms
2026-07-21T13:56:26.514833Z  INFO edge_manager::proof_state::result_handler: Proof ere-6f8d9d31213b4238b586606bc0e6bb19 is completed
2026-07-21T13:56:26.520021Z  INFO edge_manager::handlers: Persisted final proof ere-6f8d9d31213b4238b586606bc0e6bb19 to /var/tmp/openvm-final-proofs/ere-6f8d9d31213b4238b586606bc0e6bb19.proof.bin
2026-07-21T13:56:26.521188Z  INFO edge_manager::proof_state::metrics_report: Emitted metrics for proof ere-6f8d9d31213b4238b586606bc0e6bb19: e2e=4883ms, proving=4809ms, app=59885ms, leaf=3053ms, internal=1095ms, compress=69ms
2026-07-21T13:56:26.521449Z  INFO edge_manager::handlers: Proof ere-6f8d9d31213b4238b586606bc0e6bb19 reached terminal state Completed, cleaning up scheduler state
";

#[test]
fn coordinator_parses_every_extracted_field_of_a_named_job() {
    let mut jobs = parse(NAMED).expect("parse should succeed");
    assert_eq!(jobs.len(), 1);
    let j = jobs.remove(0);
    assert_eq!(j.id, "ere-6f8d9d31213b4238b586606bc0e6bb19");
    assert_eq!(j.status, LogStatus::Success);
    assert_eq!(j.input_bytes, Some(6711680));
    assert_eq!(j.num_segments, Some(52));
    assert_eq!(j.leaf_arity, Some(4));
    assert_eq!(seconds(&j.duration_s), Some(4.883));
    assert_eq!(
        j.t_start.map(Ts::epoch_ms),
        Some(Ts::parse("2026-07-21T13:55:07.563047Z").unwrap().epoch_ms())
    );
    assert_eq!(
        j.t_end.map(Ts::epoch_ms),
        Some(Ts::parse("2026-07-21T13:56:26.514833Z").unwrap().epoch_ms())
    );
    // The fan-out start is the completion timestamp minus the printed elapsed span, in
    // microseconds.
    let fanout_done = Ts::parse("2026-07-21T13:56:21.705734Z").unwrap().epoch_us();
    assert_eq!(j.fanout_start_us, Some(fanout_done - 73 * 1000));
}

#[test]
fn a_job_missing_its_start_line_still_parses() {
    // The lossy capture can drop any line, so a completion without a start yields a job whose
    // t_start stays unset.
    let text = "\
2026-07-21T13:56:26.514833Z  INFO edge_manager::proof_state::result_handler: Proof ere-aaaabbbbccccddddeeeeffff00001111 is completed
";
    let jobs = parse(text).expect("parse should succeed");
    assert_eq!(jobs.len(), 1);
    assert_eq!(jobs[0].status, LogStatus::Success);
    assert!(jobs[0].t_start.is_none() && jobs[0].t_end.is_some());
}

#[test]
fn a_failure_line_marks_the_job_failed() {
    let text = "\
2026-07-21T13:55:07.563047Z  INFO edge_manager::handlers: Starting Edge proof: proof_uuid=ere-aaaabbbbccccddddeeeeffff00001111, program=ere-d11a3ab751015b5e@v2290884206
2026-07-21T13:57:00.000000Z ERROR edge_manager::proof_state::result_handler: Proof ere-aaaabbbbccccddddeeeeffff00001111 failed at step leaf_prove: worker 3 returned 500
";
    let jobs = parse(text).expect("parse should succeed");
    assert_eq!(jobs.len(), 1);
    assert_eq!(jobs[0].status, LogStatus::Failed);
    assert!(jobs[0].t_end.is_some());
}

#[test]
fn coordinator_an_anchored_line_that_fails_its_pattern_is_fatal() {
    // A reworded field on a known line must fail the parse rather than silently zero the data.
    let text = "2026-07-21T13:56:21.705734Z  INFO edge_manager::handlers: Input fan-out complete for proof ere-6f8d: workers=16, total_bytes=6711680, elapsed=73ms";
    let err = parse(text).err().expect("the reworded line must fail");
    assert!(
        matches!(&err, ParseError::UnrecognizedCoordinatorLine(line) if line.contains("total_bytes")),
        "expected UnrecognizedCoordinatorLine, got {err:?}"
    );
}

#[test]
fn unknown_lines_are_skipped() {
    // Boot, registration, eviction, and scheduler lines carry no anchor and produce no job.
    let text = "\
2026-07-21T13:54:44.352947Z  INFO edge_manager: Starting Edge Manager on 0.0.0.0:3000
2026-07-21T13:55:05.923645Z  INFO edge_manager::handlers: Registering ere-d11a3ab751015b5e@v2290884206 with 16 worker(s) (3592648 ELF bytes)
2026-07-21T15:10:56.535332Z  INFO edge_manager::handlers: Evicting stale proof state: ere-3ef06174f66f4470aeba5ca75b768fdf
2026-07-21T13:56:21.631436Z  INFO edge_manager::scheduler: set_num_segments for ere-6f8d9d31213b4238b586606bc0e6bb19: num_segments=52, num_workers=16
";
    let jobs = parse(text).expect("parse should succeed");
    assert!(jobs.is_empty(), "unknown lines must not create a job");
}
