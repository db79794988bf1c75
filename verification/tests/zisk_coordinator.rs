//! The zisk coordinator log.

use tools::error::ParseError;
use tools::log::{LogStatus, Reading};
use tools::zisk::coordinator::{leading_tag, parse, RawJob};

/// The seconds that a reading stands for.
fn seconds(reading: &Option<Reading>) -> Option<f64> {
    reading
        .as_ref()
        .map(|r| r.text.parse::<f64>().unwrap() / f64::from(r.per_second))
}

#[test]
fn reads_the_info_event_tag() {
    assert_eq!(
        leading_tag("2026-05-29T09:53:10Z INFO: [Phase1] Started with 4 workers").as_deref(),
        Some("Phase1")
    );
    assert_eq!(
        leading_tag("2026-05-29T09:53:16Z INFO: [Job] Finished JobId(JOBA) successfully").as_deref(),
        Some("Job")
    );
}

#[test]
fn ignores_untagged_other_level_and_preamble_lines() {
    // Untagged INFO line (the inline-input line carries no bracket tag).
    assert_eq!(
        leading_tag("2026-05-29T09:53:09Z INFO: Job JobId(JOBA) using inline input data").as_deref(),
        None
    );
    // A tag at DEBUG or any non-INFO level is not a data event line.
    assert_eq!(
        leading_tag("2026-05-29T09:53:18Z DEBUG: [Phase1] internal detail").as_deref(),
        None
    );
    // Container preamble lines have no timestamp and no tag.
    assert_eq!(leading_tag("== CUDA ==").as_deref(), None);
    assert_eq!(
        leading_tag("WARNING: The NVIDIA Driver was not detected.").as_deref(),
        None
    );
}

const NAMED: &str = "\
2026-05-29T09:53:09.335819Z INFO: [Job] Started JobId(JOBA) successfully Capacity: 40CU Workers: 4
2026-05-29T09:53:09.380450Z INFO: Job JobId(JOBA) using inline input data (8549632 bytes)
2026-05-29T09:53:10.000000Z INFO: [Phase1] Started with 4 workers for JobId(JOBA)
2026-05-29T09:53:12.283595Z INFO: [Phase1] WorkerId(node4) finished phase 1 for JobId(JOBA) (1/4 workers done, Phase: 2.947s, Delay: 0.057s, Witness: 2.225s, Asm Execution: 0.636s at 479.19495 MHz)
2026-05-29T09:53:13.000000Z INFO: [Phase2] Started with 4 workers for JobId(JOBA)
2026-05-29T09:53:15.821558Z INFO: [Phase2] WorkerId(node3) finished phase 2 for JobId(JOBA) (1 / 4 workers done, 3.269s)
2026-05-29T09:53:15.821539Z INFO: [Phase3] Assigned worker WorkerId(node3) as aggregator for job JobId(JOBA)
2026-05-29T09:53:16.678668Z INFO: [Phase3] WorkerId WorkerId(node3) done, phase 3 completed for JobId(JOBA) (0.305s)
2026-05-29T09:53:16.678680Z INFO: [Job] Finished JobId(JOBA) successfully \u{2714} Duration: 7.342s (3.216s+3.822s+0.305s) Steps: 304.964.424 Instances: 174 Capacity: 40CU
";

/// Parses a single line and returns the one job it produced.
fn one_job(line: &str) -> RawJob {
    let mut jobs = parse(line).expect("parse should succeed");
    assert_eq!(jobs.len(), 1, "expected exactly one job from: {line}");
    jobs.remove(0)
}

#[test]
fn parses_every_extracted_field_of_a_named_job() {
    let mut jobs = parse(NAMED).expect("parse should succeed");
    assert_eq!(jobs.len(), 1);
    let j = jobs.remove(0);
    assert_eq!(j.id, "JOBA");
    assert_eq!(j.status, LogStatus::Success);
    assert_eq!(j.input_bytes, Some(8549632));
    assert_eq!(j.instances, Some(174));
    assert_eq!(j.steps, Some(304964424));
    assert_eq!(seconds(&j.duration_s), Some(7.342));
    assert_eq!(j.aggregator.as_deref(), Some("node3"));
    assert!(j.t_start.is_some() && j.t_end.is_some());
    assert!(j.t_p3_start.is_some() && j.t_p3_end.is_some());

    assert_eq!(j.p1.len(), 1);
    assert_eq!(j.p1[0], "node4");

    assert_eq!(j.p2.len(), 1);
    assert_eq!(j.p2[0], "node3");
}

#[test]
fn phase2_finish_accepts_a_spaced_worker_count() {
    let j = one_job(
        "2026-05-29T09:53:15.821558Z INFO: [Phase2] WorkerId(node3) finished phase 2 for JobId(JOBA) (1 / 4 workers done, 3.269s)",
    );
    assert_eq!(j.p2.len(), 1);
    assert_eq!(j.p2[0], "node3");
}

#[test]
fn phase3_assignment_accepts_the_recurser_spelling() {
    // zisk 1.1.0 renamed the assigned phase-3 role from aggregator to recurser, so the newer
    // spelling must still name the node that carries the job's aggregate window.
    let j = one_job(
        "2026-08-18T14:26:01.618211Z INFO: [Phase3] Assigned worker WorkerId(node1) as recurser for job JobId(JOBA)",
    );
    assert_eq!(j.aggregator.as_deref(), Some("node1"));
    assert!(j.t_p3_start.is_some());
}

#[test]
fn failure_line_routes_through_untagged_and_is_captured() {
    // A failure line is ERROR level, so it routes as untagged even with a [Job] tag, and is
    // captured as a failure rather than failing the parse.
    let j = one_job(
        "2026-05-29T09:53:20.000000Z ERROR: [Job] JobId(JOBA) processing Failed after timeout",
    );
    assert_eq!(j.status, LogStatus::Failed);
    assert!(j.t_end.is_some());
}

#[test]
fn timed_out_line_is_captured_as_a_timeout() {
    // A timeout failure line is distinguished from a plain failure, so the timeout status
    // reaches the output rather than collapsing into a generic failure.
    let j = one_job("2026-05-29T09:53:20.000000Z ERROR: [Job] JobId(JOBA) timed out after 60s");
    assert_eq!(j.status, LogStatus::Timeout);
    assert!(j.t_end.is_some());
}

#[test]
fn failure_keyword_before_timeout_still_reads_as_a_timeout() {
    // The timeout is recognized wherever the word sits, so a failure-first line is not
    // downgraded to a generic failure.
    let j = one_job(
        "2026-05-29T09:53:20.000000Z ERROR: [Job] JobId(JOBA) Failed: worker timed out",
    );
    assert_eq!(j.status, LogStatus::Timeout);
}

// Uncovered tagged lines are fatal so a zisk format change cannot silently drop data, while
// missing lines remain tolerated.

#[test]
fn uncovered_data_tag_line_is_fatal() {
    // A renamed [Phase1] verb breaks the precise pattern, so the parse must fail loudly.
    let text = "2026-05-29T09:53:12.000000Z INFO: [Phase1] WorkerId(node4) COMPLETED phase 1 for JobId(JOBA)";
    let err = parse(text)
        .err()
        .expect("the uncovered line must fail the parse");
    let ParseError::UnrecognizedCoordinatorLine(line) = err else {
        panic!("expected UnrecognizedCoordinatorLine, got {err:?}");
    };
    assert!(
        line.contains("COMPLETED phase 1"),
        "offending line in error: {line}"
    );
}

#[test]
fn brand_new_tag_is_fatal() {
    let text = "2026-05-29T09:53:12.000000Z INFO: [Phase4] new stage emitted for JobId(JOBA)";
    let err = parse(text).err().expect("the new tag must fail the parse");
    assert!(
        matches!(&err, ParseError::UnrecognizedCoordinatorLine(line) if line.contains("[Phase4]")),
        "expected UnrecognizedCoordinatorLine naming the new tag, got {err:?}"
    );
}

#[test]
fn missing_lines_are_tolerated() {
    // A job that reports only a start and finish, with no per-worker phase lines, still parses.
    let text = "\
2026-05-29T09:53:09.335819Z INFO: [Job] Started JobId(JOBA) successfully Capacity: 40CU Workers: 4
2026-05-29T09:53:16.678680Z INFO: [Job] Finished JobId(JOBA) successfully \u{2714} Duration: 7.342s (3.216s+3.822s+0.305s) Steps: 304.964.424 Instances: 174 Capacity: 40CU
";
    let jobs = parse(text).expect("parse should succeed");
    assert_eq!(jobs.len(), 1);
    assert_eq!(jobs[0].status, LogStatus::Success);
    assert!(jobs[0].p1.is_empty() && jobs[0].p2.is_empty());
}

#[test]
fn recognized_non_data_lines_parse_without_error() {
    // Informational [Job] lines, the [Coordinator] and [Setup] tags, untagged lines, DEBUG
    // lines, and the container preamble are recognized as non-data, so the parse yields no job.
    let text = "\
==========
== CUDA ==
WARNING: The NVIDIA Driver was not detected.

2026-05-29T09:53:09.000000Z INFO: [Coordinator] Registrations: 4 Reconnections: 0
2026-05-29T09:53:09.000000Z INFO: [Setup] All workers acknowledged setup for job_id abc
2026-05-29T09:53:11.000000Z INFO: [Job] Contributions ASM for JobId(JOBA) - Avg: 0.5s, Best: node4
2026-05-29T09:53:11.000000Z INFO: [Job] Prove Performance for JobId(JOBA) - Avg: 3.0s, Best: node3
2026-05-29T09:53:11.000000Z INFO: Worker WorkerId(node4) Ready (total: 4 CC: 40CU ACC: 40CU)
2026-05-29T09:53:18.000000Z DEBUG: [Phase1] internal scheduler detail for JobId(JOBA)
";
    let jobs = parse(text).expect("parse should succeed");
    assert!(
        jobs.is_empty(),
        "recognized non-data lines must not create a job"
    );
}
