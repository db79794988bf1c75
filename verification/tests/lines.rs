//! The kept cluster-log lines.

use tools::input::WORKER_LOG_RE;
use tools::lines::{scrub, RawLine};
use tools::pattern::Pattern;

fn worker_log_re() -> regex::Regex {
    regex::Regex::new(WORKER_LOG_RE).unwrap()
}

fn worker_role(name: &str, digit: u32) -> String {
    tools::lines::worker_role(&Pattern::new(WORKER_LOG_RE).captures(name), digit)
}

fn parse_file(text: &str, role: &str, out: &mut Vec<RawLine>) {
    tools::lines::parse_file(text, role, out);
}

fn split_level(rest: &str) -> (String, String) {
    let chars: Vec<char> = rest.chars().collect();
    let (level, msg) = tools::lines::split_level(&chars);
    (level, msg.into_iter().collect())
}

#[test]
fn worker_log_name_maps_to_node_digit_and_role() {
    // A per-GPU worker log carries both the node digit and the GPU index in its role.
    let worker_log_re = worker_log_re();
    let caps = worker_log_re
        .captures("worker-2-gpu3.log")
        .expect("per-GPU worker log matches");
    let digit: u32 = caps.get(1).unwrap().as_str().parse().unwrap();
    assert_eq!(digit, 2);
    assert_eq!(worker_role("worker-2-gpu3.log", digit), "worker2-gpu3");
    // A plain worker log keeps its historical workerN role unchanged.
    let caps = worker_log_re
        .captures("worker-2.log")
        .expect("plain worker log matches");
    let digit: u32 = caps.get(1).unwrap().as_str().parse().unwrap();
    assert_eq!(digit, 2);
    assert_eq!(worker_role("worker-2.log", digit), "worker2");
    // The telemetry log is left to the dmon reader, so it is not a worker log.
    assert!(worker_log_re.captures("worker-2-dmon.log").is_none());
}

#[test]
fn every_level_is_kept_with_the_namespace_dropped() {
    let text = "2026-06-03T07:31:16.309734Z h2::codec::framed_read DEBUG: received\n\
                2026-06-03T07:31:16.315612Z zisk_worker INFO: Starting Contribution\n\
                2026-06-03T07:31:16.317884Z proofman::utils TRACE: span enter";
    let mut out: Vec<RawLine> = Vec::new();
    parse_file(text, "worker1", &mut out);
    let levels: Vec<&str> = out.iter().map(|l| l.level.as_str()).collect();
    // Every level is kept, so all three lines survive in order.
    assert_eq!(levels, vec!["debug", "info", "trace"]);
    // The module path before the level is dropped, so the message carries no namespace.
    assert_eq!(out[0].msg, "received");
    assert_eq!(out[1].msg, "Starting Contribution");
}

#[test]
fn a_tracing_fmt_line_keeps_its_span_and_target_context() {
    // The tracing fmt subscriber prints the level before the span and target with no colon, so
    // the level is read from the bare keyword and everything after it stays in the message.
    let text = "2026-07-21T13:56:22.806865Z  INFO coordinate_parallel_prove{proof_id=ere-6f8d prover_id=0 num_provers=16}: edge_worker::provers::sharded_app_prover::real_impl: Coordinator-consumer: proved segment 0: queue_wait=0ms, fastfwd=0ms, stark=384ms, prove=384ms";
    let mut out: Vec<RawLine> = Vec::new();
    parse_file(text, "worker1-gpu0", &mut out);
    assert_eq!(out.len(), 1);
    assert_eq!(out[0].level, "info");
    assert!(
        out[0]
            .msg
            .starts_with("coordinate_parallel_prove{proof_id=ere-6f8d"),
        "the span context survives in the message"
    );
}

#[test]
fn scrub_redacts_the_internal_ip_and_host_names() {
    assert_eq!(
        scrub("Connecting to coordinator at http://10.128.2.92:50051"),
        "Connecting to coordinator at http://10.0.0.1:50051"
    );
    assert_eq!(
        scrub("registered zkevm-gpu-beast-03"),
        "registered gpu-node-03"
    );
    // A duration that resembles a partial address is left untouched.
    assert_eq!(scrub("Asm Execution: 10.012s"), "Asm Execution: 10.012s");
}

#[test]
fn coordinator_line_splits_level_at_the_front() {
    let (level, msg) = split_level("INFO: [Job] Started JobId(abc)");
    assert_eq!(level, "info");
    assert_eq!(msg, "[Job] Started JobId(abc)");
}

#[test]
fn worker_line_drops_the_module_path_before_the_level() {
    let (level, msg) =
        split_level("zisk_worker::worker_node INFO: Starting Partial Contribution");
    assert_eq!(level, "info");
    assert_eq!(msg, "Starting Partial Contribution");
}

#[test]
fn a_level_word_inside_the_message_is_not_the_level() {
    let (level, msg) = split_level("mod WARN: contains the text ERROR: here");
    assert_eq!(level, "warn");
    assert_eq!(msg, "contains the text ERROR: here");
}

#[test]
fn an_unrecognized_level_defaults_to_debug() {
    let (level, msg) = split_level("panicked at src/main.rs");
    assert_eq!(level, "debug");
    assert_eq!(msg, "panicked at src/main.rs");
}
