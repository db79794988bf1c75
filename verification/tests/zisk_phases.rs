//! The phase windows of the zisk nodes.

use tools::log::{NodeEndKind, Ts};
use tools::zisk::phases::{stage_windows, worker_node_end};
use tools::zisk::worker::WorkerStages;

fn ts(value: &str) -> Option<Ts> {
    Some(Ts::parse(value).unwrap())
}

#[test]
fn clean_windows_come_straight_from_the_markers() {
    let s = WorkerStages {
        contribution_start: ts("2026-05-29T00:00:00.100Z"),
        emulation_start: ts("2026-05-29T00:00:01.000Z"),
        emulation_end: ts("2026-05-29T00:00:02.000Z"),
        witgen_start: ts("2026-05-29T00:00:02.500Z"),
        witgen_end: ts("2026-05-29T00:00:04.000Z"),
        prove_start: ts("2026-05-29T00:00:05.000Z"),
        prove_end: ts("2026-05-29T00:00:09.000Z"),
        ..Default::default()
    };
    // Input transfer runs from the coordinator job start to the contribution start.
    let job_start = Ts::parse("2026-05-29T00:00:00.000Z").unwrap().epoch_ms();
    let w = stage_windows(Some(&s), i64::MAX, Some(job_start), None);
    // Each phase spans its own markers and the phases may leave a gap between them.
    assert!(w[0].is_some() && w[1].is_some() && w[2].is_some() && w[3].is_some());
    // A non-aggregator carries no aggregate window.
    assert!(w[4].is_none());
}

#[test]
fn an_unfinished_phase_clips_to_the_cap() {
    let s = WorkerStages {
        contribution_start: ts("2026-05-29T00:00:00.100Z"),
        emulation_start: ts("2026-05-29T00:00:01.000Z"),
        emulation_end: None, // crashed mid-emulation
        ..Default::default()
    };
    let job_start = Ts::parse("2026-05-29T00:00:00.000Z").unwrap().epoch_ms();
    let cap = Ts::parse("2026-05-29T00:00:03.000Z").unwrap().epoch_ms();
    let w = stage_windows(Some(&s), cap, Some(job_start), None);
    // Emulation runs from its start to the cap, and the later phases were never reached.
    assert_eq!(w[1].map(|(_, e)| e), Some(cap));
    assert!(w[2].is_none() && w[3].is_none());
}

#[test]
fn worker_end_prefers_the_freeze_and_the_own_cancellation_time() {
    // A crashed node ends at its freeze, the last line it emitted, not at any later coordinator
    // time.
    let crashed = WorkerStages {
        witgen_start: ts("2026-05-29T00:00:05.000Z"),
        last_activity: ts("2026-05-29T00:00:19.700Z"),
        crashed: true,
        ..Default::default()
    };
    let end = worker_node_end(&crashed).expect("a crashed node has an end");
    assert_eq!(end.kind, NodeEndKind::Crashed);
    assert_eq!(
        end.at_ms,
        Ts::parse("2026-05-29T00:00:19.700Z").unwrap().epoch_ms()
    );

    // A cancelled sibling ends at its own cancellation line.
    let cancelled = WorkerStages {
        witgen_start: ts("2026-05-29T00:00:05.000Z"),
        cancelled_at: ts("2026-05-29T00:00:23.700Z"),
        ..Default::default()
    };
    let end = worker_node_end(&cancelled).expect("a cancelled node has an end");
    assert_eq!(end.kind, NodeEndKind::Cancelled);
    assert_eq!(
        end.at_ms,
        Ts::parse("2026-05-29T00:00:23.700Z").unwrap().epoch_ms()
    );

    // A node told to stop that then died anyway in the same job is crashed at its freeze, not
    // hidden behind the earlier cancellation.
    let cancelled_then_crashed = WorkerStages {
        cancelled_at: ts("2026-05-29T00:00:05.400Z"),
        last_activity: ts("2026-05-29T00:00:06.100Z"),
        crashed: true,
        ..Default::default()
    };
    let end = worker_node_end(&cancelled_then_crashed).expect("an end");
    assert_eq!(end.kind, NodeEndKind::Crashed);
    assert_eq!(
        end.at_ms,
        Ts::parse("2026-05-29T00:00:06.100Z").unwrap().epoch_ms()
    );

    // A node the worker log shows neither cancelling nor crashing yields no worker end.
    let clean = WorkerStages {
        prove_end: ts("2026-05-29T00:00:09.000Z"),
        ..Default::default()
    };
    assert!(worker_node_end(&clean).is_none());
}
