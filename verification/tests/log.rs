//! Timestamps and job keys.

use tools::log::{job_prefix, Ts};

#[test]
fn prefix_is_the_leading_hex_run() {
    assert_eq!(job_prefix("efd42874-b32d-4539"), "efd42874");
    assert_eq!(job_prefix("efd42874\u{2026}"), "efd42874");
}

#[test]
fn epoch_ms_difference_is_exact() {
    let base = Ts::parse("2026-05-29T10:00:00.000Z").unwrap();
    let later = Ts::parse("2026-05-29T10:00:05.500Z").unwrap();
    assert_eq!(later.epoch_ms() - base.epoch_ms(), 5500);
}

#[test]
fn microsecond_and_nanosecond_precision_truncate_to_ms() {
    let a = Ts::parse("2026-05-29T09:53:16.678680Z").unwrap();
    let b = Ts::parse("2026-05-29T09:53:16.702288335Z").unwrap();
    assert_eq!(b.epoch_ms() - a.epoch_ms(), 24);
}

#[test]
fn from_dmon_matches_equivalent_rfc3339() {
    let from_dmon = Ts::from_dmon("20260529", "09:51:25").unwrap();
    let reference = Ts::parse("2026-05-29T09:51:25Z").unwrap();
    assert_eq!(from_dmon.epoch_ms(), reference.epoch_ms());
}

#[test]
fn rejects_garbage() {
    assert!(Ts::parse("not a timestamp").is_err());
}
