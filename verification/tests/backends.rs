//! Detection and presets of the backends.

use tools::openvm::{detect_openvm, openvm_phases};
use tools::zisk::detect_zisk;
use tools::zkvm::strip_ansi;

#[test]
fn strips_ansi_escapes() {
    let dirty = "\x1b[2m2026-05-29T09:53:15.822529Z\x1b[0m \x1b[32mINFO\x1b[0m: hello";
    assert_eq!(strip_ansi(dirty), "2026-05-29T09:53:15.822529Z INFO: hello");
}

#[test]
fn leaves_clean_text_untouched() {
    assert_eq!(strip_ansi("no escapes here"), "no escapes here");
}



#[test]
fn detects_zisk_coordinator_marker() {
    assert!(detect_zisk(
        "2026-05-29T09:51:19Z INFO: zisk-coordinator listening on 0.0.0.0:7000"
    ));
    assert!(!detect_zisk(
        "2026-05-29T09:51:19Z INFO: some other coordinator"
    ));
}



#[test]
fn the_phase_preset_marks_the_overlapping_phases() {
    let named: Vec<(String, String, bool)> = openvm_phases()
        .into_iter()
        .map(|p| (p.name, p.label, p.overlap))
        .collect();
    let expected = [
        ("input", "Input Transfer", false),
        ("metered_execution", "Metered Execution", true),
        ("segment", "Segment", true),
        ("recursion", "Recursion", true),
        ("wrap", "Wrap", false),
    ]
    .map(|(name, label, overlap)| (name.to_string(), label.to_string(), overlap));
    assert_eq!(named, expected);
}

#[test]
fn detects_the_edge_manager_target() {
    assert!(detect_openvm(
        "2026-07-21T13:54:44.352947Z  INFO edge_manager: Starting Edge Manager on 0.0.0.0:3000"
    ));
    assert!(!detect_openvm(
        "2026-05-29T09:51:19Z INFO: zisk-coordinator listening on 0.0.0.0:7000"
    ));
}
