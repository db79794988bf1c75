//! Archive names and the framing of documents.

use std::io::Read;

use tools::output::{archive_stem, compressed, read, write_log_archive};

#[test]
fn archive_stem_flattens_an_eest_id() {
    // An EEST test id carries a `::` between its file and test, which the stem replaces with a
    // double underscore so the archive is one flat file under the run directory, leaving the
    // bracketed parameters intact and never introducing a path separator.
    let name = "test_account_query.py::test_codecopy_benchmark[fork_Osaka-blockchain_test-code_size_0-mem_size_0-benchmark-gas-value_60M]";
    let stem = archive_stem(name);
    assert_eq!(
        stem,
        "test_account_query.py__test_codecopy_benchmark[fork_Osaka-blockchain_test-code_size_0-mem_size_0-benchmark-gas-value_60M]"
    );
    assert!(!stem.contains("::"), "the colon pair must not survive");
    assert!(
        !stem.contains('/'),
        "the stem stays a single flat file name"
    );
    assert!(stem.contains('['), "the bracketed parameters are preserved");
    assert!(stem.contains(']'), "the bracketed parameters are preserved");
}

#[test]
fn archive_stem_flattens_a_path_carrying_eest_id() {
    // An EEST v0.6.2 test id carries the fixture path before the file name, and the stem
    // replaces the path's separators with single underscores so the archive is one flat file
    // under the run directory.
    let name = "tests/benchmark/compute/instruction/test_stack.py::test_swap[fork_Amsterdam-blockchain_test-opcode_SWAP15-benchmark-gas-value_60M]";
    let stem = archive_stem(name);
    assert_eq!(
        stem,
        "tests_benchmark_compute_instruction_test_stack.py__test_swap[fork_Amsterdam-blockchain_test-opcode_SWAP15-benchmark-gas-value_60M]"
    );
    assert!(
        !stem.contains('/'),
        "the stem stays a single flat file name"
    );
}

#[test]
fn a_document_is_framed_by_its_path_alone() {
    assert!(compressed("data/bench.json.zstd"));
    assert!(compressed("data/bench.json.zst"));
    assert!(!compressed("data/bench.json"));
    assert!(!compressed("zstd"));
    assert!(!compressed(".zstd"));

    let text = br#"{"schema_version":1}"#.to_vec();
    let plain = tools::output::write("bench.json", text.clone()).unwrap();
    assert_eq!(plain, text, "a plain path holds the text as it is");
    assert_eq!(read("bench.json", plain), Some(text.clone()));

    let framed = tools::output::write("bench.json.zstd", text.clone()).unwrap();
    assert_ne!(framed, text, "a compressed path holds a frame");
    assert_eq!(framed[..4], [0x28, 0xb5, 0x2f, 0xfd]);
    // The frame declares the uncompressed size.
    assert_eq!(
        zstd::zstd_safe::get_frame_content_size(&framed).ok().flatten(),
        Some(text.len() as u64)
    );
    assert_eq!(read("bench.json.zstd", framed), Some(text.clone()));
    assert_eq!(read("bench.json.zstd", text), None, "plain text is no frame");
}

#[test]
fn a_log_archive_holds_the_one_member() {
    let json = br#"[{"role":"coordinator","time":0,"level":"info","msg":"hello"}]"#.to_vec();
    let bytes = write_log_archive(&json).unwrap();
    let gz = flate2::read::GzDecoder::new(bytes.as_slice());
    let mut archive = tar::Archive::new(gz);
    let mut entries = archive.entries().unwrap();
    let mut member = entries.next().unwrap().unwrap();
    assert_eq!(member.path().unwrap().to_str(), Some("log.json"));
    assert_eq!(member.header().mode().unwrap(), 0o644);
    let mut read_back = Vec::new();
    member.read_to_end(&mut read_back).unwrap();
    assert_eq!(read_back, json);
    assert!(entries.next().is_none());
}

#[test]
fn a_log_archive_depends_on_its_text_alone() {
    let json: Vec<u8> = (0..200_000u32).map(|i| (i.wrapping_mul(2_654_435_761) >> 24) as u8).collect();
    let bytes = write_log_archive(&json).unwrap();
    assert_eq!(write_log_archive(&json), Some(bytes.clone()));
    let mut tar = Vec::new();
    flate2::read::GzDecoder::new(bytes.as_slice()).read_to_end(&mut tar).unwrap();
    let mut builder = tar::Builder::new(Vec::new());
    let mut header = tar::Header::new_ustar();
    header.set_size(json.len() as u64);
    header.set_mode(0o644);
    header.set_cksum();
    builder.append_data(&mut header, "log.json", json.as_slice()).unwrap();
    assert_eq!(tar, builder.into_inner().unwrap());
    let other = write_log_archive(&Vec::new()).unwrap();
    assert_ne!(other, bytes);
}
