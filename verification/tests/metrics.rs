//! The zkevm-metrics archive.

use serde_json::Value;
use tools::error::ParseError;
use tools::metrics::{
    split_name_version, Hardware, MetricBlock, MetricStatus, MetricsMeta, RawCrashed, RawGpu,
    RawHardware, RawMetadata, RawMetric, RawProving, RawSuccess,
};

fn string(value: &Value, key: &str) -> Option<String> {
    value.get(key).and_then(Value::as_str).map(str::to_string)
}

fn number(value: &Value, key: &str) -> Option<u64> {
    value.get(key).and_then(Value::as_u64)
}

/// Parses one metric document.
fn parse_metric_json(file_stem: &str, text: &str) -> Result<MetricBlock, ParseError> {
    let value: Value = serde_json::from_str(text).unwrap();
    let raw = RawMetric {
        name: string(&value, "name"),
        timestamp_completed: string(&value, "timestamp_completed"),
        metadata: value.get("metadata").map(|metadata| RawMetadata {
            block_used_gas: number(metadata, "block_used_gas"),
            original_test_name: string(metadata, "original_test_name"),
        }),
        proving: value.get("proving").map(|proving| RawProving {
            success: proving.get("success").map(|success| RawSuccess {
                proof_size: number(success, "proof_size"),
                proving_time_ms: number(success, "proving_time_ms"),
                verification_time_ms: number(success, "verification_time_ms"),
            }),
            crashed: proving.get("crashed").map(|crashed| RawCrashed {
                reason: string(crashed, "reason"),
            }),
        }),
    };
    tools::metrics::parse_metric_json(file_stem, raw)
}

/// Parses a hardware document.
fn parse_hardware_json(text: &str) -> Result<Hardware, ParseError> {
    let value: Value = serde_json::from_str(text).unwrap();
    let gpus = value.get("gpus").and_then(Value::as_array);
    Ok(tools::metrics::parse_hardware_json(RawHardware {
        cpu_model: string(&value, "cpu_model"),
        total_ram_gib: number(&value, "total_ram_gib"),
        gpus: gpus
            .map(|gpus| {
                gpus.iter()
                    .map(|gpu| RawGpu {
                        model: string(gpu, "model").unwrap(),
                    })
                    .collect()
            })
            .unwrap_or_default(),
    }))
}

const HARDWARE_SAMPLE: &str = r#"{
  "cpu_model": "AMD Ryzen Threadripper PRO 9975WX 32-Cores",
  "total_ram_gib": 125,
  "gpus": [
    { "model": "NVIDIA GeForce RTX 5090" },
    { "model": "NVIDIA GeForce RTX 5090" },
    { "model": "NVIDIA GeForce RTX 5090" },
    { "model": "NVIDIA GeForce RTX 5090" }
  ]
}"#;

#[test]
fn parses_cpu_ram_and_gpu_models() {
    let hw = parse_hardware_json(HARDWARE_SAMPLE).unwrap();
    assert_eq!(
        hw.cpu_model.as_deref(),
        Some("AMD Ryzen Threadripper PRO 9975WX 32-Cores")
    );
    assert_eq!(hw.total_ram_gib, Some(125));
    assert_eq!(hw.gpu_models.len(), 4);
    assert_eq!(hw.gpu_models[0], "NVIDIA GeForce RTX 5090");
}

#[test]
fn tolerates_missing_fields() {
    let hw = parse_hardware_json("{}").unwrap();
    assert_eq!(hw.cpu_model, None);
    assert_eq!(hw.total_ram_gib, None);
    assert!(hw.gpu_models.is_empty());
}

#[test]
fn splits_name_from_trailing_version() {
    assert_eq!(
        split_name_version("zisk-eth-client-reth-v0.9.0"),
        (
            "zisk-eth-client-reth".to_string(),
            Some("v0.9.0".to_string())
        )
    );
    assert_eq!(
        split_name_version("zisk-v0.18.0"),
        ("zisk".to_string(), Some("v0.18.0".to_string()))
    );
}

#[test]
fn split_keeps_whole_token_without_version_suffix() {
    assert_eq!(
        split_name_version("plain-guest"),
        ("plain-guest".to_string(), None)
    );
}

#[test]
fn splits_name_from_trailing_short_sha_when_no_version() {
    assert_eq!(
        split_name_version("reth-c5dff62"),
        ("reth".to_string(), Some("c5dff62".to_string()))
    );
    assert_eq!(
        split_name_version("ethrex-e8860d2"),
        ("ethrex".to_string(), Some("e8860d2".to_string()))
    );
    assert_eq!(
        split_name_version("openvm-8f86342"),
        ("openvm".to_string(), Some("8f86342".to_string()))
    );
    // A token with neither a version nor a short-sha suffix keeps the whole token.
    assert_eq!(split_name_version("fixture"), ("fixture".to_string(), None));
    // A trailing segment shorter than seven hex characters is not a short sha, so no split.
    assert_eq!(
        split_name_version("reth-abc"),
        ("reth-abc".to_string(), None)
    );
}

#[test]
fn meta_from_dirs_splits_guest_and_version() {
    let meta = MetricsMeta::from_dirs(
        Some("zisk-eth-client-reth-v0.9.0".to_string()),
        Some("zisk-v0.18.0".to_string()),
    );
    assert_eq!(meta.guest.as_deref(), Some("zisk-eth-client-reth"));
    assert_eq!(meta.guest_version.as_deref(), Some("v0.9.0"));
    assert_eq!(meta.version.as_deref(), Some("v0.18.0"));
}

const SAMPLE: &str = r#"{
  "name": "rpc_block_25192300",
  "timestamp_completed": "2026-05-29T09:53:16.702288335Z",
  "metadata": { "block_used_gas": 29758135 },
  "proving": { "success": {
    "output_matched": true,
    "proof_size": 261313,
    "proving_time_ms": 7342,
    "verification_time_ms": 5
  } }
}"#;

#[test]
fn parses_success_fields() {
    let m = parse_metric_json("rpc_block_25192300", SAMPLE).unwrap();
    assert_eq!(m.name, "rpc_block_25192300");
    assert_eq!(m.status, MetricStatus::Success);
    assert_eq!(m.block_used_gas, Some(29758135));
    assert_eq!(m.proving_time_ms, Some(7342));
    assert_eq!(m.proof_size, Some(261313));
    assert_eq!(m.verification_time_ms, Some(5));
    assert!(m.timestamp_completed.is_some());
    assert!(m.crashed_nodes.is_empty());
    assert_eq!(m.crashed_job, None);
}

#[test]
fn prefers_the_original_test_name_from_metadata() {
    // The metadata's original test name is the block id when present, so the verbose archive
    // name field is overridden.
    let text = r#"{
      "name": "eest__mainnet_25580396__block0",
      "timestamp_completed": "2026-07-22T09:24:05.022795163Z",
      "metadata": { "block_used_gas": 12345, "original_test_name": "mainnet_25580396" },
      "proving": { "success": { "proof_size": 268071, "proving_time_ms": 903, "verification_time_ms": 13 } }
    }"#;
    let m = parse_metric_json("eest__mainnet_25580396__block0", text).unwrap();
    assert_eq!(m.name, "mainnet_25580396");
    assert_eq!(m.block_used_gas, Some(12345));
}

#[test]
fn keeps_a_long_fixture_name_verbatim() {
    let text = r#"{
      "name": "test_account_query.py::test_codecopy_benchmark[fork_Osaka-blockchain_test-code_size_0-mem_size_0-benchmark-gas-value_60M]",
      "timestamp_completed": "2026-06-02T06:33:26.997238738Z",
      "metadata": { "block_used_gas": 60000000 },
      "proving": { "success": { "proof_size": 261313, "proving_time_ms": 11669, "verification_time_ms": 5 } }
    }"#;
    let m = parse_metric_json("ignored-stem", text).unwrap();
    assert!(
        m.name
            .starts_with("test_account_query.py::test_codecopy_benchmark")
    );
    assert_eq!(m.status, MetricStatus::Success);
}

#[test]
fn classifies_a_connection_drop_crash_and_blames_its_node() {
    let text = r#"{
      "name": "test_arithmetic.py::test_mod[fork_Osaka]",
      "timestamp_completed": "2026-06-02T07:02:15.554527895Z",
      "proving": { "crashed": { "reason": "Cluster job b051e0b6-fc1b-4bf5-8b54-71f5111886a9 failed: JobStatusFailed { failure: Some(JobFailure { kind: Some(Execution(JobFailureExecution { reason: \"Worker WorkerId(node1) connection dropped\" })) }) }" } }
    }"#;
    let m = parse_metric_json("stem", text).unwrap();
    assert_eq!(m.status, MetricStatus::Crashed);
    assert_eq!(m.crashed_nodes, vec!["node1".to_string()]);
    assert_eq!(
        m.crashed_job.as_deref(),
        Some("b051e0b6-fc1b-4bf5-8b54-71f5111886a9")
    );
    assert_eq!(m.proving_time_ms, None);
    assert_eq!(m.proof_size, None);
}

#[test]
fn classifies_a_timeout_crash_from_the_reason_text() {
    let text = r#"{
      "name": "test_alt_bn128.py::test_alt_bn128[fork_Osaka]",
      "timestamp_completed": "2026-06-02T06:39:52.356076780Z",
      "proving": { "crashed": { "reason": "Cluster job ed343d4c-ded8-40e7-9bb0-385eb5ad0b03 failed: [Monitor] Phase Aggregate timed out for job JobId(ed343d4c) (100s > 100s)" } }
    }"#;
    let m = parse_metric_json("stem", text).unwrap();
    assert_eq!(m.status, MetricStatus::Timeout);
    // The aggregate timeout names no worker, so no node is blamed though the job id is known.
    assert!(m.crashed_nodes.is_empty());
    assert_eq!(
        m.crashed_job.as_deref(),
        Some("ed343d4c-ded8-40e7-9bb0-385eb5ad0b03")
    );
}

#[test]
fn unattributed_grpc_crash_blames_no_node_and_has_no_job() {
    let text = r#"{
      "name": "test_identity.py::test_identity_fixed_size[fork_Osaka]",
      "timestamp_completed": "2026-06-02T08:08:43.153770574Z",
      "proving": { "crashed": { "reason": "Cluster gRPC error: code: 'Internal error', message: \"An internal error occurred\"" } }
    }"#;
    let m = parse_metric_json("stem", text).unwrap();
    assert_eq!(m.status, MetricStatus::Crashed);
    assert!(m.crashed_nodes.is_empty());
    assert_eq!(m.crashed_job, None);
}

#[test]
fn falls_back_to_stem_when_name_absent() {
    let m =
        parse_metric_json("test", r#"{"timestamp_completed":"2026-05-29T09:53:16Z"}"#).unwrap();
    assert_eq!(m.name, "test");
    // A file with no proving section at all is treated as a crash, never a silent success.
    assert_eq!(m.status, MetricStatus::Crashed);
    assert_eq!(m.proving_time_ms, None);
}
