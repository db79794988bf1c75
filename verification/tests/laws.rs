//! What holds across reads, on given logs.

use tools::lines::scrub;
use tools::log::{PipelineItem, Ts};
use tools::openvm::worker::{parse_worker, WorkerData};
use tools::run::{run, PlannedRun};
use tools::text_map::TextMap;
use tools::zisk::kinds::zisk_pipeline;
use tools::zisk::pipeline::parse;
use tools::zisk::worker::{parse_stages, WorkerStages};

fn chars(text: &str) -> Vec<char> {
    text.chars().collect()
}

fn ms(value: &str) -> i64 {
    Ts::parse(value).unwrap().epoch_ms()
}

type Items = TextMap<TextMap<Vec<PipelineItem>>>;
type Shape = (usize, (i64, Option<i64>), Option<(i64, Option<i64>)>);

fn shapes(items: &[PipelineItem]) -> Vec<Shape> {
    items
        .iter()
        .map(|item| (item.kind, item.first, item.second))
        .collect()
}

fn all_shapes(map: &Items) -> Vec<(Vec<char>, Vec<char>, Vec<Shape>)> {
    let mut all = Vec::new();
    for i in 0..map.len() {
        let nodes = map.value_at(i);
        for j in 0..nodes.len() {
            all.push((
                map.key_at(i).to_vec(),
                nodes.key_at(j).to_vec(),
                shapes(nodes.value_at(j)),
            ));
        }
    }
    all
}

const PIPELINE_LOG: &str = "\
2026-06-02T06:36:19.000000Z executor::executor INFO: >>> PLAN
2026-06-02T06:36:19.500000Z executor::executor INFO: <<< PLAN (500ms)
2026-06-02T06:36:20.000000Z zisk_worker::worker_node INFO: Starting Partial Contribution for aaaa1111-0000
2026-06-02T06:36:20.500000Z proofman::proofman DEBUG: >>> NOT_A_LISTED_STEM_7 [0:1]
2026-06-02T06:36:21.000000Z proofman::proofman DEBUG: >>> GENERATING_WC_2 [0:12]
2026-06-02T06:36:21.500000Z proofman::proofman DEBUG: <<< GENERATING_WC_2 [0:12] (500ms)
2026-06-02T06:36:21.600000Z proofman::proofman DEBUG: >>> GET_CONTRIBUTION_AIR_2 [0:12]
2026-06-02T06:36:21.700000Z executor::executor INFO: >>> PLAN
2026-06-02T06:36:22.000000Z zisk_worker::worker_node INFO: Starting Prove for JobId(aaaa1111-0000)
2026-06-02T06:36:23.000000Z zisk_worker::worker_node INFO: Starting Partial Contribution for bbbb2222-0000
ZisK Worker v0.18.0
";

#[test]
fn a_second_pipeline_parse_changes_nothing() {
    let mut map: Items = TextMap::new();
    parse(PIPELINE_LOG, "node1", &mut map).unwrap();
    let first = all_shapes(&map);
    assert_eq!(first.len(), 2);
    parse(PIPELINE_LOG, "node1", &mut map).unwrap();
    assert_eq!(all_shapes(&map), first);
}

#[test]
fn markers_before_any_job_and_unlisted_stems_leave_no_item() {
    let mut map: Items = TextMap::new();
    parse(PIPELINE_LOG, "node1", &mut map).unwrap();
    let own = map.get(&chars("aaaa1111")).unwrap().get(&chars("node1")).unwrap();
    // The pair whose compute half dangles, and the dangling plan: neither the plan before the job
    // nor the unlisted stem is there.
    let pair = (
        2,
        (ms("2026-06-02T06:36:21.000Z"), Some(ms("2026-06-02T06:36:21.500Z"))),
        Some((ms("2026-06-02T06:36:21.600Z"), None)),
    );
    let plan = (1, (ms("2026-06-02T06:36:21.700Z"), None), None);
    assert_eq!(shapes(own), vec![pair, plan]);

    let mut none: Items = TextMap::new();
    let before: String = PIPELINE_LOG.lines().take(2).map(|line| format!("{line}\n")).collect();
    parse(&before, "node1", &mut none).unwrap();
    assert_eq!(none.len(), 0);
}

#[test]
fn a_second_half_stands_on_a_paired_kind_with_a_closed_first_half() {
    let mut map: Items = TextMap::new();
    parse(PIPELINE_LOG, "node1", &mut map).unwrap();
    let kinds = zisk_pipeline();
    let mut pairs = 0;
    for (_, _, items) in all_shapes(&map) {
        for (kind, first, second) in items {
            if second.is_some() {
                pairs += 1;
                assert!(kinds[kind].paired && first.1.is_some());
            }
        }
    }
    assert_eq!(pairs, 1);
}

const STAGES_LOG: &str = "\
2026-06-03T00:28:50Z zisk_worker::worker_node INFO: Starting Partial Contribution for d177ea78-4a1f
2026-06-03T00:28:51Z executor::executor INFO: >>> COMPUTE_MINIMAL_TRACE
2026-06-03T00:28:55Z executor::executor INFO: <<< COMPUTE_MINIMAL_TRACE (4555ms)
ZisK Worker v0.18.0
2026-06-03T00:29:25Z zisk_worker::worker_node INFO: Starting Partial Contribution for 04bd25d2-65bf
2026-06-03T00:29:26Z zisk_worker::worker_node INFO: Job 04bd25d2-65bf cancelled: node4 crashed
";

fn stage_rows(stages: &TextMap<TextMap<WorkerStages>>) -> Vec<(Vec<char>, Vec<Option<i64>>, bool)> {
    let mut rows = Vec::new();
    for i in 0..stages.len() {
        let nodes = stages.value_at(i);
        for j in 0..nodes.len() {
            let own = nodes.value_at(j);
            let moments = [
                own.contribution_start,
                own.emulation_start,
                own.emulation_end,
                own.last_activity,
                own.cancelled_at,
            ];
            rows.push((
                stages.key_at(i).to_vec(),
                moments.iter().map(|at| at.map(Ts::epoch_ms)).collect(),
                own.crashed,
            ));
        }
    }
    rows
}

#[test]
fn a_second_stage_read_changes_nothing() {
    let mut stages = TextMap::new();
    parse_stages(STAGES_LOG, "node4", &mut stages).unwrap();
    let first = stage_rows(&stages);
    assert_eq!(first.len(), 2);
    parse_stages(STAGES_LOG, "node4", &mut stages).unwrap();
    assert_eq!(stage_rows(&stages), first);
}

#[test]
fn a_crash_stays_a_crash_and_no_entry_goes() {
    let mut stages = TextMap::new();
    parse_stages(STAGES_LOG, "node4", &mut stages).unwrap();
    let later = "2026-06-03T00:40:00Z zisk_worker::worker_node INFO: Starting Partial Contribution for d177ea78-4a1f\n";
    parse_stages(later, "node4", &mut stages).unwrap();
    let rows = stage_rows(&stages);
    assert_eq!(rows.len(), 2);
    assert_eq!(rows[1].0, chars("d177ea78"));
    assert!(rows[1].2);
}

fn worker_line(time: &str, what: &str) -> String {
    format!("{time}  INFO coordinate_parallel_prove{{proof_id=ere-aa prover_id=0 num_provers=2}}: edge_worker::provers::real_impl: {what}\n")
}

fn announcement(time: &str) -> String {
    worker_line(
        time,
        "Parallel coordinator: prover_id=0, num_provers=2, max_app_provers=1",
    )
}

fn send(time: &str, segment: u32) -> String {
    worker_line(
        time,
        &format!("Executor (parallel): sending segment {segment} for proving"),
    )
}

fn write(time: &str) -> String {
    worker_line(time, "Input file written to \"/tmp/edge_ere-aa/input.bin\"")
}

fn at(map: &TextMap<TextMap<i64>>, node: &str) -> Option<i64> {
    map.get(&chars("ere-aa"))?.get(&chars(node)).copied()
}

#[test]
fn a_worker_log_keeps_the_extreme_moments_of_its_node() {
    let first = announcement("2026-07-21T13:56:20Z")
        + &send("2026-07-21T13:56:24Z", 0)
        + &write("2026-07-21T13:56:19Z");
    let second = announcement("2026-07-21T13:56:18Z")
        + &send("2026-07-21T13:56:23Z", 0)
        + &write("2026-07-21T13:56:19.000001Z");
    let data = parse_worker(&first, "node1", WorkerData::new()).unwrap();
    let data = parse_worker(&announcement("2026-07-21T13:56:10Z"), "node2", data).unwrap();
    let data = parse_worker(&second, "node1", data).unwrap();
    assert_eq!(at(&data.announcements, "node1"), Some(ms("2026-07-21T13:56:18Z")));
    assert_eq!(at(&data.sends, "node1"), Some(ms("2026-07-21T13:56:24Z")));
    assert_eq!(
        at(&data.writes, "node1"),
        Some(ms("2026-07-21T13:56:19Z") * 1000 + 1)
    );
    // The other node's records stay as they were.
    assert_eq!(at(&data.announcements, "node2"), Some(ms("2026-07-21T13:56:10Z")));
    assert_eq!(at(&data.sends, "node2"), None);
}

#[test]
fn a_worker_log_appends_its_items() {
    let first = announcement("2026-07-21T13:56:20Z") + &send("2026-07-21T13:56:24Z", 0);
    let second = announcement("2026-07-21T13:56:21Z") + &send("2026-07-21T13:56:25Z", 0);
    let data = parse_worker(&first, "node1", WorkerData::new()).unwrap();
    let data = parse_worker(&second, "node1", data).unwrap();
    let own = data.items.get(&chars("ere-aa")).unwrap().get(&chars("node1")).unwrap();
    assert_eq!(
        shapes(own),
        vec![
            (0, (ms("2026-07-21T13:56:20Z"), Some(ms("2026-07-21T13:56:24Z"))), None),
            (0, (ms("2026-07-21T13:56:21Z"), Some(ms("2026-07-21T13:56:25Z"))), None),
        ]
    );
}

fn planned(plan: &[PlannedRun]) -> Vec<(String, bool, bool)> {
    plan.iter()
        .map(|run| (run.input.clone(), run.force, run.patch))
        .collect()
}

fn inputs(names: &[&str]) -> Vec<String> {
    names.iter().map(|name| name.to_string()).collect()
}

#[test]
fn many_inputs_are_planned_as_one_run_each() {
    let all = planned(&run(&inputs(&["x/c", "y/a", "z/b"]), true, false));
    let mut alone = planned(&run(&inputs(&["y/a"]), true, false));
    alone.extend(planned(&run(&inputs(&["z/b"]), false, true)));
    alone.extend(planned(&run(&inputs(&["x/c"]), false, true)));
    assert_eq!(all, alone);
    assert!(run(&Vec::new(), true, false).is_empty());
}

#[test]
fn the_order_of_distinct_inputs_does_not_matter() {
    let first = planned(&run(&inputs(&["x/c", "y/a", "z/b"]), false, true));
    let second = planned(&run(&inputs(&["z/b", "x/c", "y/a"]), false, true));
    assert_eq!(first, second);
}

#[test]
fn scrubbing_keeps_a_clean_message_and_settles_at_once() {
    let clean = "Asm Execution: 10.012s on gpu-node-03";
    assert_eq!(scrub(clean), clean);
    let once = scrub("zkevm-gpu-beast-03 at 10.1.2.3");
    assert_eq!(once, "gpu-node-03 at 10.0.0.1");
    assert_eq!(scrub(&once), once);
}

/// The end of the digits that begin at a position.
fn run_end(text: &[char], mut at: usize) -> usize {
    while at < text.len() && (text[at].is_ascii_digit() || text[at] == '\u{663}') {
        at += 1;
    }
    at
}

fn is_word(c: char) -> bool {
    c.is_ascii_alphanumeric() || c == '_' || c == '\u{663}' || c == '\u{e9}'
}

/// The end of the address that begins at a position.
fn address_end(text: &[char], at: usize) -> Option<usize> {
    if at > 0 && is_word(text[at - 1]) || !text[at..].starts_with(&['1', '0', '.']) {
        return None;
    }
    let mut end = at + 2;
    for _ in 0..3 {
        if end >= text.len() || text[end] != '.' {
            return None;
        }
        let next = run_end(text, end + 1);
        if !(1..=3).contains(&(next - end - 1)) {
            return None;
        }
        end = next;
    }
    (end == text.len() || !is_word(text[end])).then_some(end)
}

fn replaced(text: &[char]) -> String {
    let mut out = String::new();
    let mut at = 0;
    while at < text.len() {
        match address_end(text, at) {
            Some(end) => {
                out.push_str("10.0.0.1");
                at = end;
            }
            None => {
                out.push(text[at]);
                at += 1;
            }
        }
    }
    out
}

#[test]
fn addresses_are_words_of_four_parts() {
    for (msg, expected) in [
        ("(10.1.2.3)", "(10.0.0.1)"),
        ("-10.1.2.3-", "-10.0.0.1-"),
        ("10.10.1.2.3", "10.0.0.1.3"),
        ("10.2.10.1.2.3", "10.0.0.1.2.3"),
        ("10.1.2.3 10.255.0.17", "10.0.0.1 10.0.0.1"),
        ("10.1.2.3\u{663}", "10.0.0.1"),
        ("10.1.2", "10.1.2"),
        ("10.1.2.3456", "10.1.2.3456"),
        ("10.1234.1.1", "10.1234.1.1"),
        ("110.1.2.3", "110.1.2.3"),
        ("x10.1.2.3", "x10.1.2.3"),
        ("10.1.2.3_", "10.1.2.3_"),
        ("10.1.2.3\u{e9}", "10.1.2.3\u{e9}"),
        ("10.1.2.3zkevm-gpu-beast", "10.1.2.3gpu-node"),
        ("zkevm-gpu-beast10.1.2.3", "gpu-node10.1.2.3"),
    ] {
        assert_eq!(scrub(msg), expected, "{msg}");
        assert_eq!(scrub(expected), expected, "{msg}");
    }
}

#[test]
fn many_messages_are_scrubbed_as_their_addresses_say() {
    let tokens = [
        "10", "10.", ".", "1", "0", "255", "10.1.2", ".3", "a", "_", "-", " ", "\u{663}", "\u{e9}",
        "\u{2014}",
    ];
    let mut seed: u64 = 7;
    let address = tools::pattern::Pattern::new(tools::address::PRIVATE_IP_RE);
    for _ in 0..20_000 {
        let mut msg = String::new();
        seed = seed.wrapping_mul(6_364_136_223_846_793_005).wrapping_add(1_442_695_040_888_963_407);
        let count = (seed >> 60) as usize;
        for _ in 0..count {
            seed = seed.wrapping_mul(6_364_136_223_846_793_005).wrapping_add(1_442_695_040_888_963_407);
            msg.push_str(tokens[(seed >> 33) as usize % tokens.len()]);
        }
        let once = address.replace_all(&msg, "10.0.0.1");
        assert_eq!(once, replaced(&chars(&msg)), "{msg}");
        assert_eq!(address.replace_all(&once, "10.0.0.1"), once, "{msg}");
    }
}
