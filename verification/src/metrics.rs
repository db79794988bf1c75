//! Reads the zkevm-metrics archive of per-proof result files.
//!
//! Each file records one proof keyed solely by its name, which the archive guarantees unique, so no
//! block number is parsed from the file name and an arbitrary fixture name is carried verbatim. A
//! file reports a success or a crash section, and the crash reason is mined here for the terminal
//! status and blamed nodes.

use vstd::prelude::*;

use crate::error::{Failure, Result};
use crate::log::{ms_of, ts_read, Ts};
use crate::paths::{extension, extension_of, parts, parts_from, sorted_paths, sorted_paths_of};
use crate::pattern::{group_text, matched, matched_all, Groups, Pattern};
use crate::sort::{arranged, sort_places, stable_order};
use crate::text::{
    contains_piece, holds, is, is_digit, last_of, rfind, same, to_chars, to_text, views,
};

verus! {

/// Terminal outcome a metric file reports for one proof.
#[derive(Clone, Copy, PartialEq, Eq, Debug, Structural)]
pub enum MetricStatus {
    Success,
    Crashed,
    Timeout,
}

/// The wire text of an outcome.
pub open spec fn status_text(status: MetricStatus) -> Seq<char> {
    match status {
        MetricStatus::Success => "success"@,
        MetricStatus::Crashed => "crashed"@,
        MetricStatus::Timeout => "timeout"@,
    }
}

impl MetricStatus {
    /// The wire status string for benchmark.json.
    pub fn as_str(self) -> (text: &'static str)
        ensures
            text@ == status_text(self),
    {
        match self {
            MetricStatus::Success => "success",
            MetricStatus::Crashed => "crashed",
            MetricStatus::Timeout => "timeout",
        }
    }
}

/// One proof result read from a zkevm-metrics file.
///
/// The proof is identified solely by `name`. The proving figures are present only on success, and
/// the crash fields name the blamed nodes and the cluster job id that binds the crash to its log.
pub struct MetricBlock {
    pub name: String,
    pub status: MetricStatus,
    pub block_used_gas: Option<u64>,
    pub proving_time_ms: Option<u64>,
    pub proof_size: Option<u64>,
    pub verification_time_ms: Option<u64>,
    pub timestamp_completed: Option<Ts>,
    /// Node ids the crash reason blamed, in first-seen order, empty on success or an unattributed
    /// crash.
    pub crashed_nodes: Vec<String>,
    /// The cluster job id from the crash reason, the key that binds a crash to its log.
    pub crashed_job: Option<String>,
}

/// A proof result by the values it holds.
#[verifier::ext_equal]
pub struct MetricModel {
    pub name: Seq<char>,
    pub status: MetricStatus,
    pub block_used_gas: Option<u64>,
    pub proving_time_ms: Option<u64>,
    pub proof_size: Option<u64>,
    pub verification_time_ms: Option<u64>,
    pub timestamp_completed: Option<int>,
    pub crashed_nodes: Seq<Seq<char>>,
    pub crashed_job: Option<Seq<char>>,
}

impl DeepView for MetricBlock {
    type V = MetricModel;

    open spec fn deep_view(&self) -> MetricModel {
        MetricModel {
            name: self.name@,
            status: self.status,
            block_used_gas: self.block_used_gas,
            proving_time_ms: self.proving_time_ms,
            proof_size: self.proof_size,
            verification_time_ms: self.verification_time_ms,
            timestamp_completed: self.timestamp_completed.deep_view(),
            crashed_nodes: self.crashed_nodes.deep_view(),
            crashed_job: self.crashed_job.deep_view(),
        }
    }
}

/// Texts that may be absent, copied.
fn copy_texts(texts: &Vec<String>) -> (copy: Vec<String>)
    ensures
        copy.deep_view() == texts.deep_view(),
{
    let mut copy: Vec<String> = Vec::new();
    for i in 0..texts.len()
        invariant
            copy@.len() == i,
            forall|k: int|
                0 <= k < i ==> (#[trigger] copy@[k]).deep_view() == texts@[k].deep_view(),
    {
        copy.push(texts[i].clone());
    }
    assert(copy.deep_view() =~= texts.deep_view());
    copy
}

impl MetricBlock {
    /// A copy of the result.
    pub fn copy(&self) -> (copy: MetricBlock)
        ensures
            copy.deep_view() == self.deep_view(),
    {
        MetricBlock {
            name: self.name.clone(),
            status: self.status,
            block_used_gas: self.block_used_gas,
            proving_time_ms: self.proving_time_ms,
            proof_size: self.proof_size,
            verification_time_ms: self.verification_time_ms,
            timestamp_completed: self.timestamp_completed,
            crashed_nodes: copy_texts(&self.crashed_nodes),
            crashed_job: match &self.crashed_job {
                Some(job) => Some(job.clone()),
                None => None,
            },
        }
    }
}

/// A text in lower case, as `str::to_lowercase` writes it.
pub uninterp spec fn lowercase(text: Seq<char>) -> Seq<char>;

/// `str::to_lowercase` gives the lowercase equivalent of a text by Unicode's rules.
#[verifier::external_body]
fn to_lowercase(text: &str) -> (lower: String)
    ensures
        lower@ == lowercase(text@),
{
    text.to_lowercase()
}

/// The outcome that a crash reason in lower case names: a timeout when it carries a timeout marker.
/// The archive never flags a timeout itself, so the distinction is recovered from the reason text.
pub open spec fn crash_class(lower: Seq<char>) -> MetricStatus {
    if contains_piece(lower, "timed out"@) || contains_piece(lower, "timeout"@) {
        MetricStatus::Timeout
    } else {
        MetricStatus::Crashed
    }
}

/// The outcome that a crash reason in lower case names.
pub fn classify_lower(lower: &str) -> (status: MetricStatus)
    ensures
        status == crash_class(lower@),
{
    let lower: Vec<char> = to_chars(lower);
    if holds(lower.as_slice(), "timed out") || holds(lower.as_slice(), "timeout") {
        MetricStatus::Timeout
    } else {
        MetricStatus::Crashed
    }
}

/// Classifies a crash reason as a timeout when it carries a timeout marker, else a hard crash.
pub fn classify_crash(reason: &str) -> (status: MetricStatus)
    ensures
        status == crash_class(lowercase(reason@)),
{
    classify_lower(to_lowercase(reason).as_str())
}

/// Matches a WorkerId(node...) token in a crash reason, capturing the blamed node.
pub const WORKER_RE: &'static str = r"WorkerId\((?P<node>[^)]+)\)";

/// Matches a hyphenated uuid, the cluster job id a crash reason carries.
pub const UUID_RE: &'static str =
    r"[0-9a-fA-F]{8}-[0-9a-fA-F]{4}-[0-9a-fA-F]{4}-[0-9a-fA-F]{4}-[0-9a-fA-F]{12}";

/// The nodes that the first `count` matches name, each once, in first-seen order.
pub open spec fn nodes_named(all: Seq<Seq<Option<Seq<char>>>>, count: int) -> Seq<Seq<char>>
    decreases count,
{
    if count <= 0 {
        seq![]
    } else {
        let before = nodes_named(all, count - 1);
        let groups = all[count - 1];
        if 1 < groups.len() && groups[1] is Some && !before.contains(groups[1]->0) {
            before.push(groups[1]->0)
        } else {
            before
        }
    }
}

/// Whether a text is among a list of texts.
pub fn among(texts: &Vec<String>, text: &str) -> (found: bool)
    ensures
        found == texts.deep_view().contains(text@),
{
    let key: Vec<char> = to_chars(text);
    for i in 0..texts.len()
        invariant
            key@ == text@,
            forall|k: int| 0 <= k < i ==> #[trigger] texts.deep_view()[k] != text@,
    {
        let other: Vec<char> = to_chars(texts[i].as_str());
        assert(texts.deep_view()[i as int] == other@);
        if same(other.as_slice(), key.as_slice()) {
            return true;
        }
    }
    false
}

/// The nodes that matches of the worker pattern name, each once, in first-seen order.
pub fn unique_nodes(all: &Vec<Groups>) -> (nodes: Vec<String>)
    ensures
        nodes.deep_view() == nodes_named(all.deep_view(), all@.len() as int),
{
    let mut nodes: Vec<String> = Vec::new();
    assert(nodes.deep_view() =~= seq![]);
    for i in 0..all.len()
        invariant
            nodes.deep_view() == nodes_named(all.deep_view(), i as int),
    {
        assert(all.deep_view()[i as int] == all@[i as int]@);
        if all[i].took_part(1) {
            let node: String = all[i].text(1);
            if !among(&nodes, node.as_str()) {
                let ghost before = nodes.deep_view();
                nodes.push(node);
                assert(nodes.deep_view() =~= before.push(node@));
            }
        }
    }
    nodes
}

/// The nodes that a crash reason blames.
pub open spec fn blamed(reason: Seq<char>) -> Seq<Seq<char>> {
    let all = matched_all(WORKER_RE@, reason);
    nodes_named(all, all.len() as int)
}

/// Collects the unique node ids a crash reason blames, in first-seen order.
pub fn blamed_nodes(reason: &str) -> (nodes: Vec<String>)
    ensures
        nodes.deep_view() == blamed(reason@),
{
    unique_nodes(&Pattern::new(WORKER_RE).captures_all(reason))
}

/// The cluster job id that a crash reason carries.
pub open spec fn crash_job(reason: Seq<char>) -> Option<Seq<char>> {
    match matched(UUID_RE@, reason) {
        Some(groups) => Some(group_text(groups, 0)),
        None => None,
    }
}

fn find_job(reason: &str) -> (job: Option<String>)
    ensures
        job.deep_view() == crash_job(reason@),
{
    match Pattern::new(UUID_RE).captures(reason) {
        Some(groups) => Some(groups.text(0)),
        None => None,
    }
}

/// The shape of one metric file.
pub struct RawMetric {
    pub name: Option<String>,
    pub timestamp_completed: Option<String>,
    pub metadata: Option<RawMetadata>,
    pub proving: Option<RawProving>,
}

/// The metadata of a metric file.
pub struct RawMetadata {
    pub block_used_gas: Option<u64>,
    pub original_test_name: Option<String>,
}

/// The proving result, exactly one of success or crashed in a well-formed file.
pub struct RawProving {
    pub success: Option<RawSuccess>,
    pub crashed: Option<RawCrashed>,
}

/// The figures of a successful proof.
#[derive(Clone, Copy)]
pub struct RawSuccess {
    pub proof_size: Option<u64>,
    pub proving_time_ms: Option<u64>,
    pub verification_time_ms: Option<u64>,
}

/// The reason of a crash.
pub struct RawCrashed {
    pub reason: Option<String>,
}

/// The block id: the metadata's original test name, else the file's name field, else the file stem.
pub open spec fn block_name(raw: RawMetric, file_stem: Seq<char>) -> Seq<char> {
    match raw.metadata {
        Some(RawMetadata { original_test_name: Some(name), .. }) => name@,
        _ => match raw.name {
            Some(name) => name@,
            None => file_stem,
        },
    }
}

/// The success section of a file.
pub open spec fn success_of(raw: RawMetric) -> Option<RawSuccess> {
    match raw.proving {
        Some(proving) => proving.success,
        None => None,
    }
}

/// The crash reason of a file.
pub open spec fn reason_of(raw: RawMetric) -> Option<Seq<char>> {
    match raw.proving {
        Some(RawProving { crashed: Some(RawCrashed { reason: Some(reason) }), .. }) => Some(
            reason@,
        ),
        _ => None,
    }
}

/// What a crash reason says: the outcome, the blamed nodes, and the job.
pub open spec fn crash_of(reason: Seq<char>) -> (MetricStatus, Seq<Seq<char>>, Option<Seq<char>>) {
    (crash_class(lowercase(reason)), blamed(reason), crash_job(reason))
}

/// The result that a file's fields make, with what its crash reason says. A file carrying neither
/// section is a crash with no detail so it never poses as a success.
pub open spec fn result_of(
    raw: RawMetric,
    file_stem: Seq<char>,
    completed: Option<int>,
    crash: Option<(MetricStatus, Seq<Seq<char>>, Option<Seq<char>>)>,
) -> MetricModel {
    let success = success_of(raw);
    let (status, crashed_nodes, crashed_job) = match (success, crash) {
        (Some(_), _) => (MetricStatus::Success, seq![], None),
        (None, Some(crash)) => crash,
        (None, None) => (MetricStatus::Crashed, seq![], None),
    };
    MetricModel {
        name: block_name(raw, file_stem),
        status,
        block_used_gas: match raw.metadata {
            Some(metadata) => metadata.block_used_gas,
            None => None,
        },
        proving_time_ms: match success {
            Some(success) => success.proving_time_ms,
            None => None,
        },
        proof_size: match success {
            Some(success) => success.proof_size,
            None => None,
        },
        verification_time_ms: match success {
            Some(success) => success.verification_time_ms,
            None => None,
        },
        timestamp_completed: completed,
        crashed_nodes,
        crashed_job,
    }
}

/// What a crash reason says.
pub struct Crash {
    pub status: MetricStatus,
    pub nodes: Vec<String>,
    pub job: Option<String>,
}

/// What a crash reason says, by the values it holds.
pub open spec fn crash_view(crash: Option<Crash>) -> Option<
    (MetricStatus, Seq<Seq<char>>, Option<Seq<char>>),
> {
    match crash {
        Some(crash) => Some((crash.status, crash.nodes.deep_view(), crash.job.deep_view())),
        None => None,
    }
}

/// Builds the result of a metric file from its fields, its completion moment, and what its crash
/// reason says.
pub fn build_metric(
    raw: RawMetric,
    file_stem: &str,
    completed: Option<Ts>,
    crash: Option<Crash>,
) -> (block: MetricBlock)
    ensures
        block.deep_view() == result_of(
            raw,
            file_stem@,
            completed.deep_view(),
            crash_view(crash),
        ),
{
    let success: Option<RawSuccess> = match &raw.proving {
        Some(proving) => proving.success,
        None => None,
    };
    let (proof_size, proving_time_ms, verification_time_ms) = match success {
        Some(success) => (
            success.proof_size,
            success.proving_time_ms,
            success.verification_time_ms,
        ),
        None => (None, None, None),
    };
    let (status, crashed_nodes, crashed_job): (MetricStatus, Vec<String>, Option<String>) = match (
        success.is_some(),
        crash,
    ) {
        (true, _) => (MetricStatus::Success, Vec::new(), None),
        (false, Some(crash)) => (crash.status, crash.nodes, crash.job),
        // A file carrying neither section is treated as a crash with no detail so it never poses as
        // a success.
        (false, None) => (MetricStatus::Crashed, Vec::new(), None),
    };
    let (block_used_gas, test_name): (Option<u64>, Option<String>) = match raw.metadata {
        Some(metadata) => (metadata.block_used_gas, metadata.original_test_name),
        None => (None, None),
    };
    let name: String = match test_name {
        Some(name) => name,
        None => match raw.name {
            Some(name) => name,
            None => file_stem.to_string(),
        },
    };
    let block = MetricBlock {
        name,
        status,
        block_used_gas,
        proving_time_ms,
        proof_size,
        verification_time_ms,
        timestamp_completed: completed,
        crashed_nodes,
        crashed_job,
    };
    proof {
        let expected = result_of(raw, file_stem@, completed.deep_view(), crash_view(crash));
        assert(block.deep_view().crashed_nodes =~= expected.crashed_nodes);
    }
    block
}

/// The result of one metric file, or the error for a completion moment that is no timestamp.
pub open spec fn metric_read(raw: RawMetric, file_stem: Seq<char>) -> core::result::Result<
    MetricModel,
    Failure,
> {
    let crash = match reason_of(raw) {
        Some(reason) => Some(crash_of(reason)),
        None => None,
    };
    match raw.timestamp_completed {
        None => Ok(result_of(raw, file_stem, None, crash)),
        Some(value) => match ts_read(value@) {
            Ok(ns) => Ok(result_of(raw, file_stem, Some(ns), crash)),
            Err(failure) => Err(failure),
        },
    }
}

/// Parses one metric document, its fields given. The block id prefers the metadata's original test
/// name, falls back to the file's name field, and finally to the file stem.
pub fn parse_metric_json(file_stem: &str, raw: RawMetric) -> (parsed: Result<MetricBlock>)
    ensures
        match metric_read(raw, file_stem@) {
            Ok(expected) => parsed is Ok && parsed->Ok_0.deep_view() == expected,
            Err(failure) => parsed is Err && parsed->Err_0@ == failure,
        },
{
    let completed: Option<Ts> = match &raw.timestamp_completed {
        Some(value) => match Ts::parse(value.as_str()) {
            Ok(ts) => Some(ts),
            Err(error) => {
                return Err(error);
            },
        },
        None => None,
    };
    let crash: Option<Crash> = match &raw.proving {
        Some(proving) => match &proving.crashed {
            Some(crashed) => match &crashed.reason {
                Some(reason) => Some(
                    Crash {
                        status: classify_crash(reason.as_str()),
                        nodes: blamed_nodes(reason.as_str()),
                        job: find_job(reason.as_str()),
                    },
                ),
                None => None,
            },
            None => None,
        },
        None => None,
    };
    Ok(build_metric(raw, file_stem, completed, crash))
}

/// Whether a version begins at a place: "-v" immediately followed by a digit.
pub open spec fn version_at(token: Seq<char>, at: int) -> bool {
    &&& 0 <= at
    &&& at + 2 < token.len()
    &&& token[at] == '-'
    &&& token[at + 1] == 'v'
    &&& is_digit(token[at + 2])
}

/// The last of the first `count` places where a version begins.
pub open spec fn last_version(token: Seq<char>, count: int) -> Option<int>
    decreases count,
{
    if count <= 0 {
        None
    } else if version_at(token, count - 1) {
        Some(count - 1)
    } else {
        last_version(token, count - 1)
    }
}

/// Whether a text is a short git sha, seven or more lowercase hex characters.
pub open spec fn is_short_sha(text: Seq<char>) -> bool {
    text.len() >= 7 && forall|i: int|
        0 <= i < text.len() ==> is_digit(#[trigger] text[i]) || 'a' <= text[i] <= 'f'
}

/// The place of the hyphen before a trailing short git sha.
pub open spec fn sha_place(token: Seq<char>) -> Option<int> {
    match last_of(token, '-') {
        Some(at) => if is_short_sha(token.skip(at + 1)) {
            Some(at)
        } else {
            None
        },
        None => None,
    }
}

/// The place of the hyphen at which a token splits into a name and a version.
pub open spec fn split_place(token: Seq<char>) -> Option<int> {
    match last_version(token, token.len() as int) {
        Some(at) => Some(at),
        None => sha_place(token),
    }
}

/// The name and version parts of a token.
pub open spec fn name_and_version(token: Seq<char>) -> (Seq<char>, Option<Seq<char>>) {
    match split_place(token) {
        Some(at) => (token.take(at), Some(token.skip(at + 1))),
        None => (token, None),
    }
}

/// The place of the hyphen before a trailing short git sha, a suffix of seven or more lowercase hex
/// characters running to the token end. None when the last segment is not such a sha.
fn short_sha_split(token: &[char]) -> (place: Option<usize>)
    ensures
        match place {
            Some(at) => sha_place(token@) == Some(at as int) && at < token@.len(),
            None => sha_place(token@) is None,
        },
{
    let at: usize = match rfind(token, '-') {
        Some(at) => at,
        None => {
            return None;
        },
    };
    let len: usize = token.len();
    let suffix = &token[at + 1..len];
    assert(suffix@ =~= token@.skip(at + 1));
    if suffix.len() < 7 {
        return None;
    }
    for i in 0..suffix.len()
        invariant
            suffix@ == token@.skip(at + 1),
            last_of(token@, '-') == Some(at as int),
            forall|k: int|
                0 <= k < i ==> is_digit(#[trigger] suffix@[k]) || 'a' <= suffix@[k] <= 'f',
    {
        let c: char = suffix[i];
        if !(('0' <= c && c <= '9') || ('a' <= c && c <= 'f')) {
            assert(!(is_digit(suffix@[i as int]) || 'a' <= suffix@[i as int] <= 'f'));
            return None;
        }
    }
    Some(at)
}

/// Splits a name-vX.Y.Z token into its name and version parts at the last "-v" immediately followed
/// by a digit. Absent such a suffix, it falls back to a trailing "-<short sha>", a hyphen followed by
/// seven or more lowercase hex characters running to the token end, so a git-sha-suffixed token like
/// reth-c5dff62 yields name reth and version c5dff62. A token matching neither rule yields the whole
/// token as the name and no version.
pub fn split_name_version(token: &str) -> (parts: (String, Option<String>))
    ensures
        (parts.0@, parts.1.deep_view()) == name_and_version(token@),
{
    let chars: Vec<char> = to_chars(token);
    let token = chars.as_slice();
    let len: usize = token.len();
    let mut at: usize = len;
    let mut found: Option<usize> = None;
    while at > 0 && found.is_none()
        invariant
            len == token@.len(),
            at <= len,
            match found {
                Some(place) => last_version(token@, len as int) == Some(place as int) && place
                    < len,
                None => last_version(token@, len as int) == last_version(token@, at as int),
            },
        decreases at,
    {
        at -= 1;
        if len - at > 2 && token[at] == '-' && token[at + 1] == 'v' && '0' <= token[at + 2]
            && token[at + 2] <= '9' {
            found = Some(at);
        }
    }
    let place: Option<usize> = match found {
        Some(at) => Some(at),
        None => short_sha_split(token),
    };
    match place {
        Some(at) => {
            let name = &token[0..at];
            let version = &token[at + 1..len];
            assert(name@ =~= token@.take(at as int));
            assert(version@ =~= token@.skip(at + 1));
            (to_text(name), Some(to_text(version)))
        },
        None => (to_text(token), None),
    }
}

/// The guest, guest version, and zkVM version recovered from the metrics directory.
pub struct MetricsMeta {
    pub guest: Option<String>,
    pub guest_version: Option<String>,
    pub version: Option<String>,
}

impl DeepView for MetricsMeta {
    type V = (Option<Seq<char>>, Option<Seq<char>>, Option<Seq<char>>);

    open spec fn deep_view(&self) -> (Option<Seq<char>>, Option<Seq<char>>, Option<Seq<char>>) {
        (self.guest.deep_view(), self.guest_version.deep_view(), self.version.deep_view())
    }
}

/// The guest, guest version, and zkVM version that directory tokens name.
pub open spec fn meta_of_dirs(guest_dir: Option<Seq<char>>, version_dir: Option<Seq<char>>) -> (
    Option<Seq<char>>,
    Option<Seq<char>>,
    Option<Seq<char>>,
) {
    let (guest, guest_version) = match guest_dir {
        Some(dir) => (Some(name_and_version(dir).0), name_and_version(dir).1),
        None => (None, None),
    };
    let version = match version_dir {
        Some(dir) => match name_and_version(dir).1 {
            Some(version) => Some(version),
            None => Some(dir),
        },
        None => None,
    };
    (guest, guest_version, version)
}

impl MetricsMeta {
    /// Splits the guest and version directory tokens into their name and version parts, each at its
    /// trailing version suffix. The guest dir is like zisk-eth-client-reth-v0.9.0 and the version
    /// dir like zisk-v0.18.0.
    pub fn from_dirs(guest_dir: Option<String>, version_dir: Option<String>) -> (meta: MetricsMeta)
        ensures
            meta.deep_view() == meta_of_dirs(guest_dir.deep_view(), version_dir.deep_view()),
    {
        let (guest, guest_version): (Option<String>, Option<String>) = match guest_dir {
            Some(dir) => {
                let (name, version) = split_name_version(dir.as_str());
                (Some(name), version)
            },
            None => (None, None),
        };
        let version: Option<String> = match version_dir {
            Some(dir) => {
                let (_, version) = split_name_version(dir.as_str());
                match version {
                    Some(version) => Some(version),
                    None => Some(dir),
                }
            },
            None => None,
        };
        MetricsMeta { guest, guest_version, version }
    }
}

/// The completion milliseconds of results, those without a moment first, as sort keys.
pub open spec fn completion_keys(blocks: Seq<MetricModel>) -> Seq<(i64, i64)> {
    blocks.map_values(
        |block: MetricModel|
            (
                match block.timestamp_completed {
                    Some(ns) => ms_of(ns),
                    None => i64::MIN,
                },
                0i64,
            ),
    )
}

/// Results in the order of their completion, those of one millisecond in the order given.
pub open spec fn by_completion(blocks: Seq<MetricModel>) -> Seq<MetricModel> {
    arranged(blocks, stable_order(completion_keys(blocks)))
}

/// Sorts results by completion, those without a moment first.
pub fn sort_blocks(blocks: &Vec<MetricBlock>) -> (sorted: Vec<MetricBlock>)
    ensures
        sorted.deep_view() == by_completion(blocks.deep_view()),
{
    let ghost expected = completion_keys(blocks.deep_view());
    let mut keys: Vec<(i64, i64)> = Vec::new();
    for i in 0..blocks.len()
        invariant
            expected == completion_keys(blocks.deep_view()),
            keys@.len() == i,
            forall|k: int| 0 <= k < i ==> #[trigger] keys@[k] == expected[k],
    {
        assert(blocks.deep_view()[i as int] == blocks@[i as int].deep_view());
        let at: i64 = match blocks[i].timestamp_completed {
            Some(ts) => ts.epoch_ms(),
            None => i64::MIN,
        };
        keys.push((at, 0));
    }
    assert(keys@ =~= expected);
    let order: Vec<usize> = sort_places(&keys);
    let mut sorted: Vec<MetricBlock> = Vec::new();
    for i in 0..order.len()
        invariant
            keys@.len() == blocks@.len(),
            forall|k: int| 0 <= k < order@.len() ==> #[trigger] order@[k] < keys@.len(),
            sorted@.len() == i,
            forall|k: int|
                0 <= k < i ==> (#[trigger] sorted@[k]).deep_view()
                    == blocks@[order@[k] as int].deep_view(),
    {
        sorted.push(blocks[order[i]].copy());
    }
    assert(sorted.deep_view() =~= by_completion(blocks.deep_view()));
    sorted
}

/// Those of the first `count` paths that name a JSON file.
pub open spec fn json_upto(paths: Seq<Seq<char>>, count: int) -> Seq<Seq<char>>
    decreases count,
{
    if count <= 0 {
        seq![]
    } else if extension_of(paths[count - 1]) == Some("json"@) {
        json_upto(paths, count - 1).push(paths[count - 1])
    } else {
        json_upto(paths, count - 1)
    }
}

/// Those of the first `count` paths that lie at least two directories deep.
pub open spec fn deep_upto(paths: Seq<Seq<char>>, count: int) -> Seq<Seq<char>>
    decreases count,
{
    if count <= 0 {
        seq![]
    } else if parts_from(paths[count - 1], 0).len() >= 3 {
        deep_upto(paths, count - 1).push(paths[count - 1])
    } else {
        deep_upto(paths, count - 1)
    }
}

/// The metric files among the paths beneath the metrics directory, in the order in which they are
/// read. They lie at <guest>/<version>/<file>.json.
pub open spec fn metric_files(paths: Seq<Seq<char>>) -> Seq<Seq<char>> {
    let sorted = sorted_paths_of(json_upto(paths, paths.len() as int));
    deep_upto(sorted, sorted.len() as int)
}

/// The guest and version directories, those of the first metric file.
pub open spec fn metric_dirs(files: Seq<Seq<char>>) -> (Option<Seq<char>>, Option<Seq<char>>) {
    if files.len() == 0 {
        (None, None)
    } else {
        (Some(parts_from(files[0], 0)[0]), Some(parts_from(files[0], 0)[1]))
    }
}

/// Which metric files are read, in order, and the guest and version metadata of their directory.
pub struct MetricPlan {
    pub files: Vec<String>,
    pub meta: MetricsMeta,
}

fn json_paths(paths: &Vec<String>) -> (kept: Vec<String>)
    ensures
        kept.deep_view() == json_upto(paths.deep_view(), paths@.len() as int),
{
    let mut kept: Vec<String> = Vec::new();
    assert(kept.deep_view() =~= seq![]);
    for i in 0..paths.len()
        invariant
            kept.deep_view() == json_upto(paths.deep_view(), i as int),
    {
        assert(paths.deep_view()[i as int] == paths@[i as int]@);
        let json: bool = match extension(paths[i].as_str()) {
            Some(extension) => is(to_chars(extension.as_str()).as_slice(), "json"),
            None => false,
        };
        if json {
            let ghost before = kept.deep_view();
            kept.push(paths[i].clone());
            assert(kept.deep_view() =~= before.push(paths@[i as int]@));
        }
    }
    kept
}

/// Plans the read of every metric block beneath a metrics directory, whose paths are given relative
/// to it, plus the guest and version metadata.
pub fn load_metrics(paths: &Vec<String>) -> (plan: MetricPlan)
    ensures
        plan.files.deep_view() == metric_files(paths.deep_view()),
        ({
            let (guest, version) = metric_dirs(metric_files(paths.deep_view()));
            plan.meta.deep_view() == meta_of_dirs(guest, version)
        }),
{
    let sorted: Vec<String> = sorted_paths(&json_paths(paths));
    let ghost model = sorted.deep_view();
    let mut files: Vec<String> = Vec::new();
    let mut guest_dir: Option<String> = None;
    let mut version_dir: Option<String> = None;
    assert(files.deep_view() =~= seq![]);
    for i in 0..sorted.len()
        invariant
            model == sorted.deep_view(),
            files.deep_view() == deep_upto(model, i as int),
            (guest_dir.deep_view(), version_dir.deep_view()) == metric_dirs(files.deep_view()),
            files@.len() > 0 ==> guest_dir is Some && version_dir is Some,
            files@.len() == 0 ==> guest_dir is None && version_dir is None,
    {
        assert(model[i as int] == sorted@[i as int]@);
        let parts: Vec<Vec<char>> = parts(to_chars(sorted[i].as_str()).as_slice());
        assert(views(parts@).len() == parts@.len());
        if parts.len() >= 3 {
            let ghost before = files.deep_view();
            if guest_dir.is_none() {
                guest_dir = Some(to_text(parts[0].as_slice()));
                version_dir = Some(to_text(parts[1].as_slice()));
                assert(views(parts@)[0] == parts@[0]@);
                assert(views(parts@)[1] == parts@[1]@);
            }
            files.push(sorted[i].clone());
            assert(files.deep_view() =~= before.push(sorted@[i as int]@));
        }
    }
    MetricPlan { files, meta: MetricsMeta::from_dirs(guest_dir, version_dir) }
}

/// Node hardware specification assumed identical across nodes.
pub struct Hardware {
    pub cpu_model: Option<String>,
    pub total_ram_gib: Option<u64>,
    pub gpu_models: Vec<String>,
}

impl DeepView for Hardware {
    type V = (Option<Seq<char>>, Option<u64>, Seq<Seq<char>>);

    open spec fn deep_view(&self) -> (Option<Seq<char>>, Option<u64>, Seq<Seq<char>>) {
        (self.cpu_model.deep_view(), self.total_ram_gib, self.gpu_models.deep_view())
    }
}

/// One GPU entry inside hardware.json.
pub struct RawGpu {
    pub model: String,
}

impl DeepView for RawGpu {
    type V = Seq<char>;

    open spec fn deep_view(&self) -> Seq<char> {
        self.model@
    }
}

/// The fields of a hardware.json document, with no GPUs where it lists none.
pub struct RawHardware {
    pub cpu_model: Option<String>,
    pub total_ram_gib: Option<u64>,
    pub gpus: Vec<RawGpu>,
}

impl DeepView for RawHardware {
    type V = (Option<Seq<char>>, Option<u64>, Seq<Seq<char>>);

    open spec fn deep_view(&self) -> (Option<Seq<char>>, Option<u64>, Seq<Seq<char>>) {
        (self.cpu_model.deep_view(), self.total_ram_gib, self.gpus.deep_view())
    }
}

/// Turns a hardware.json document, its fields given, into the node hardware spec, the models of its
/// GPUs in the order listed.
pub fn parse_hardware_json(raw: RawHardware) -> (hardware: Hardware)
    ensures
        hardware.deep_view() == raw.deep_view(),
{
    let mut gpu_models: Vec<String> = Vec::new();
    for i in 0..raw.gpus.len()
        invariant
            gpu_models@.len() == i,
            forall|k: int|
                0 <= k < i ==> (#[trigger] gpu_models@[k]).deep_view() == raw.gpus@[k].model@,
    {
        gpu_models.push(raw.gpus[i].model.clone());
    }
    assert(gpu_models.deep_view() =~= raw.gpus.deep_view());
    Hardware { cpu_model: raw.cpu_model, total_ram_gib: raw.total_ram_gib, gpu_models }
}

/// The node hardware spec of a run, an empty one when the metrics directory holds none.
pub fn load_hardware(read: Option<RawHardware>) -> (hardware: Hardware)
    ensures
        hardware.deep_view() == match read {
            Some(read) => read.deep_view(),
            None => (None::<Seq<char>>, None::<u64>, Seq::<Seq<char>>::empty()),
        },
{
    match read {
        Some(read) => parse_hardware_json(read),
        None => {
            let hardware = Hardware {
                cpu_model: None,
                total_ram_gib: None,
                gpu_models: Vec::new(),
            };
            assert(hardware.gpu_models.deep_view() =~= seq![]);
            hardware
        },
    }
}

} // verus!
