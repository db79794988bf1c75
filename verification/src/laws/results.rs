//! What holds of every proof result and of every run directory that is read.

use vstd::prelude::*;

use crate::error::Failure;
use crate::input::{by_digit, digit_keys, digit_of, selected};
use crate::log::{ms_of, ts_read};
use crate::metrics::{
    blamed, by_completion, completion_keys, crash_class, crash_job, deep_upto, json_upto,
    last_version, lowercase, meta_of_dirs, metric_dirs, metric_files, metric_read, name_and_version,
    nodes_named, MetricModel, MetricStatus, RawMetric,
};
use crate::paths::{extension_of, keyed, parts_from, path_key, sorted_paths_of};
use crate::pattern::{group_text, matched, matched_all};
use crate::sort::{comes_before, lemma_arranged, lemma_stable_order_of, stable_order};
use crate::text::{contains_piece, is_digit, last_of, precedes, replaced, unsigned_read};
use crate::text_map::{lemma_finite_listed, sorted_keys};

verus! {

/// A crash reason is a timeout if and only if it speaks of one.
pub proof fn timeout_is_what_the_reason_says(lower: Seq<char>)
    ensures
        crash_class(lower) == MetricStatus::Timeout <==> contains_piece(lower, "timed out"@)
            || contains_piece(lower, "timeout"@),
        crash_class(lower) != MetricStatus::Timeout ==> crash_class(lower) == MetricStatus::Crashed,
{
}

/// The crash reason that a metric document gives.
pub open spec fn given_reason(raw: RawMetric) -> Option<Seq<char>> {
    if raw.proving is Some && raw.proving->0.crashed is Some && raw.proving->0.crashed->0.reason is Some {
        Some(raw.proving->0.crashed->0.reason->0@)
    } else {
        None
    }
}

/// Whether a metric document reports a success.
pub open spec fn given_success(raw: RawMetric) -> bool {
    raw.proving is Some && raw.proving->0.success is Some
}

/// A document that reports a success is a success, whatever else it holds, with the figures of the
/// success and no one to blame.
pub proof fn success_carries_its_figures(raw: RawMetric, file_stem: Seq<char>)
    requires
        given_success(raw),
    ensures
        match metric_read(raw, file_stem) {
            Ok(result) => {
                let success = raw.proving->0.success->0;
                &&& result.status == MetricStatus::Success
                &&& result.proving_time_ms == success.proving_time_ms
                &&& result.proof_size == success.proof_size
                &&& result.verification_time_ms == success.verification_time_ms
                &&& result.crashed_nodes.len() == 0
                &&& result.crashed_job is None
            },
            Err(_) => true,
        },
{
}

/// A document without a success is a failure with no figures. Its reason decides whether it timed out,
/// which nodes are blamed, and which cluster job it was; without a reason it crashed, with no one to
/// blame and no job.
pub proof fn failure_is_told_by_its_reason(raw: RawMetric, file_stem: Seq<char>)
    requires
        !given_success(raw),
    ensures
        match metric_read(raw, file_stem) {
            Ok(result) => {
                &&& result.status != MetricStatus::Success
                &&& result.proving_time_ms is None
                &&& result.proof_size is None
                &&& result.verification_time_ms is None
                &&& match given_reason(raw) {
                    Some(reason) => {
                        &&& result.status == crash_class(lowercase(reason))
                        &&& result.crashed_nodes == blamed(reason)
                        &&& result.crashed_job == crash_job(reason)
                    },
                    None => result.status == MetricStatus::Crashed && result.crashed_nodes.len()
                        == 0 && result.crashed_job is None,
                }
            },
            Err(_) => true,
        },
{
}

/// A result is named by the test it came from, without one by the document's own name, and without
/// that by its file. Its gas is that of the metadata.
pub proof fn result_is_named_by_its_test(raw: RawMetric, file_stem: Seq<char>)
    ensures
        match metric_read(raw, file_stem) {
            Ok(result) => {
                &&& raw.metadata is Some && raw.metadata->0.original_test_name is Some
                    ==> result.name == raw.metadata->0.original_test_name->0@
                &&& (raw.metadata is None || raw.metadata->0.original_test_name is None)
                    && raw.name is Some ==> result.name == raw.name->0@
                &&& (raw.metadata is None || raw.metadata->0.original_test_name is None)
                    && raw.name is None ==> result.name == file_stem
                &&& raw.metadata is Some ==> result.block_used_gas == raw.metadata->0.block_used_gas
                &&& raw.metadata is None ==> result.block_used_gas is None
            },
            Err(_) => true,
        },
{
}

/// A document is refused if and only if it gives a completion that cannot be read, and with the reason
/// of that; otherwise the result completed when the document says.
pub proof fn result_completes_when_it_says(raw: RawMetric, file_stem: Seq<char>)
    ensures
        match metric_read(raw, file_stem) {
            Ok(result) => match raw.timestamp_completed {
                Some(value) => ts_read(value@) is Ok && result.timestamp_completed == Some(
                    ts_read(value@)->Ok_0,
                ),
                None => result.timestamp_completed is None,
            },
            Err(failure) => raw.timestamp_completed is Some && ts_read(
                raw.timestamp_completed->0@,
            ) == Err::<int, Failure>(failure),
        },
{
}

/// Whether a match names a node.
pub open spec fn names_node(groups: Seq<Option<Seq<char>>>, node: Seq<char>) -> bool {
    1 < groups.len() && groups[1] == Some(node)
}

proof fn lemma_nodes_named(all: Seq<Seq<Option<Seq<char>>>>, count: int)
    requires
        0 <= count <= all.len(),
    ensures
        ({
            let nodes = nodes_named(all, count);
            &&& nodes.no_duplicates()
            &&& forall|node: Seq<char>|
                #[trigger] nodes.contains(node) <==> exists|i: int|
                    0 <= i < count && names_node(#[trigger] all[i], node)
        }),
    decreases count,
{
    if count > 0 {
        lemma_nodes_named(all, count - 1);
        let before = nodes_named(all, count - 1);
        let after = nodes_named(all, count);
        assert forall|node: Seq<char>|
            #[trigger] after.contains(node) <==> exists|i: int|
            0 <= i < count && names_node(#[trigger] all[i], node) by {
            if before.contains(node) {
                let k = choose|k: int| 0 <= k < before.len() && before[k] == node;
                assert(after[k] == node);
                let i = choose|i: int| 0 <= i < count - 1 && names_node(#[trigger] all[i], node);
                assert(names_node(all[i], node));
            }
            if after.contains(node) && !before.contains(node) {
                let k = choose|k: int| 0 <= k < after.len() && after[k] == node;
                if k < before.len() {
                    assert(before[k] == node);
                }
                assert(names_node(all[count - 1], node));
            }
            if exists|i: int| 0 <= i < count && names_node(#[trigger] all[i], node) {
                let i = choose|i: int| 0 <= i < count && names_node(#[trigger] all[i], node);
                if i < count - 1 {
                    assert(before.contains(node));
                } else if !before.contains(node) {
                    assert(after[before.len() as int] == node);
                }
            }
        }
        assert forall|i: int, j: int|
            0 <= i < after.len() && 0 <= j < after.len() && i != j implies after[i] != after[j] by {
            if i < before.len() && j < before.len() {
                assert(before[i] == after[i] && before[j] == after[j]);
            } else if i < before.len() {
                assert(before.contains(before[i]));
            } else if j < before.len() {
                assert(before.contains(before[j]));
            }
        }
    }
}

/// The nodes that a reason blames are those that its worker ids name, each once.
pub proof fn blamed_nodes_are_those_named(reason: Seq<char>, node: Seq<char>)
    ensures
        blamed(reason).no_duplicates(),
        blamed(reason).contains(node) <==> exists|i: int|
            0 <= i < matched_all(crate::metrics::WORKER_RE@, reason).len() && names_node(
                #[trigger] matched_all(crate::metrics::WORKER_RE@, reason)[i],
                node,
            ),
{
    let all = matched_all(crate::metrics::WORKER_RE@, reason);
    lemma_nodes_named(all, all.len() as int);
}

/// The cluster job of a reason is the first uuid in it.
pub proof fn crash_job_is_the_uuid(reason: Seq<char>)
    ensures
        crash_job(reason) is Some <==> matched(crate::metrics::UUID_RE@, reason) is Some,
        crash_job(reason) is Some ==> crash_job(reason)->0 == group_text(
            matched(crate::metrics::UUID_RE@, reason)->0,
            0,
        ),
{
}

/// Whether a version tag begins behind a hyphen: a v and a digit.
pub open spec fn tag_begins(token: Seq<char>, at: int) -> bool {
    0 <= at && at + 2 < token.len() && token[at] == '-' && token[at + 1] == 'v' && '0' <= token[at
        + 2] <= '9'
}

/// Whether a text is a short hash: seven or more lower case hexadecimal digits.
pub open spec fn short_hash(text: Seq<char>) -> bool {
    text.len() >= 7 && forall|i: int|
        0 <= i < text.len() ==> '0' <= #[trigger] text[i] <= '9' || 'a' <= text[i] <= 'f'
}

proof fn lemma_last_version(token: Seq<char>, count: int)
    requires
        0 <= count <= token.len(),
    ensures
        match last_version(token, count) {
            Some(at) => 0 <= at < count && tag_begins(token, at) && forall|i: int|
                at < i < count ==> !tag_begins(token, i),
            None => forall|i: int| 0 <= i < count ==> !tag_begins(token, i),
        },
    decreases count,
{
    if count > 0 {
        lemma_last_version(token, count - 1);
    }
}

proof fn lemma_last_of(text: Seq<char>, c: char)
    ensures
        match last_of(text, c) {
            Some(at) => 0 <= at < text.len() && text[at] == c && forall|i: int|
                at < i < text.len() ==> text[i] != c,
            None => forall|i: int| 0 <= i < text.len() ==> text[i] != c,
        },
    decreases text.len(),
{
    if text.len() > 0 && text.last() != c {
        lemma_last_of(text.drop_last(), c);
        let rest = text.drop_last();
        assert forall|i: int| 0 <= i < rest.len() implies rest[i] == text[i] by {}
    }
}

/// A directory name splits into a name and a version at the hyphen before its last version tag,
/// without a tag at its last hyphen if a short hash follows that, and otherwise not at all: the two
/// parts with the hyphen make the name again.
pub proof fn directory_splits_at_its_version(token: Seq<char>)
    ensures
        ({
            let (name, version) = name_and_version(token);
            match version {
                Some(version) => {
                    let at = name.len() as int;
                    &&& token == name + seq!['-'] + version
                    &&& tag_begins(token, at) || short_hash(version)
                    &&& tag_begins(token, at) ==> forall|i: int|
                        at < i < token.len() ==> !tag_begins(token, i)
                    &&& !tag_begins(token, at) ==> (forall|i: int|
                        0 <= i < token.len() ==> !tag_begins(token, i)) && forall|i: int|
                        at < i < token.len() ==> token[i] != '-'
                },
                None => {
                    &&& name == token
                    &&& forall|i: int| 0 <= i < token.len() ==> !tag_begins(token, i)
                    &&& forall|i: int|
                        0 <= i < token.len() && #[trigger] token[i] == '-' && (forall|j: int|
                            i < j < token.len() ==> token[j] != '-') ==> !short_hash(
                            token.skip(i + 1),
                        )
                },
            }
        }),
{
    let count = token.len() as int;
    lemma_last_version(token, count);
    lemma_last_of(token, '-');
    match last_version(token, count) {
        Some(at) => {
            assert(token =~= token.take(at) + seq!['-'] + token.skip(at + 1));
        },
        None => match last_of(token, '-') {
            Some(at) => {
                let tail = token.skip(at + 1);
                assert(token =~= token.take(at) + seq!['-'] + tail);
                assert(crate::metrics::is_short_sha(tail) <==> short_hash(tail)) by {
                    if short_hash(tail) {
                        assert forall|i: int| 0 <= i < tail.len() implies is_digit(
                            #[trigger] tail[i],
                        ) || 'a' <= tail[i] <= 'f' by {}
                    }
                }
            },
            None => {},
        },
    }
}

/// The guest's directory gives its name and version. The version directory gives the version that it
/// ends in, and where it names none its whole name.
pub proof fn metadata_follows_the_directories(guest: Seq<char>, version: Seq<char>)
    ensures
        ({
            let meta = meta_of_dirs(Some(guest), Some(version));
            &&& meta.0 == Some(name_and_version(guest).0)
            &&& meta.1 == name_and_version(guest).1
            &&& meta.2 == Some(
                if name_and_version(version).1 is Some {
                    name_and_version(version).1->0
                } else {
                    version
                },
            )
        }),
        meta_of_dirs(None, None) == (None::<Seq<char>>, None::<Seq<char>>, None::<Seq<char>>),
{
}

/// Whether one result comes before another by its completion, one without a completion first.
pub open spec fn completes_before(first: MetricModel, second: MetricModel) -> bool {
    second.timestamp_completed is Some && (first.timestamp_completed is None || ms_of(
        first.timestamp_completed->0,
    ) < ms_of(second.timestamp_completed->0))
}

/// Results come in the order of their completion, those without one first: each is there, as many as
/// there were, and a later one never completed before an earlier one.
pub proof fn results_come_in_completion_order(
    blocks: Seq<MetricModel>,
    first: int,
    second: int,
    result: MetricModel,
)
    requires
        blocks.len() <= usize::MAX,
        0 <= first < second < blocks.len(),
        forall|i: int|
            0 <= i < blocks.len() && (#[trigger] blocks[i]).timestamp_completed is Some ==> i64::MIN
                < ms_of(blocks[i].timestamp_completed->0),
    ensures
        by_completion(blocks).len() == blocks.len(),
        by_completion(blocks).contains(result) <==> blocks.contains(result),
        !completes_before(by_completion(blocks)[second], by_completion(blocks)[first]),
{
    let keys = completion_keys(blocks);
    lemma_stable_order_of(keys);
    lemma_arranged(blocks, keys);
    let order = stable_order(keys);
    assert(comes_before(keys, order[first], order[second]));
    assert(order[first] < keys.len() && order[second] < keys.len());
    let (a, b) = (blocks[order[first] as int], blocks[order[second] as int]);
    assert(by_completion(blocks)[first] == a);
    assert(by_completion(blocks)[second] == b);
}

/// Of two results that complete together, the one that came first stays first.
pub proof fn ties_keep_their_order(blocks: Seq<MetricModel>, first: int, second: int)
    requires
        blocks.len() <= usize::MAX,
        0 <= first < second < blocks.len(),
        blocks[first].timestamp_completed == blocks[second].timestamp_completed,
    ensures
        exists|i: int, j: int|
            0 <= i < j < blocks.len() && #[trigger] by_completion(blocks)[i] == blocks[first]
                && #[trigger] by_completion(blocks)[j] == blocks[second],
{
    let keys = completion_keys(blocks);
    lemma_stable_order_of(keys);
    let order = stable_order(keys);
    assert(order.contains(first as usize));
    assert(order.contains(second as usize));
    let i = choose|i: int| 0 <= i < order.len() && order[i] == first as usize;
    let j = choose|j: int| 0 <= j < order.len() && order[j] == second as usize;
    assert(keys[first] == keys[second]);
    if j < i {
        assert(comes_before(keys, order[j], order[i]));
    }
    assert(by_completion(blocks)[i] == blocks[first]);
    assert(by_completion(blocks)[j] == blocks[second]);
}

proof fn lemma_json_upto(paths: Seq<Seq<char>>, count: int, path: Seq<char>)
    requires
        0 <= count <= paths.len(),
    ensures
        json_upto(paths, count).contains(path) <==> paths.take(count).contains(path)
            && extension_of(path) == Some("json"@),
    decreases count,
{
    if count > 0 {
        lemma_json_upto(paths, count - 1, path);
        let before = json_upto(paths, count - 1);
        let after = json_upto(paths, count);
        let (less, more) = (paths.take(count - 1), paths.take(count));
        assert(more =~= less.push(paths[count - 1]));
        if before.contains(path) {
            let i = choose|i: int| 0 <= i < before.len() && before[i] == path;
            assert(after[i] == path);
        }
        if less.contains(path) {
            let i = choose|i: int| 0 <= i < less.len() && less[i] == path;
            assert(more[i] == path);
        }
        if paths[count - 1] == path {
            assert(more[count - 1] == path);
            if extension_of(path) == Some("json"@) {
                assert(after[before.len() as int] == path);
            }
        }
        if after.contains(path) && !before.contains(path) {
            let i = choose|i: int| 0 <= i < after.len() && after[i] == path;
            if i < before.len() {
                assert(before[i] == path);
            }
        }
        if more.contains(path) && !less.contains(path) {
            let i = choose|i: int| 0 <= i < more.len() && more[i] == path;
            if i < count - 1 {
                assert(less[i] == path);
            }
        }
    } else {
        assert(paths.take(0) =~= seq![]);
    }
}

proof fn lemma_deep_upto(paths: Seq<Seq<char>>, count: int, path: Seq<char>)
    requires
        0 <= count <= paths.len(),
    ensures
        deep_upto(paths, count).contains(path) <==> paths.take(count).contains(path) && parts_from(
            path,
            0,
        ).len() >= 3,
    decreases count,
{
    if count > 0 {
        lemma_deep_upto(paths, count - 1, path);
        let before = deep_upto(paths, count - 1);
        let after = deep_upto(paths, count);
        let (less, more) = (paths.take(count - 1), paths.take(count));
        assert(more =~= less.push(paths[count - 1]));
        if before.contains(path) {
            let i = choose|i: int| 0 <= i < before.len() && before[i] == path;
            assert(after[i] == path);
        }
        if less.contains(path) {
            let i = choose|i: int| 0 <= i < less.len() && less[i] == path;
            assert(more[i] == path);
        }
        if paths[count - 1] == path {
            assert(more[count - 1] == path);
            if parts_from(path, 0).len() >= 3 {
                assert(after[before.len() as int] == path);
            }
        }
        if after.contains(path) && !before.contains(path) {
            let i = choose|i: int| 0 <= i < after.len() && after[i] == path;
            if i < before.len() {
                assert(before[i] == path);
            }
        }
        if more.contains(path) && !less.contains(path) {
            let i = choose|i: int| 0 <= i < more.len() && more[i] == path;
            if i < count - 1 {
                assert(less[i] == path);
            }
        }
    } else {
        assert(paths.take(0) =~= seq![]);
    }
}

proof fn lemma_keyed(paths: Seq<Seq<char>>, count: int)
    requires
        0 <= count <= paths.len(),
    ensures
        ({
            let map = keyed(paths, count);
            &&& map.dom().finite()
            &&& forall|i: int|
                0 <= i < count ==> map.dom().contains(path_key(#[trigger] paths[i]))
            &&& forall|key: Seq<char>|
                #[trigger] map.dom().contains(key) ==> path_key(map[key]) == key && exists|i: int|
                    0 <= i < count && #[trigger] paths[i] == map[key]
        }),
    decreases count,
{
    if count > 0 {
        lemma_keyed(paths, count - 1);
        let before = keyed(paths, count - 1);
        let map = keyed(paths, count);
        assert forall|key: Seq<char>| #[trigger] map.dom().contains(key) implies path_key(map[key])
            == key && exists|i: int| 0 <= i < count && #[trigger] paths[i] == map[key] by {
            if key == path_key(paths[count - 1]) {
                assert(paths[count - 1] == map[key]);
            } else {
                assert(before.dom().contains(key));
                let i = choose|i: int| 0 <= i < count - 1 && #[trigger] paths[i] == before[key];
                assert(paths[i] == map[key]);
            }
        }
    }
}

/// The metric files of a run are those of its paths that are json documents at least two directories
/// deep, where no two paths sort alike. The first of them names the guest's and the version's
/// directories.
pub proof fn metric_files_are_the_deep_documents(paths: Seq<Seq<char>>, path: Seq<char>)
    requires
        forall|i: int, j: int|
            0 <= i < paths.len() && 0 <= j < paths.len() && path_key(#[trigger] paths[i])
                == path_key(#[trigger] paths[j]) ==> paths[i] == paths[j],
    ensures
        metric_files(paths).contains(path) <==> paths.contains(path) && extension_of(path) == Some(
            "json"@,
        ) && parts_from(path, 0).len() >= 3,
        ({
            let files = metric_files(paths);
            let dirs = metric_dirs(files);
            &&& files.len() > 0 ==> dirs.0 == Some(parts_from(files[0], 0)[0]) && dirs.1 == Some(
                parts_from(files[0], 0)[1],
            )
            &&& files.len() == 0 ==> dirs.0 is None && dirs.1 is None
        }),
{
    let json = json_upto(paths, paths.len() as int);
    assert(paths.take(paths.len() as int) =~= paths);
    lemma_json_upto(paths, paths.len() as int, path);
    lemma_keyed(json, json.len() as int);
    let map = keyed(json, json.len() as int);
    lemma_finite_listed(map);
    let keys = sorted_keys(map);
    let sorted = sorted_paths_of(json);
    assert(sorted.take(sorted.len() as int) =~= sorted);
    lemma_deep_upto(sorted, sorted.len() as int, path);
    assert(sorted.contains(path) <==> json.contains(path)) by {
        if sorted.contains(path) {
            let i = choose|i: int| 0 <= i < sorted.len() && sorted[i] == path;
            assert(keys.contains(keys[i]));
            assert(map.dom().contains(keys[i]));
            let k = choose|k: int| 0 <= k < json.len() && #[trigger] json[k] == map[keys[i]];
            assert(json[k] == path);
        }
        if json.contains(path) {
            let i = choose|i: int| 0 <= i < json.len() && json[i] == path;
            let key = path_key(json[i]);
            assert(map.dom().contains(key));
            assert(keys.contains(key));
            let at = choose|at: int| 0 <= at < keys.len() && keys[at] == key;
            let k = choose|k: int| 0 <= k < json.len() && #[trigger] json[k] == map[key];
            lemma_json_upto(paths, paths.len() as int, json[k]);
            assert(json.contains(json[k]));
            assert(paths.contains(path) && paths.contains(json[k]));
            let a = choose|a: int| 0 <= a < paths.len() && paths[a] == path;
            let b = choose|b: int| 0 <= b < paths.len() && paths[b] == json[k];
            assert(path_key(paths[a]) == path_key(paths[b]));
            assert(sorted[at] == path);
        }
    }
}

proof fn lemma_selected(pattern: Seq<char>, names: Seq<Seq<char>>, count: int)
    requires
        0 <= count <= names.len(),
    ensures
        selected(pattern, names, count).len() <= count,
        forall|digit: u32, name: Seq<char>|
            #[trigger] selected(pattern, names, count).contains((digit, name)) <==> names.take(
                count,
            ).contains(name) && digit_of(matched(pattern, name)) == Some(digit),
    decreases count,
{
    if count > 0 {
        lemma_selected(pattern, names, count - 1);
        let before = selected(pattern, names, count - 1);
        let after = selected(pattern, names, count);
        let (less, more) = (names.take(count - 1), names.take(count));
        assert(more =~= less.push(names[count - 1]));
        assert forall|digit: u32, name: Seq<char>|
            #[trigger] after.contains((digit, name)) <==> more.contains(name) && digit_of(
            matched(pattern, name),
        ) == Some(digit) by {
            let file = (digit, name);
            assert(before.contains(file) <==> less.contains(name) && digit_of(
                matched(pattern, name),
            ) == Some(digit));
            if before.contains(file) {
                let i = choose|i: int| 0 <= i < before.len() && before[i] == file;
                assert(after[i] == file);
            }
            if less.contains(name) {
                let i = choose|i: int| 0 <= i < less.len() && less[i] == name;
                assert(more[i] == name);
            }
            if names[count - 1] == name {
                assert(more[count - 1] == name);
                if digit_of(matched(pattern, name)) == Some(digit) {
                    assert(after[before.len() as int] == file);
                }
            }
            if after.contains(file) && !before.contains(file) {
                let i = choose|i: int| 0 <= i < after.len() && after[i] == file;
                if i < before.len() {
                    assert(before[i] == file);
                }
            }
            if more.contains(name) && !less.contains(name) {
                let i = choose|i: int| 0 <= i < more.len() && more[i] == name;
                if i < count - 1 {
                    assert(less[i] == name);
                }
            }
        }
    } else {
        assert(names.take(0) =~= seq![]);
    }
}

/// The worker files of a run are those names that the pattern gives a node digit, with that digit, in
/// the order of the digits.
pub proof fn worker_files_come_in_digit_order(
    pattern: Seq<char>,
    names: Seq<Seq<char>>,
    digit: u32,
    name: Seq<char>,
)
    requires
        names.len() <= usize::MAX,
    ensures
        ({
            let files = by_digit(selected(pattern, names, names.len() as int));
            &&& files.contains((digit, name)) <==> names.contains(name) && digit_of(
                matched(pattern, name),
            ) == Some(digit)
            &&& forall|i: int, j: int|
                0 <= i < j < files.len() ==> (#[trigger] files[i]).0 <= (#[trigger] files[j]).0
        }),
{
    let all = selected(pattern, names, names.len() as int);
    lemma_selected(pattern, names, names.len() as int);
    assert(names.take(names.len() as int) =~= names);
    let keys = digit_keys(all);
    lemma_stable_order_of(keys);
    lemma_arranged(all, keys);
    let order = stable_order(keys);
    let files = by_digit(all);
    assert(all.contains((digit, name)) <==> names.contains(name) && digit_of(
        matched(pattern, name),
    ) == Some(digit));
    assert forall|i: int, j: int| 0 <= i < j < files.len() implies (#[trigger] files[i]).0 <= (
    #[trigger] files[j]).0 by {
        assert(comes_before(keys, order[i], order[j]));
        assert(order[i] < keys.len() && order[j] < keys.len());
    }
}

/// A worker file's digit is the first group of its name, read as a number.
pub proof fn worker_digit_is_the_first_group(groups: Seq<Option<Seq<char>>>)
    ensures
        digit_of(None) is None,
        groups.len() <= 1 || groups[1] is None ==> digit_of(Some(groups)) is None,
        groups.len() > 1 && groups[1] is Some ==> {
            let read = unsigned_read(groups[1]->0, u32::MAX as int);
            &&& digit_of(Some(groups)) is Some <==> read is Some
            &&& read is Some ==> digit_of(Some(groups))->0 == read->0
        },
{
    if groups.len() > 1 && groups[1] is Some {
        crate::laws::texts::unsigned_is_within(groups[1]->0, u32::MAX as int);
    }
}

/// Paths are sorted by their parts, each path once: a slash sorts before every other character.
pub proof fn paths_are_sorted_by_their_parts(paths: Seq<Seq<char>>, first: int, second: int)
    requires
        0 <= first < second < sorted_paths_of(paths).len(),
    ensures
        precedes(
            replaced(sorted_paths_of(paths)[first], "/"@, "\0"@),
            replaced(sorted_paths_of(paths)[second], "/"@, "\0"@),
        ),
{
    lemma_keyed(paths, paths.len() as int);
    let map = keyed(paths, paths.len() as int);
    lemma_finite_listed(map);
    let keys = sorted_keys(map);
    assert(keys.contains(keys[first]) && keys.contains(keys[second]));
    assert(map.dom().contains(keys[first]) && map.dom().contains(keys[second]));
    assert(precedes(keys[first], keys[second]));
}

} // verus!
