//! What holds of every run that a backend reads as a whole.

use vstd::prelude::*;

use crate::backend::{backend_parsed, Backend};
use crate::catalog::{metric_row, present_upto, MetricDef, METRIC_COUNT};
use crate::error::Failure;
use crate::log::{ms_of, prefix_of, ts_read};
use crate::openvm::openvm_parsed;
use crate::openvm::phases::JobWork;
use crate::openvm::worker::{files_loaded as edge_loaded, no_data as no_edge_data, worker_parsed};
use crate::text::{around_first, between, i64_read, lines_of, words_of};
use crate::zisk::kinds::{classified, kind_row};
use crate::zisk::pairing::{all_items, new_pairing, Pairing};
use crate::zisk::pipeline::{
    announced, flushed, marked, parsed, routed_close, slot_flushed, slot_opened, stepped,
    tag_and_duration, Pipelines, Slots,
};
use crate::zisk::worker::{
    agg_parsed, banner, file_loaded, files_loaded, first_token, no_data, stages_parsed, stamped,
    DataModel,
};
use crate::zisk::zisk_parsed;
use crate::zkvm::without_ansi;

verus! {

/// The value under a key, where there is one.
pub open spec fn value_at<T>(map: Map<Seq<char>, T>, key: Seq<char>) -> Option<T> {
    if map.dom().contains(key) {
        Some(map[key])
    } else {
        None
    }
}

/// A zisk run has one log per job of its coordinator log, in their order, each built from the worker
/// data under the key of the job's id.
pub proof fn zisk_run_has_a_log_per_job(
    coordinator: Seq<char>,
    files: Seq<(u32, Seq<char>, Seq<char>)>,
    job: int,
)
    ensures
        match zisk_parsed(coordinator, files) {
            Ok(run) => {
                let jobs = crate::zisk::coordinator::consumed_all(
                    seq![],
                    lines_of(without_ansi(coordinator)),
                );
                let data = files_loaded(no_data(), files);
                &&& jobs is Ok && data is Ok
                &&& run.logs.len() == jobs->Ok_0.len()
                &&& 0 <= job < run.logs.len() ==> {
                    let raw = jobs->Ok_0[job];
                    let key = prefix_of(raw.id);
                    run.logs[job] == crate::zisk::phases::log_of(
                        raw,
                        value_at(data->Ok_0.agg, key),
                        value_at(data->Ok_0.stages, key),
                        value_at(data->Ok_0.pipelines, key),
                    )
                }
                &&& run.name == "zisk"@
                &&& run.phases.len() == 5
                &&& run.pipeline.len() == 13
                &&& run.pipeline_components.len() == 0
                &&& run.subphases.len() == 0
            },
            Err(failure) => {
                ||| crate::zisk::coordinator::consumed_all(
                    seq![],
                    lines_of(without_ansi(coordinator)),
                ) == Err::<Seq<crate::zisk::coordinator::JobModel>, Failure>(failure)
                ||| files_loaded(no_data(), files) == Err::<DataModel, Failure>(failure)
            },
        },
{
}

/// An openvm run has one log per proof of its coordinator log, in their order, each built from the
/// worker data under the proof's own id.
pub proof fn openvm_run_has_a_log_per_proof(
    coordinator: Seq<char>,
    files: Seq<(u32, Seq<char>, Seq<char>)>,
    job: int,
)
    ensures
        match openvm_parsed(coordinator, files) {
            Ok(run) => {
                let jobs = crate::openvm::coordinator::consumed_all(
                    seq![],
                    lines_of(without_ansi(coordinator)),
                );
                let data = edge_loaded(no_edge_data(), files);
                &&& jobs is Ok && data is Ok
                &&& run.logs.len() == jobs->Ok_0.len()
                &&& 0 <= job < run.logs.len() ==> {
                    let raw = jobs->Ok_0[job];
                    run.logs[job] == crate::openvm::phases::log_of(
                        raw,
                        JobWork {
                            items: value_at(data->Ok_0.items, raw.id),
                            announcements: value_at(data->Ok_0.announcements, raw.id),
                            writes: value_at(data->Ok_0.writes, raw.id),
                            sends: value_at(data->Ok_0.sends, raw.id),
                        },
                    )
                }
                &&& run.name == "openvm"@
                &&& run.phases.len() == 5
                &&& run.pipeline.len() == 6
                &&& run.pipeline_components.len() == 14
                &&& run.subphases.len() == 14
            },
            Err(_) => true,
        },
{
}

/// Each backend reads its own logs.
pub proof fn backend_reads_its_own_logs(
    coordinator: Seq<char>,
    files: Seq<(u32, Seq<char>, Seq<char>)>,
)
    ensures
        backend_parsed(Backend::Zisk, coordinator, files) == zisk_parsed(coordinator, files),
        backend_parsed(Backend::Openvm, coordinator, files) == openvm_parsed(coordinator, files),
{
}

/// A worker log of a zisk run is read three times without its colours, for the aggregation, for the
/// stages, and for the pipeline, the last two as the log of its own node.
pub proof fn worker_log_is_read_for_its_node(data: DataModel, digit: u32, text: Seq<char>)
    ensures
        ({
            let clean = without_ansi(text);
            let node = "node"@ + crate::text::decimal(digit as nat);
            match file_loaded(data, digit, text) {
                Ok(next) => {
                    &&& next.agg == agg_parsed(clean, data.agg).agg
                    &&& next.stages == stages_parsed(clean, node, data.stages).stages
                    &&& next.pipelines == parsed(clean, node, data.pipelines).0
                    &&& agg_parsed(clean, data.agg).failure is None
                    &&& stages_parsed(clean, node, data.stages).failure is None
                    &&& parsed(clean, node, data.pipelines).1 is None
                },
                Err(failure) => {
                    ||| agg_parsed(clean, data.agg).failure == Some(failure)
                    ||| stages_parsed(clean, node, data.stages).failure == Some(failure)
                    ||| parsed(clean, node, data.pipelines).1 == Some(failure)
                },
            }
        }),
{
}

/// The worker logs of a zisk run are read one after another: two parts of them give what the second
/// gives on top of the first.
pub proof fn worker_logs_are_read_in_order(
    data: DataModel,
    first: Seq<(u32, Seq<char>, Seq<char>)>,
    second: Seq<(u32, Seq<char>, Seq<char>)>,
)
    ensures
        files_loaded(data, first + second) == match files_loaded(data, first) {
            Ok(between) => files_loaded(between, second),
            Err(failure) => Err(failure),
        },
        first.len() == 1 ==> files_loaded(data, first) == file_loaded(
            data,
            first[0].0,
            first[0].2,
        ),
    decreases first.len(),
{
    reveal_with_fuel(files_loaded, 2);
    if first.len() == 0 {
        assert(first + second =~= second);
    } else {
        assert((first + second).skip(1) =~= first.skip(1) + second);
        match file_loaded(data, first[0].0, first[0].2) {
            Ok(next) => worker_logs_are_read_in_order(next, first.skip(1), second),
            Err(_) => {},
        }
    }
}

/// The worker logs of an openvm run are read one after another, each without its colours as the log of
/// its own node.
pub proof fn edge_worker_logs_are_read_in_order(
    data: crate::openvm::worker::DataModel,
    first: Seq<(u32, Seq<char>, Seq<char>)>,
    second: Seq<(u32, Seq<char>, Seq<char>)>,
)
    ensures
        edge_loaded(data, first + second) == match edge_loaded(data, first) {
            Ok(between) => edge_loaded(between, second),
            Err(failure) => Err(failure),
        },
        first.len() == 1 ==> edge_loaded(data, first) == worker_parsed(
            without_ansi(first[0].2),
            "node"@ + crate::text::decimal(first[0].0 as nat),
            data,
        ),
    decreases first.len(),
{
    reveal_with_fuel(edge_loaded, 2);
    if first.len() == 0 {
        assert(first + second =~= second);
    } else {
        assert((first + second).skip(1) =~= first.skip(1) + second);
        match worker_parsed(
            without_ansi(first[0].2),
            "node"@ + crate::text::decimal(first[0].0 as nat),
            data,
        ) {
            Ok(next) => edge_worker_logs_are_read_in_order(next, first.skip(1), second),
            Err(_) => {},
        }
    }
}

/// The items that a node has recorded for a job, where there are any.
pub open spec fn recorded_items(pipelines: Pipelines, job: Seq<char>, node: Seq<char>) -> Option<
    Seq<crate::log::ItemModel>,
> {
    if pipelines.dom().contains(job) && pipelines[job].dom().contains(node) {
        Some(pipelines[job][node])
    } else {
        None
    }
}

/// When a job ends on a node, all its items are recorded for that node and no other, unless it is a
/// skipped re-dispatch or the node has items for it already.
pub proof fn ended_job_is_recorded(
    pipelines: Pipelines,
    state: Pairing,
    node: Seq<char>,
    job: Seq<char>,
    other: Seq<char>,
)
    ensures
        ({
            let after = flushed(pipelines, state, node);
            &&& state.skip ==> after == pipelines
            &&& !state.skip ==> recorded_items(after, state.job, node) == (if recorded_items(
                pipelines,
                state.job,
                node,
            ) is Some {
                recorded_items(pipelines, state.job, node)
            } else {
                Some(all_items(state))
            })
            &&& job != state.job || other != node ==> recorded_items(after, job, other)
                == recorded_items(pipelines, job, other)
        }),
{
}

/// A newly announced job starts empty under the key of its id, and is skipped if and only if the node
/// has items for it already.
pub proof fn announced_job_starts_empty(id: Seq<char>, node: Seq<char>, pipelines: Pipelines)
    ensures
        announced(id, node, pipelines) == new_pairing(
            prefix_of(id),
            recorded_items(pipelines, prefix_of(id), node) is Some,
        ),
        announced(id, node, pipelines).items.len() == 0,
{
}

/// A contribution marker ends the job in the contribution slot and announces its own there. A prove
/// marker ends the job in the prove slot; it takes the contribution's job over where it names it, and
/// otherwise announces its own. A restart ends both jobs.
pub proof fn slots_follow_the_jobs(slots: Slots, line: Seq<char>, node: Seq<char>)
    ensures
        ({
            let contribution = around_first(line, " INFO: Starting Partial Contribution for "@);
            let prove = around_first(line, " INFO: Starting Prove for JobId("@);
            &&& stamped(line) && contribution is Some ==> {
                let after = stepped(slots, line, node);
                let pipelines = slot_flushed(slots.pipelines, slots.p1, node);
                &&& after is Ok
                &&& after->Ok_0.pipelines == pipelines
                &&& after->Ok_0.p2 == slots.p2
                &&& after->Ok_0.p1 == Some(announced((contribution->0).1, node, pipelines))
            }
            &&& stamped(line) && contribution is None && prove is Some ==> {
                let after = stepped(slots, line, node);
                let pipelines = slot_flushed(slots.pipelines, slots.p2, node);
                let id = (prove->0).1;
                &&& after is Ok
                &&& after->Ok_0.pipelines == pipelines
                &&& slots.p1 is Some && slots.p1->0.job == prefix_of(id) ==> after->Ok_0.p1 is None
                    && after->Ok_0.p2 == slots.p1
                &&& slots.p1 is None || slots.p1->0.job != prefix_of(id) ==> after->Ok_0.p1
                    == slots.p1 && after->Ok_0.p2 == Some(announced(id, node, pipelines))
            }
            &&& !stamped(line) && banner(line) ==> {
                let after = stepped(slots, line, node);
                &&& after is Ok && after->Ok_0.p1 is None && after->Ok_0.p2 is None
                &&& after->Ok_0.pipelines == slot_flushed(
                    slot_flushed(slots.pipelines, slots.p2, node),
                    slots.p1,
                    node,
                )
            }
            &&& !stamped(line) && !banner(line) ==> stepped(slots, line, node) == Ok::<
                Slots,
                Failure,
            >(slots)
        }),
{
}

/// A recognised marker opens or closes its bracket at the line's moment with the tag and the duration
/// that the line prints. An open goes to the slot of its kind's phase, and the other slot and the
/// recorded items stay.
pub proof fn marker_opens_or_closes_its_bracket(
    slots: Slots,
    line: Seq<char>,
    tail: Seq<char>,
    ns: int,
)
    requires
        words_of(tail).len() > 0,
        classified(words_of(tail)[0], slots.p1 is None) is Some,
        ts_read(first_token(line)) == Ok::<int, Failure>(ns),
    ensures
        ({
            let hit = classified(words_of(tail)[0], slots.p1 is None)->0;
            let rest = words_of(tail).skip(1);
            let (tag, duration) = tag_and_duration(rest, rest.len() as int);
            let open = marked(slots, line, true, tail);
            let close = marked(slots, line, false, tail);
            let early = kind_row(hit.kind as int).phase@ == "emulation"@ || kind_row(
                hit.kind as int,
            ).phase@ == "commit"@;
            &&& open is Ok && close is Ok
            &&& open->Ok_0.pipelines == slots.pipelines
            &&& early ==> open->Ok_0.p1 == slot_opened(slots.p1, hit, tag, ms_of(ns))
                && open->Ok_0.p2 == slots.p2
            &&& !early ==> open->Ok_0.p2 == slot_opened(slots.p2, hit, tag, ms_of(ns))
                && open->Ok_0.p1 == slots.p1
            &&& close->Ok_0 == routed_close(slots, hit, tag, ms_of(ns), duration)
        }),
{
}

/// A marker's tag is the last word in square brackets, without them, and its duration the last word in
/// round brackets that ends in ms, read as milliseconds; other words say nothing.
pub proof fn tag_and_duration_are_the_last_printed(
    words: Seq<Seq<char>>,
    word: Seq<char>,
)
    ensures
        tag_and_duration(words, 0) == (Seq::<char>::empty(), None::<i64>),
        ({
            let before = tag_and_duration(words, words.len() as int);
            let after = tag_and_duration(words.push(word), words.len() as int + 1);
            &&& between(word, "["@, "]"@) is Some ==> after == (
                between(word, "["@, "]"@)->0,
                before.1,
            )
            &&& between(word, "["@, "]"@) is None && between(word, "("@, "ms)"@) is Some ==> {
                let ms = i64_read(between(word, "("@, "ms)"@)->0);
                &&& after.0 == before.0
                &&& after.1 is Some <==> ms is Some
                &&& after.1 is Some ==> after.1->0 == ms->0
            }
            &&& between(word, "["@, "]"@) is None && between(word, "("@, "ms)"@) is None ==> after
                == before
        }),
{
    lemma_words_before(words, word, words.len() as int);
    if between(word, "("@, "ms)"@) is Some {
        crate::laws::texts::signed_is_within(between(word, "("@, "ms)"@)->0);
    }
}

proof fn lemma_words_before(words: Seq<Seq<char>>, word: Seq<char>, count: int)
    requires
        0 <= count <= words.len(),
    ensures
        tag_and_duration(words.push(word), count) == tag_and_duration(words, count),
    decreases count,
{
    if count > 0 {
        lemma_words_before(words, word, count - 1);
        assert(words.push(word)[count - 1] == words[count - 1]);
    }
}

proof fn lemma_present(present: Seq<bool>, count: int)
    requires
        0 <= count <= present.len(),
    ensures
        ({
            let metrics = present_upto(present, count);
            forall|def: MetricDef|
                #[trigger] metrics.contains(def) <==> exists|i: int|
                    0 <= i < count && #[trigger] present[i] && metric_row(i) == def
        }),
    decreases count,
{
    if count > 0 {
        lemma_present(present, count - 1);
        let before = present_upto(present, count - 1);
        let after = present_upto(present, count);
        assert forall|def: MetricDef|
            #[trigger] after.contains(def) <==> exists|i: int|
            0 <= i < count && #[trigger] present[i] && metric_row(i) == def by {
            if before.contains(def) {
                let k = choose|k: int| 0 <= k < before.len() && before[k] == def;
                assert(after[k] == def);
                let i = choose|i: int|
                    0 <= i < count - 1 && #[trigger] present[i] && metric_row(i) == def;
                assert(present[i] && metric_row(i) == def);
            }
            if after.contains(def) && !before.contains(def) {
                let k = choose|k: int| 0 <= k < after.len() && after[k] == def;
                if k < before.len() {
                    assert(before[k] == def);
                }
                assert(present[count - 1] && metric_row(count - 1) == def);
            }
            if exists|i: int| 0 <= i < count && #[trigger] present[i] && metric_row(i) == def {
                let i = choose|i: int|
                    0 <= i < count && #[trigger] present[i] && metric_row(i) == def;
                if i < count - 1 {
                    assert(before.contains(def));
                } else {
                    assert(after[before.len() as int] == def);
                }
            }
        }
    }
}

/// The metrics of a document are those of the catalog that some node reported.
pub proof fn reported_metrics_are_listed(present: Seq<bool>, def: MetricDef)
    requires
        present.len() == METRIC_COUNT,
    ensures
        present_upto(present, METRIC_COUNT as int).contains(def) <==> exists|i: int|
            0 <= i < METRIC_COUNT && #[trigger] present[i] && metric_row(i) == def,
{
    lemma_present(present, METRIC_COUNT as int);
}

/// Only the two PCIe metrics keep a decimal, only the two utilizations have a maximum, and it is one
/// hundred.
pub proof fn catalog_scales_by_metric(metric: int)
    requires
        0 <= metric < METRIC_COUNT,
    ensures
        metric_row(metric).one_decimal <==> metric_row(metric).unit@ == "MiB/s"@,
        metric_row(metric).max is Some ==> metric_row(metric).max == Some(100u32) && metric_row(
            metric,
        ).unit@ == "%"@,
        metric_row(metric).key@ == "sm"@ || metric_row(metric).key@ == "mem"@ <==> metric_row(
            metric,
        ).max is Some,
{
    reveal_strlit("MiB/s");
    reveal_strlit("MiB");
    reveal_strlit("MHz");
    reveal_strlit("W");
    reveal_strlit("%");
    reveal_strlit("C");
    reveal_strlit("pwr");
    reveal_strlit("sm");
    reveal_strlit("mem");
    reveal_strlit("rxpci");
    reveal_strlit("txpci");
    reveal_strlit("gtemp");
    reveal_strlit("pclk");
    reveal_strlit("pviol");
    reveal_strlit("tviol");
    reveal_strlit("fb");
    reveal_strlit("bar1");
    reveal_strlit("ccpm");
    assert("MiB/s"@.len() == 5 && "MiB"@.len() == 3 && "MHz"@.len() == 3);
    assert("W"@.len() == 1 && "%"@.len() == 1 && "C"@.len() == 1);
    assert("mem"@[0] == 'm' && "pwr"@[0] == 'p');
    assert("fb"@[0] == 'f' && "sm"@[0] == 's');
}

} // verus!
