//! What holds of every plan of runs and of every document on disk.

use vstd::prelude::*;

use crate::output::{archive_name, archives_upto, lean_document, stored_text, stores};
use crate::run::{
    blocks_upto, id_of_input, input_ids, lemma_rank, ordered_inputs, plan_of, rank_keys,
};
use crate::schema::{Benchmark, Block, Run};
use crate::sort::{comes_before, lemma_stable_order_of, stable_order};
use crate::text::{lemma_precedes_total, precedes};
use crate::text_map::{lemma_sorted_unique, strictly_sorted};

verus! {

/// The runs come in the order of their ids: of two planned runs the later never has the earlier id.
pub proof fn runs_come_in_id_order(
    inputs: Seq<Seq<char>>,
    force: bool,
    patch: bool,
    first: int,
    second: int,
)
    requires
        inputs.len() <= i64::MAX,
        inputs.len() <= usize::MAX,
        0 <= first < second < plan_of(inputs, force, patch).len(),
    ensures
        !precedes(
            id_of_input(plan_of(inputs, force, patch)[second].0),
            id_of_input(plan_of(inputs, force, patch)[first].0),
        ),
{
    let ids = input_ids(inputs);
    let keys = rank_keys(ids);
    lemma_stable_order_of(keys);
    let order = stable_order(keys);
    let (a, b) = (order[first], order[second]);
    assert(order.contains(a));
    assert(order.contains(b));
    assert(comes_before(keys, order[first], order[second]));
    let (left, right) = (ids[a as int], ids[b as int]);
    if precedes(right, left) {
        lemma_rank(ids, right, left, ids.len() as int);
        assert(ids.take(ids.len() as int) =~= ids);
        assert(ids.contains(right));
    }
}

/// Only the first run honours force and may create the document, and every later run is a patch.
pub proof fn later_runs_are_patches(
    inputs: Seq<Seq<char>>,
    force: bool,
    patch: bool,
    at: int,
)
    requires
        0 < at < plan_of(inputs, force, patch).len(),
    ensures
        !plan_of(inputs, force, patch)[at].1,
        plan_of(inputs, force, patch)[at].2,
{
}

/// Every input is parsed: a plan holds as many runs as there are inputs, and each input is among
/// them.
pub proof fn every_input_is_planned(
    inputs: Seq<Seq<char>>,
    force: bool,
    patch: bool,
    input: int,
)
    requires
        inputs.len() <= usize::MAX,
        0 <= input < inputs.len(),
    ensures
        plan_of(inputs, force, patch).len() == inputs.len(),
        exists|at: int|
            0 <= at < inputs.len() && (#[trigger] plan_of(inputs, force, patch)[at]).0
                == inputs[input],
{
    let keys = rank_keys(input_ids(inputs));
    lemma_stable_order_of(keys);
    let order = stable_order(keys);
    assert(order.contains(input as usize));
    let at = choose|at: int| 0 <= at < order.len() && order[at] == input as usize;
    assert(plan_of(inputs, force, patch)[at].0 == inputs[input]);
}

/// Many inputs are parsed as one run per input would be: the plan is, one after another, the plans of
/// each input alone in run-id order, the first under the flags given and each later one as a patch.
pub proof fn many_inputs_are_one_run_each(
    inputs: Seq<Seq<char>>,
    force: bool,
    patch: bool,
    at: int,
)
    requires
        inputs.len() <= usize::MAX,
        0 <= at < inputs.len(),
    ensures
        plan_of(inputs, force, patch).len() == inputs.len(),
        plan_of(
            seq![ordered_inputs(inputs)[at]],
            if at == 0 {
                force
            } else {
                false
            },
            if at == 0 {
                patch
            } else {
                true
            },
        ) == seq![plan_of(inputs, force, patch)[at]],
{
    lemma_stable_order_of(rank_keys(input_ids(inputs)));
    let one = seq![ordered_inputs(inputs)[at]];
    let keys = rank_keys(input_ids(one));
    lemma_stable_order_of(keys);
    let order = stable_order(keys);
    assert(order[0] == 0);
    assert(ordered_inputs(one) =~= one);
    let (alone_force, alone_patch) = if at == 0 {
        (force, patch)
    } else {
        (false, true)
    };
    assert(plan_of(one, alone_force, alone_patch) =~= seq![plan_of(inputs, force, patch)[at]]);
}

/// No input, no run.
pub proof fn no_input_plans_nothing(force: bool, patch: bool)
    ensures
        plan_of(seq![], force, patch) == Seq::<(Seq<char>, bool, bool)>::empty(),
{
    let none: Seq<Seq<char>> = seq![];
    lemma_stable_order_of(rank_keys(input_ids(none)));
    assert(plan_of(none, force, patch) =~= seq![]);
}

/// Whether no two inputs have the same run id.
pub open spec fn distinct_ids(inputs: Seq<Seq<char>>) -> bool {
    forall|i: int, j: int|
        0 <= i < inputs.len() && 0 <= j < inputs.len() && i != j ==> id_of_input(
            #[trigger] inputs[i],
        ) != id_of_input(#[trigger] inputs[j])
}

proof fn lemma_ordered_strictly(inputs: Seq<Seq<char>>)
    requires
        inputs.len() <= i64::MAX,
        inputs.len() <= usize::MAX,
        distinct_ids(inputs),
    ensures
        strictly_sorted(input_ids(ordered_inputs(inputs))),
        forall|input: Seq<char>| #[trigger]
            ordered_inputs(inputs).contains(input) <==> inputs.contains(input),
{
    let keys = rank_keys(input_ids(inputs));
    lemma_stable_order_of(keys);
    let order = stable_order(keys);
    let ordered = ordered_inputs(inputs);
    let ids = input_ids(ordered);
    assert forall|i: int, j: int| 0 <= i < j < ids.len() implies precedes(
        #[trigger] ids[i],
        #[trigger] ids[j],
    ) by {
        runs_come_in_id_order(inputs, false, false, i, j);
        assert(comes_before(keys, order[i], order[j]));
        let (a, b) = (order[i] as int, order[j] as int);
        assert(a != b);
        assert(id_of_input(inputs[a]) != id_of_input(inputs[b]));
        lemma_precedes_total(ids[i], ids[j]);
    }
    assert forall|input: Seq<char>| #[trigger]
        ordered.contains(input) <==> inputs.contains(input) by {
        if ordered.contains(input) {
            let i = choose|i: int| 0 <= i < ordered.len() && ordered[i] == input;
            assert(inputs[order[i] as int] == input);
        }
        if inputs.contains(input) {
            let i = choose|i: int| 0 <= i < inputs.len() && inputs[i] == input;
            assert(order.contains(i as usize));
            let at = choose|at: int| 0 <= at < order.len() && order[at] == i as usize;
            assert(ordered[at] == input);
        }
    }
}

/// The order in which inputs of distinct run ids are given does not matter: two lists of the same
/// inputs are planned alike.
pub proof fn input_order_does_not_matter(
    inputs: Seq<Seq<char>>,
    others: Seq<Seq<char>>,
    force: bool,
    patch: bool,
)
    requires
        inputs.len() <= i64::MAX,
        inputs.len() <= usize::MAX,
        others.len() <= i64::MAX,
        others.len() <= usize::MAX,
        distinct_ids(inputs),
        distinct_ids(others),
        forall|input: Seq<char>|
            #![trigger inputs.contains(input)]
            #![trigger others.contains(input)]
            inputs.contains(input) <==> others.contains(input),
    ensures
        plan_of(inputs, force, patch) == plan_of(others, force, patch),
{
    let (left, right) = (ordered_inputs(inputs), ordered_inputs(others));
    let (left_ids, right_ids) = (input_ids(left), input_ids(right));
    lemma_ordered_strictly(inputs);
    lemma_ordered_strictly(others);
    assert forall|id: Seq<char>|
        #![trigger left_ids.contains(id)]
        #![trigger right_ids.contains(id)]
        left_ids.contains(id) <==> right_ids.contains(id) by {
        if left_ids.contains(id) {
            let i = choose|i: int| 0 <= i < left_ids.len() && left_ids[i] == id;
            assert(left.contains(left[i]));
            assert(inputs.contains(left[i]));
            assert(right.contains(left[i]));
            let j = choose|j: int| 0 <= j < right.len() && right[j] == left[i];
            assert(right_ids[j] == id);
        }
        if right_ids.contains(id) {
            let i = choose|i: int| 0 <= i < right_ids.len() && right_ids[i] == id;
            assert(right.contains(right[i]));
            assert(others.contains(right[i]));
            assert(left.contains(right[i]));
            let j = choose|j: int| 0 <= j < left.len() && left[j] == right[i];
            assert(left_ids[j] == id);
        }
    }
    lemma_sorted_unique(left_ids, right_ids);
    assert forall|i: int| 0 <= i < left.len() implies left[i] == right[i] by {
        assert(left_ids[i] == right_ids[i]);
        assert(left.contains(left[i]));
        assert(right.contains(right[i]));
        assert(inputs.contains(left[i]));
        assert(others.contains(right[i]));
        assert(inputs.contains(right[i]));
        let a = choose|a: int| 0 <= a < inputs.len() && inputs[a] == left[i];
        let b = choose|b: int| 0 <= b < inputs.len() && inputs[b] == right[i];
        if a != b {
            assert(id_of_input(inputs[a]) != id_of_input(inputs[b]));
        }
    }
    assert(left =~= right);
}

/// A path alone decides the framing, so what was written at a path is read back there.
pub proof fn read_gives_back_what_was_written(path: Seq<char>, stored: Seq<u8>, text: Seq<u8>)
    requires
        stores(path, stored, text),
    ensures
        stored_text(path, stored) == Some(text),
{
}

/// A document is read back as it was written, without the log lines of its blocks, whether or not
/// the path names a compressed document: given an encoding of documents as text that decodes what it
/// encodes, the text that the stored bytes hold decodes to the lean document.
pub proof fn document_is_read_back_without_logs<S, T>(
    path: Seq<char>,
    document: Benchmark<S, T>,
    lean: Benchmark<S, T>,
    stored: Seq<u8>,
    encode: spec_fn(Benchmark<S, T>) -> Seq<u8>,
    decode: spec_fn(Seq<u8>) -> Option<Benchmark<S, T>>,
)
    requires
        lean_document(document, lean),
        stores(path, stored, encode(lean)),
        decode(encode(lean)) == Some(lean),
    ensures
        stored_text(path, stored) is Some,
        decode(stored_text(path, stored)->0) is Some,
        lean_document(document, decode(stored_text(path, stored)->0)->0),
{
    read_gives_back_what_was_written(path, stored, encode(lean));
}

/// A block with log lines gets an archive under its own name, and one without gets none.
pub proof fn blocks_with_logs_are_archived(blocks: Seq<Block>, count: int, block: int)
    requires
        0 <= block < count <= blocks.len() <= usize::MAX,
    ensures
        blocks[block].logs@.len() > 0 <==> archives_upto(blocks, count).contains(
            (block as usize, archive_name(blocks[block].name@)),
        ),
    decreases count,
{
    let before = archives_upto(blocks, count - 1);
    let after = archives_upto(blocks, count);
    let entry = (block as usize, archive_name(blocks[block].name@));
    if block < count - 1 {
        blocks_with_logs_are_archived(blocks, count - 1, block);
        if before.contains(entry) {
            let k = choose|k: int| 0 <= k < before.len() && before[k] == entry;
            assert(after[k] == entry);
        }
        if after.contains(entry) {
            let k = choose|k: int| 0 <= k < after.len() && after[k] == entry;
            assert(k < before.len());
            assert(before[k] == entry);
        }
    } else {
        lemma_archived_before(blocks, count - 1);
        if blocks[block].logs@.len() > 0 {
            assert(after[before.len() as int] == entry);
        } else if after.contains(entry) {
            let k = choose|k: int| 0 <= k < after.len() && after[k] == entry;
            assert(before[k].0 < count - 1);
        }
    }
}

proof fn lemma_archived_before(blocks: Seq<Block>, count: int)
    requires
        0 <= count <= blocks.len() <= usize::MAX,
    ensures
        forall|k: int|
            0 <= k < archives_upto(blocks, count).len() ==> (#[trigger] archives_upto(
                blocks,
                count,
            )[k]).0 < count,
    decreases count,
{
    if count > 0 {
        lemma_archived_before(blocks, count - 1);
        let before = archives_upto(blocks, count - 1);
        let after = archives_upto(blocks, count);
        assert forall|k: int| 0 <= k < after.len() implies (#[trigger] after[k]).0 < count by {
            if k < before.len() {
                assert(after[k] == before[k]);
            }
        }
    }
}

/// The number of blocks of the first `count` runs.
pub open spec fn all_blocks<S, T>(runs: Seq<Run<S, T>>, count: int) -> int
    decreases count,
{
    if count <= 0 {
        0
    } else {
        all_blocks(runs, count - 1) + runs[count - 1].blocks@.len()
    }
}

/// The blocks that a document contributes are those of all its runs together, where the number fits.
pub proof fn every_block_is_counted<S, T>(runs: Seq<Run<S, T>>, count: int)
    requires
        0 <= count <= runs.len(),
        all_blocks(runs, count) <= usize::MAX,
    ensures
        blocks_upto(runs, count) == all_blocks(runs, count),
        0 <= all_blocks(runs, count),
    decreases count,
{
    if count > 0 {
        lemma_blocks_not_negative(runs, count - 1);
        every_block_is_counted(runs, count - 1);
    }
}

proof fn lemma_blocks_not_negative<S, T>(runs: Seq<Run<S, T>>, count: int)
    ensures
        0 <= all_blocks(runs, count),
    decreases count,
{
    if count > 0 {
        lemma_blocks_not_negative(runs, count - 1);
    }
}

/// A run's id is the name of its directory, empty where the directory has no name.
pub proof fn run_id_is_the_directory_name(input: Seq<char>)
    ensures
        crate::paths::name_of(input) is Some ==> id_of_input(input) == crate::paths::name_of(
            input,
        )->0,
        crate::paths::name_of(input) is None ==> id_of_input(input).len() == 0,
{
}

/// A path holds a compressed document if and only if its extension is zst or zstd, so the path that
/// the flag for compression makes always does.
pub proof fn compressed_path_is_told_by_its_extension(path: Seq<char>)
    ensures
        crate::output::is_compressed(path) <==> crate::paths::extension_of(path) == Some("zst"@)
            || crate::paths::extension_of(path) == Some("zstd"@),
        crate::paths::name_of(path) is Some ==> crate::output::is_compressed(
            crate::paths::extended(path, "zstd"@),
        ),
{
    reveal_strlit("zstd");
    if crate::paths::name_of(path) is Some {
        let extension = "zstd"@;
        assert forall|i: int| 0 <= i < extension.len() implies #[trigger] extension[i] != '/'
            && extension[i] != '.' by {}
        crate::laws::texts::added_extension_is_the_extension(path, extension);
    }
}

} // verus!
