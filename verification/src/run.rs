//! Which runs are parsed in what order, and what becomes of the document at the output path.

use vstd::prelude::*;

use crate::error::{Failure, ParseError, Result};
use crate::paths::{extended, file_name, name_of, with_added_extension};
use crate::schema::{Benchmark, Run};
use crate::sort::{arranged, sort_places, stable_order};
use crate::text::{before, lemma_precedes_total, lemma_precedes_transitive, precedes, to_chars};

verus! {

/// Arguments for the parse-benchmark subcommand.
pub struct ParseBenchmarkArgs {
    /// Run directories, every one being a run of the one benchmark.
    pub input: Vec<String>,
    /// Output path for the generated benchmark document.
    pub output: String,
    /// Overwrite the output file when it already exists.
    pub force: bool,
    /// Append the run to the existing document at the output path, asserting the same cluster.
    pub patch: bool,
    /// Compress the document, appending a .zstd suffix to the output path.
    pub zstd: bool,
}

impl ParseBenchmarkArgs {
    /// The path the document is written to, the output path with a .zstd suffix when compressing.
    /// The suffix is appended rather than replacing the .json one, so the file names the format it
    /// decompresses to and the sibling log tree still resolves from the same parent.
    pub fn output_path(&self) -> (path: String)
        ensures
            path@ == if self.zstd {
                extended(self.output@, "zstd"@)
            } else {
                self.output@
            },
    {
        proof {
            reveal_strlit("zstd");
        }
        if self.zstd {
            with_added_extension(self.output.as_str(), "zstd")
        } else {
            self.output.clone()
        }
    }
}

/// The run id of an input directory, empty where it has no basename.
pub open spec fn id_of_input(input: Seq<char>) -> Seq<char> {
    match name_of(input) {
        Some(name) => name,
        None => seq![],
    }
}

/// The run id of an input directory, its basename, the key the runs are ordered by.
pub fn run_id_of(input: &str) -> (id: String)
    ensures
        id@ == id_of_input(input@),
{
    match file_name(input) {
        Some(name) => name,
        None => {
            let none = String::new();
            assert(none@ =~= seq![]);
            none
        },
    }
}

/// The id that an input directory's run is assembled under, its basename or a stand-in where it has
/// none.
pub fn run_name(input: &str) -> (name: String)
    ensures
        name@ == if id_of_input(input@).len() == 0 {
            "run"@
        } else {
            id_of_input(input@)
        },
{
    let id: String = run_id_of(input);
    if to_chars(id.as_str()).len() == 0 {
        "run".to_string()
    } else {
        id
    }
}

/// The number of the first `count` ids that come before an id in the order of texts.
pub open spec fn rank(ids: Seq<Seq<char>>, id: Seq<char>, count: int) -> int
    decreases count,
{
    if count <= 0 {
        0
    } else if precedes(ids[count - 1], id) {
        rank(ids, id, count - 1) + 1
    } else {
        rank(ids, id, count - 1)
    }
}

/// The run ids of input directories.
pub open spec fn input_ids(inputs: Seq<Seq<char>>) -> Seq<Seq<char>> {
    inputs.map_values(|input: Seq<char>| id_of_input(input))
}

/// The sort keys of ids, their ranks in the order of texts.
pub open spec fn rank_keys(ids: Seq<Seq<char>>) -> Seq<(i64, i64)> {
    ids.map_values(|id: Seq<char>| (rank(ids, id, ids.len() as int) as i64, 0i64))
}

/// The ranks of two ids compare as the ids do.
pub proof fn lemma_rank(ids: Seq<Seq<char>>, left: Seq<char>, right: Seq<char>, count: int)
    requires
        precedes(left, right),
        0 <= count <= ids.len(),
    ensures
        0 <= rank(ids, left, count) <= rank(ids, right, count) <= count,
        ids.take(count).contains(left) ==> rank(ids, left, count) < rank(ids, right, count),
    decreases count,
{
    if count > 0 {
        lemma_rank(ids, left, right, count - 1);
        let id = ids[count - 1];
        lemma_precedes_total(left, left);
        if precedes(id, left) {
            lemma_precedes_transitive(id, left, right);
        }
        if ids.take(count).contains(left) {
            let at = choose|at: int| 0 <= at < count && ids.take(count)[at] == left;
            if at < count - 1 {
                assert(ids.take(count - 1)[at] == left);
                assert(ids.take(count - 1).contains(left));
            }
        }
    }
}

/// One run of the plan: its input directory, and the flags it is persisted under.
pub struct PlannedRun {
    pub input: String,
    pub force: bool,
    pub patch: bool,
}

impl DeepView for PlannedRun {
    type V = (Seq<char>, bool, bool);

    open spec fn deep_view(&self) -> (Seq<char>, bool, bool) {
        (self.input@, self.force, self.patch)
    }
}

/// The inputs in run-id order, those of one id in the order given.
pub open spec fn ordered_inputs(inputs: Seq<Seq<char>>) -> Seq<Seq<char>> {
    arranged(inputs, stable_order(rank_keys(input_ids(inputs))))
}

/// The runs in the order in which they are parsed. The earliest run creates the document unless
/// patching onto an existing one, and only that creating run honours force, with every later run
/// always a patch.
pub open spec fn plan_of(inputs: Seq<Seq<char>>, force: bool, patch: bool) -> Seq<
    (Seq<char>, bool, bool),
> {
    let ordered = ordered_inputs(inputs);
    Seq::new(ordered.len(), |i: int| (ordered[i], force && i == 0, patch || i > 0))
}

fn count_before(ids: &Vec<String>, id: &str) -> (count: i64)
    requires
        ids@.len() <= i64::MAX,
    ensures
        count == rank(ids.deep_view(), id@, ids@.len() as int),
{
    let ghost model = ids.deep_view();
    let key: Vec<char> = to_chars(id);
    let mut count: i64 = 0;
    for i in 0..ids.len()
        invariant
            key@ == id@,
            ids@.len() <= i64::MAX,
            model == ids.deep_view(),
            count == rank(model, id@, i as int),
            0 <= count <= i,
    {
        assert(model[i as int] == ids@[i as int]@);
        let other: Vec<char> = to_chars(ids[i].as_str());
        if before(other.as_slice(), key.as_slice()) {
            count = count + 1;
        }
    }
    count
}

/// Plans the parse of every input run into one document, the runs taken in run-id order so the
/// earliest creates the document and each later run is patched onto it. The outcome matches parsing
/// the first run alone and patching each later run in turn.
pub fn run(inputs: &Vec<String>, force: bool, patch: bool) -> (plan: Vec<PlannedRun>)
    requires
        inputs@.len() <= i64::MAX,
    ensures
        plan.deep_view() == plan_of(inputs.deep_view(), force, patch),
{
    let ghost model = inputs.deep_view();
    let mut ids: Vec<String> = Vec::new();
    for i in 0..inputs.len()
        invariant
            ids@.len() == i,
            forall|k: int|
                0 <= k < i ==> (#[trigger] ids@[k]).deep_view() == id_of_input(inputs@[k]@),
    {
        ids.push(run_id_of(inputs[i].as_str()));
    }
    assert(ids.deep_view() =~= input_ids(model));
    let ghost names = ids.deep_view();
    let mut keys: Vec<(i64, i64)> = Vec::new();
    for i in 0..ids.len()
        invariant
            ids@.len() <= i64::MAX,
            names == ids.deep_view(),
            keys@.len() == i,
            forall|k: int|
                0 <= k < i ==> #[trigger] keys@[k] == (
                    rank(names, names[k], names.len() as int) as i64,
                    0i64,
                ),
    {
        assert(names[i as int] == ids@[i as int]@);
        keys.push((count_before(&ids, ids[i].as_str()), 0));
    }
    assert(keys@ =~= rank_keys(names));
    let order: Vec<usize> = sort_places(&keys);
    let mut plan: Vec<PlannedRun> = Vec::new();
    for i in 0..order.len()
        invariant
            keys@.len() == inputs@.len(),
            forall|k: int| 0 <= k < order@.len() ==> #[trigger] order@[k] < keys@.len(),
            plan@.len() == i,
            forall|k: int|
                0 <= k < i ==> (#[trigger] plan@[k]).deep_view() == (
                    inputs@[order@[k] as int]@,
                    force && k == 0,
                    patch || k > 0,
                ),
    {
        plan.push(
            PlannedRun {
                input: inputs[order[i]].clone(),
                force: force && i == 0,
                patch: patch || i > 0,
            },
        );
    }
    assert(plan.deep_view() =~= plan_of(model, force, patch));
    plan
}

/// What becomes of a parsed run.
#[derive(Clone, Copy, PartialEq, Eq, Debug, Structural)]
pub enum Persist {
    /// The run starts a fresh document.
    Create,
    /// The run is appended to the existing document at the output path.
    Append,
}

/// Decides what becomes of a parsed run, given whether the output path holds a document.
///
/// Without `patch` the run starts a fresh document, refusing to clobber an existing output unless
/// `force` is set. With `patch` the run is appended to the existing same-cluster document at the
/// output path.
pub fn run_one(output: &str, present: bool, force: bool, patch: bool) -> (persist: Result<Persist>)
    ensures
        if patch && !present {
            persist is Err && persist->Err_0@ == Failure::PatchTargetMissing(output@)
        } else if patch {
            persist == Ok::<Persist, ParseError>(Persist::Append)
        } else if present && !force {
            persist is Err && persist->Err_0@ == Failure::OutputExists(output@)
        } else {
            persist == Ok::<Persist, ParseError>(Persist::Create)
        },
{
    if patch {
        if !present {
            return Err(ParseError::PatchTargetMissing(output.to_string()));
        }
        return Ok(Persist::Append);
    }
    if present && !force {
        return Err(ParseError::OutputExists(output.to_string()));
    }
    Ok(Persist::Create)
}

/// The number of blocks in the first `count` runs.
pub open spec fn blocks_upto<S, T>(runs: Seq<Run<S, T>>, count: int) -> usize
    decreases count,
{
    if count <= 0 {
        0
    } else {
        blocks_upto(runs, count - 1).wrapping_add(runs[count - 1].blocks@.len() as usize)
    }
}

/// The number of blocks that the runs of a document contribute.
pub fn block_total<S, T>(document: &Benchmark<S, T>) -> (total: usize)
    ensures
        total == blocks_upto(document.runs@, document.runs@.len() as int),
{
    let mut total: usize = 0;
    for i in 0..document.runs.len()
        invariant
            total == blocks_upto(document.runs@, i as int),
    {
        total = total.wrapping_add(document.runs[i].blocks.len());
    }
    total
}

} // verus!
