//! What holds of every document that runs are appended to.

use vstd::prelude::*;

use crate::merge::{
    appended, block_names, candidate, duplicate_in, duplicate_upto, free_id, lemma_free_id,
    merged_identity, mismatch, run_ids, share_prefix, Identity,
};
use crate::schema::Run;
use crate::text::decimal;

verus! {

/// Whether no two runs have the same id.
pub open spec fn distinct_ids<S, T>(runs: Seq<Run<S, T>>) -> bool {
    forall|i: int, j: int|
        0 <= i < j < runs.len() ==> (#[trigger] runs[i]).id@ != (#[trigger] runs[j]).id@
}

/// Every run stays addressable: a run appended to a document whose run ids are distinct leaves them
/// distinct.
pub proof fn run_ids_stay_distinct<S, T>(
    runs: Seq<Run<S, T>>,
    after: Seq<Run<S, T>>,
    parsed: Run<S, T>,
)
    requires
        distinct_ids(runs),
        after.len() == runs.len() + 1,
        after.drop_last() == runs,
        appended(after.last(), parsed, run_ids(runs)),
    ensures
        distinct_ids(after),
{
    lemma_free_id(run_ids(runs), parsed.id@);
    assert forall|i: int, j: int| 0 <= i < j < after.len() implies (#[trigger] after[i]).id@ != (
    #[trigger] after[j]).id@ by {
        assert(after[i] == runs[i]);
        if j < runs.len() {
            assert(after[j] == runs[j]);
        } else {
            assert(run_ids(runs)[i] == runs[i].id@);
            assert(run_ids(runs).contains(runs[i].id@));
        }
    }
}

/// A run whose id is not taken keeps it.
pub proof fn free_run_id_is_kept(ids: Seq<Seq<char>>, id: Seq<char>)
    requires
        !ids.contains(id),
    ensures
        free_id(ids, id, 0) == id,
{
}

/// A merged document's pipeline template begins with both templates, so every run's rows resolve
/// their kinds, and nothing else of the document's identity changes but a sub-phase template that it
/// did not carry.
pub proof fn merged_templates_resolve_both(existing: Identity, parsed: Identity)
    requires
        mismatch(existing, parsed) is None,
    ensures
        ({
            let merged = merged_identity(existing, parsed);
            &&& forall|i: int|
                0 <= i < existing.zkvm.pipeline.len() ==> merged.zkvm.pipeline[i]
                    == #[trigger] existing.zkvm.pipeline[i]
            &&& forall|i: int|
                0 <= i < parsed.zkvm.pipeline.len() ==> merged.zkvm.pipeline[i]
                    == #[trigger] parsed.zkvm.pipeline[i]
            &&& existing.zkvm.subphases.len() > 0 ==> merged.zkvm.subphases
                == existing.zkvm.subphases
            &&& parsed.zkvm.subphases.len() > 0 ==> merged.zkvm.subphases == parsed.zkvm.subphases
            &&& merged.hardware == existing.hardware
            &&& merged.guest == existing.guest
            &&& merged.name == existing.name
        }),
{
}

/// A document that took a run in takes a run of the same identity in again.
pub proof fn merged_document_takes_the_same_run_again(existing: Identity, parsed: Identity)
    requires
        mismatch(existing, parsed) is None,
    ensures
        mismatch(merged_identity(existing, parsed), parsed) is None,
        merged_identity(merged_identity(existing, parsed), parsed) == merged_identity(
            existing,
            parsed,
        ),
{
    let merged = merged_identity(existing, parsed);
    assert(share_prefix(merged.zkvm.pipeline, parsed.zkvm.pipeline));
}

/// A run fits a document if and only if both name the same cluster: the hardware, the guest, and the
/// backend with its version and phases are equal, the pipelines agree as far as both go, the
/// sub-phases are equal where both have them, and the benchmark has the same name.
pub proof fn merge_is_refused_across_clusters(existing: Identity, parsed: Identity)
    ensures
        mismatch(existing, parsed) is None <==> {
            &&& existing.hardware == parsed.hardware
            &&& existing.guest == parsed.guest
            &&& existing.zkvm.name == parsed.zkvm.name
            &&& existing.zkvm.version == parsed.zkvm.version
            &&& existing.zkvm.phases == parsed.zkvm.phases
            &&& forall|i: int|
                0 <= i < existing.zkvm.pipeline.len() && i < parsed.zkvm.pipeline.len()
                    ==> #[trigger] existing.zkvm.pipeline[i] == parsed.zkvm.pipeline[i]
            &&& existing.zkvm.subphases.len() == 0 || parsed.zkvm.subphases.len() == 0
                || existing.zkvm.subphases == parsed.zkvm.subphases
            &&& existing.name == parsed.name
        },
        existing.hardware != parsed.hardware ==> mismatch(existing, parsed) == Some("hardware"@),
{
}

/// A refusal names the first of the parts that differ.
pub proof fn refusal_names_what_differs(existing: Identity, parsed: Identity)
    ensures
        match mismatch(existing, parsed) {
            Some(field) => {
                ||| field == "hardware"@ && existing.hardware != parsed.hardware
                ||| field == "software"@ && (existing.guest != parsed.guest || existing.zkvm.name
                    != parsed.zkvm.name || existing.zkvm.version != parsed.zkvm.version
                    || existing.zkvm.phases != parsed.zkvm.phases)
                ||| field == "pipeline"@ && exists|i: int|
                    0 <= i < existing.zkvm.pipeline.len() && i < parsed.zkvm.pipeline.len()
                        && #[trigger] existing.zkvm.pipeline[i] != parsed.zkvm.pipeline[i]
                ||| field == "subphases"@ && existing.zkvm.subphases != parsed.zkvm.subphases
                ||| field == "name"@ && existing.name != parsed.name
            },
            None => true,
        },
{
}

/// A merged document keeps everything that names it but its templates: of the two pipelines it has the
/// longer, and the sub-phases of whichever has them.
pub proof fn merge_keeps_the_wider_templates(existing: Identity, parsed: Identity)
    ensures
        ({
            let merged = merged_identity(existing, parsed);
            &&& merged.hardware == existing.hardware
            &&& merged.guest == existing.guest
            &&& merged.name == existing.name
            &&& merged.zkvm.name == existing.zkvm.name
            &&& merged.zkvm.version == existing.zkvm.version
            &&& merged.zkvm.phases == existing.zkvm.phases
            &&& merged.zkvm.pipeline == existing.zkvm.pipeline || merged.zkvm.pipeline
                == parsed.zkvm.pipeline
            &&& merged.zkvm.pipeline.len() >= existing.zkvm.pipeline.len()
            &&& merged.zkvm.pipeline.len() >= parsed.zkvm.pipeline.len()
            &&& existing.zkvm.subphases.len() > 0 ==> merged.zkvm.subphases
                == existing.zkvm.subphases
            &&& existing.zkvm.subphases.len() == 0 ==> merged.zkvm.subphases
                == parsed.zkvm.subphases
        }),
{
}

proof fn lemma_free_id_first(ids: Seq<Seq<char>>, base: Seq<char>, n: nat)
    requires
        n <= ids.len() + 1,
    ensures
        exists|k: nat|
            {
                &&& n <= k <= ids.len() + 1
                &&& free_id(ids, base, n) == #[trigger] candidate(base, k)
                &&& forall|j: nat| n <= j < k ==> ids.contains(#[trigger] candidate(base, j))
            },
    decreases ids.len() + 1 - n,
{
    if n > ids.len() || !ids.contains(candidate(base, n)) {
        assert(free_id(ids, base, n) == candidate(base, n));
    } else {
        lemma_free_id_first(ids, base, n + 1);
        let k = choose|k: nat|
            {
                &&& n + 1 <= k <= ids.len() + 1
                &&& free_id(ids, base, n + 1) == #[trigger] candidate(base, k)
                &&& forall|j: nat| n + 1 <= j < k ==> ids.contains(#[trigger] candidate(base, j))
            };
        assert forall|j: nat| n <= j < k implies ids.contains(#[trigger] candidate(base, j)) by {}
        assert(free_id(ids, base, n) == candidate(base, k));
    }
}

/// A run's id is kept where it is free. Where it is taken, the run gets the first numbered patch of it
/// that is free: every lower one is taken.
pub proof fn patched_id_is_the_first_free_one(ids: Seq<Seq<char>>, base: Seq<char>)
    ensures
        exists|k: nat|
            {
                &&& free_id(ids, base, 0) == (if k == 0 {
                    base
                } else {
                    base + "-patch-"@ + #[trigger] decimal(k)
                })
                &&& k > 0 ==> ids.contains(base)
                &&& forall|j: nat|
                    1 <= j < k ==> ids.contains(base + "-patch-"@ + #[trigger] decimal(j))
            },
{
    lemma_free_id_first(ids, base, 0);
    let k = choose|k: nat|
        {
            &&& 0 <= k <= ids.len() + 1
            &&& free_id(ids, base, 0) == #[trigger] candidate(base, k)
            &&& forall|j: nat| 0 <= j < k ==> ids.contains(#[trigger] candidate(base, j))
        };
    if k > 0 {
        assert(ids.contains(candidate(base, 0)));
    }
    assert forall|j: nat| 1 <= j < k implies ids.contains(
        base + "-patch-"@ + #[trigger] decimal(j),
    ) by {
        assert(ids.contains(candidate(base, j)));
    }
    let text = decimal(k);
    assert(free_id(ids, base, 0) == if k == 0 {
        base
    } else {
        base + "-patch-"@ + text
    });
}

proof fn lemma_duplicate_upto(names: Seq<Seq<char>>, count: int)
    requires
        0 <= count <= names.len(),
    ensures
        match duplicate_upto(names, count) {
            Some(name) => exists|i: int, j: int|
                0 <= i < j < count && #[trigger] names[i] == name && #[trigger] names[j] == name,
            None => forall|i: int, j: int|
                0 <= i < j < count ==> #[trigger] names[i] != #[trigger] names[j],
        },
    decreases count,
{
    if count > 0 {
        lemma_duplicate_upto(names, count - 1);
        let less = names.take(count - 1);
        match duplicate_upto(names, count - 1) {
            Some(name) => {
                let (i, j) = choose|i: int, j: int|
                    0 <= i < j < count - 1 && #[trigger] names[i] == name && #[trigger] names[j]
                        == name;
                assert(names[i] == name && names[j] == name);
            },
            None => {
                if less.contains(names[count - 1]) {
                    let i = choose|i: int| 0 <= i < less.len() && less[i] == names[count - 1];
                    assert(names[i] == names[count - 1]);
                } else {
                    assert forall|i: int, j: int| 0 <= i < j < count implies #[trigger] names[i]
                        != #[trigger] names[j] by {
                        if j == count - 1 {
                            assert(less[i] == names[i]);
                        }
                    }
                }
            },
        }
    }
}

/// Whether two blocks of a run share a name.
pub open spec fn shares_a_name<S, T>(run: Run<S, T>) -> bool {
    exists|i: int, j: int|
        0 <= i < j < run.blocks@.len() && (#[trigger] run.blocks@[i]).name@ == (
        #[trigger] run.blocks@[j]).name@
}

/// A document is refused for a duplicate if and only if two blocks of one of its runs share a name.
pub proof fn duplicates_are_found_within_a_run<S, T>(runs: Seq<Run<S, T>>, count: int)
    requires
        0 <= count <= runs.len(),
    ensures
        duplicate_in(runs, count) is Some <==> exists|r: int|
            0 <= r < count && shares_a_name(#[trigger] runs[r]),
    decreases count,
{
    if count > 0 {
        duplicates_are_found_within_a_run(runs, count - 1);
        let run = runs[count - 1];
        let names = block_names(run.blocks@);
        lemma_duplicate_upto(names, names.len() as int);
        if duplicate_upto(names, names.len() as int) is Some {
            let name = duplicate_upto(names, names.len() as int)->0;
            let (i, j) = choose|i: int, j: int|
                0 <= i < j < names.len() && #[trigger] names[i] == name && #[trigger] names[j]
                    == name;
            assert(run.blocks@[i].name@ == run.blocks@[j].name@);
            assert(shares_a_name(runs[count - 1]));
        } else if shares_a_name(run) {
            let (i, j) = choose|i: int, j: int|
                0 <= i < j < run.blocks@.len() && (#[trigger] run.blocks@[i]).name@ == (
                #[trigger] run.blocks@[j]).name@;
            assert(names[i] == names[j]);
        }
        if exists|r: int| 0 <= r < count - 1 && shares_a_name(#[trigger] runs[r]) {
            let r = choose|r: int| 0 <= r < count - 1 && shares_a_name(#[trigger] runs[r]);
            assert(shares_a_name(runs[r]));
        }
        if exists|r: int| 0 <= r < count && shares_a_name(#[trigger] runs[r]) {
            let r = choose|r: int| 0 <= r < count && shares_a_name(#[trigger] runs[r]);
            if r < count - 1 {
                assert(shares_a_name(runs[r]));
            }
        }
    }
}

} // verus!
