//! Appends a freshly parsed run to an existing document.

use vstd::prelude::*;

use crate::error::{Failure, ParseError, Result};
use crate::schema::{
    Benchmark, Block, Guest, Hardware, HardwareModel, Phase, PipelineStep, Run, SubPhase, Zkvm,
    ZkvmModel,
};
use crate::text::{
    decimal, joined, lemma_decimal_reads_back, same, to_chars, to_text, write_decimal,
};
use crate::text_map::TextSet;

verus! {

/// Whether two strings are the same.
pub fn same_text(left: &String, right: &String) -> (equal: bool)
    ensures
        equal == (left@ == right@),
{
    same(to_chars(left.as_str()).as_slice(), to_chars(right.as_str()).as_slice())
}

fn same_optional(left: &Option<String>, right: &Option<String>) -> (equal: bool)
    ensures
        equal == (left.deep_view() == right.deep_view()),
{
    match (left, right) {
        (Some(left), Some(right)) => same_text(left, right),
        (None, None) => true,
        _ => false,
    }
}

fn same_texts(left: &Vec<String>, right: &Vec<String>) -> (equal: bool)
    ensures
        equal == (left.deep_view() == right.deep_view()),
{
    if left.len() != right.len() {
        assert(left.deep_view().len() != right.deep_view().len());
        return false;
    }
    for i in 0..left.len()
        invariant
            left@.len() == right@.len(),
            forall|k: int| 0 <= k < i ==> #[trigger] left@[k]@ == right@[k]@,
    {
        if !same_text(&left[i], &right[i]) {
            assert(left.deep_view()[i as int] != right.deep_view()[i as int]);
            return false;
        }
    }
    assert(left.deep_view() =~= right.deep_view());
    true
}

fn same_hardware(left: &Hardware, right: &Hardware) -> (equal: bool)
    ensures
        equal == (left.deep_view() == right.deep_view()),
{
    let ram: bool = match (left.ram_gib, right.ram_gib) {
        (Some(left), Some(right)) => left == right,
        (None, None) => true,
        _ => false,
    };
    same_optional(&left.cpu_model, &right.cpu_model) && ram && same_texts(
        &left.gpu_models,
        &right.gpu_models,
    ) && same_texts(&left.nodes, &right.nodes)
}

fn same_guest(left: &Guest, right: &Guest) -> (equal: bool)
    ensures
        equal == (left.deep_view() == right.deep_view()),
{
    same_text(&left.name, &right.name) && same_text(&left.version, &right.version)
}

fn same_phases(left: &Vec<Phase>, right: &Vec<Phase>) -> (equal: bool)
    ensures
        equal == (left.deep_view() == right.deep_view()),
{
    if left.len() != right.len() {
        assert(left.deep_view().len() != right.deep_view().len());
        return false;
    }
    for i in 0..left.len()
        invariant
            left@.len() == right@.len(),
            forall|k: int|
                0 <= k < i ==> (#[trigger] left@[k]).deep_view() == right@[k].deep_view(),
    {
        if !(same_text(&left[i].name, &right[i].name) && same_text(
            &left[i].label,
            &right[i].label,
        ) && left[i].overlap == right[i].overlap) {
            assert(left.deep_view()[i as int] != right.deep_view()[i as int]);
            return false;
        }
    }
    assert(left.deep_view() =~= right.deep_view());
    true
}

/// Whether two templates agree over the length of the shorter.
pub open spec fn share_prefix<T>(left: Seq<T>, right: Seq<T>) -> bool {
    forall|i: int| 0 <= i < left.len() && i < right.len() ==> #[trigger] left[i] == right[i]
}

fn same_step(left: &PipelineStep, right: &PipelineStep) -> (equal: bool)
    ensures
        equal == (left.deep_view() == right.deep_view()),
{
    same_text(&left.name, &right.name) && same_text(&left.label, &right.label) && same_text(
        &left.phase,
        &right.phase,
    ) && left.paired == right.paired
}

fn steps_share_prefix(left: &Vec<PipelineStep>, right: &Vec<PipelineStep>) -> (yes: bool)
    ensures
        yes == share_prefix(left.deep_view(), right.deep_view()),
{
    let mut i: usize = 0;
    while i < left.len() && i < right.len()
        invariant
            i <= left@.len(),
            i <= right@.len(),
            forall|k: int|
                0 <= k < i ==> #[trigger] left.deep_view()[k] == right.deep_view()[k],
        decreases left@.len() - i,
    {
        if !same_step(&left[i], &right[i]) {
            assert(left.deep_view()[i as int] != right.deep_view()[i as int]);
            return false;
        }
        assert(left.deep_view()[i as int] == right.deep_view()[i as int]);
        i += 1;
    }
    true
}

fn same_subphases(left: &Vec<SubPhase>, right: &Vec<SubPhase>) -> (equal: bool)
    ensures
        equal == (left.deep_view() == right.deep_view()),
{
    if left.len() != right.len() {
        assert(left.deep_view().len() != right.deep_view().len());
        return false;
    }
    for i in 0..left.len()
        invariant
            left@.len() == right@.len(),
            forall|k: int|
                0 <= k < i ==> (#[trigger] left@[k]).deep_view() == right@[k].deep_view(),
    {
        if !(same_text(&left[i].name, &right[i].name) && same_text(
            &left[i].label,
            &right[i].label,
        ) && same_text(&left[i].phase, &right[i].phase)) {
            assert(left.deep_view()[i as int] != right.deep_view()[i as int]);
            return false;
        }
    }
    assert(left.deep_view() =~= right.deep_view());
    true
}

/// The identity of a document that a patch asserts.
#[verifier::ext_equal]
pub struct Identity {
    pub hardware: HardwareModel,
    pub zkvm: ZkvmModel,
    pub guest: (Seq<char>, Seq<char>),
    pub name: Seq<char>,
}

/// The identity of a document.
pub open spec fn identity<S, T>(document: Benchmark<S, T>) -> Identity {
    Identity {
        hardware: document.hardware.deep_view(),
        zkvm: document.software.zkvm.deep_view(),
        guest: document.software.guest.deep_view(),
        name: document.name@,
    }
}

/// The field in which a run's identity differs from an existing document, the first in the order in
/// which they are compared. The templates of the two may differ in length: the component kinds
/// append after the base kinds, so their common prefix must match. At most one side may carry a
/// sub-phase template that the other does not.
pub open spec fn mismatch(existing: Identity, parsed: Identity) -> Option<Seq<char>> {
    if existing.hardware != parsed.hardware {
        Some("hardware"@)
    } else if existing.guest != parsed.guest || existing.zkvm.name != parsed.zkvm.name
        || existing.zkvm.version != parsed.zkvm.version || existing.zkvm.phases
        != parsed.zkvm.phases {
        Some("software"@)
    } else if !share_prefix(existing.zkvm.pipeline, parsed.zkvm.pipeline) {
        Some("pipeline"@)
    } else if existing.zkvm.subphases.len() > 0 && parsed.zkvm.subphases.len() > 0
        && existing.zkvm.subphases != parsed.zkvm.subphases {
        Some("subphases"@)
    } else if existing.name != parsed.name {
        Some("name"@)
    } else {
        None
    }
}

fn find_mismatch<S, T>(existing: &Benchmark<S, T>, parsed: &Benchmark<S, T>) -> (field: Option<
    String,
>)
    ensures
        field.deep_view() == mismatch(identity(*existing), identity(*parsed)),
{
    if !same_hardware(&existing.hardware, &parsed.hardware) {
        return Some("hardware".to_string());
    }
    // The pipeline and sub-phase templates are wider on a run carrying sub-steps, which appends the
    // component kinds after the base kinds and carries the sub-phase template, so a patched-image
    // run and an unpatched one still describe the same cluster. The rest of the software must match.
    let (held, new): (&Zkvm, &Zkvm) = (&existing.software.zkvm, &parsed.software.zkvm);
    if !(same_guest(&existing.software.guest, &parsed.software.guest) && same_text(
        &held.name,
        &new.name,
    ) && same_text(&held.version, &new.version) && same_phases(&held.phases, &new.phases)) {
        return Some("software".to_string());
    }
    if !steps_share_prefix(&held.pipeline, &new.pipeline) {
        return Some("pipeline".to_string());
    }
    assert(held.subphases.deep_view().len() == held.subphases@.len());
    assert(new.subphases.deep_view().len() == new.subphases@.len());
    // Two differing non-empty templates would misalign the block row indices, so they are refused.
    if held.subphases.len() > 0 && new.subphases.len() > 0 && !same_subphases(
        &held.subphases,
        &new.subphases,
    ) {
        return Some("subphases".to_string());
    }
    if !same_text(&existing.name, &parsed.name) {
        return Some("name".to_string());
    }
    None
}

/// The `n`th id that a run is tried under: its own, and then its own with -patch-N.
pub open spec fn candidate(base: Seq<char>, n: nat) -> Seq<char> {
    if n == 0 {
        base
    } else {
        base + "-patch-"@ + decimal(n)
    }
}

/// The first id, from the `n`th on, that is not taken.
pub open spec fn free_id(ids: Seq<Seq<char>>, base: Seq<char>, n: nat) -> Seq<char>
    decreases ids.len() + 1 - n,
{
    if n > ids.len() || !ids.contains(candidate(base, n)) {
        candidate(base, n)
    } else {
        free_id(ids, base, n + 1)
    }
}

proof fn lemma_candidates_differ(base: Seq<char>, n: nat, m: nat)
    requires
        n != m,
    ensures
        candidate(base, n) != candidate(base, m),
{
    lemma_decimal_reads_back(n);
    lemma_decimal_reads_back(m);
    let (left, right) = (candidate(base, n), candidate(base, m));
    if left == right {
        let head = base + "-patch-"@;
        if n == 0 {
            assert(left.len() == base.len());
            assert(right.len() > base.len());
        } else if m == 0 {
            assert(left.len() > base.len());
        } else {
            assert(left.skip(head.len() as int) =~= decimal(n));
            assert(right.skip(head.len() as int) =~= decimal(m));
        }
    }
}

proof fn lemma_free_among(ids: Seq<Seq<char>>, base: Seq<char>)
    ensures
        exists|n: nat| n <= ids.len() && !ids.contains(#[trigger] candidate(base, n)),
{
    let count = ids.len() + 1;
    let names = Seq::new(count, |n: int| candidate(base, n as nat));
    if forall|n: nat| n <= ids.len() ==> ids.contains(#[trigger] candidate(base, n)) {
        assert(names.no_duplicates()) by {
            assert forall|i: int, j: int|
                0 <= i < names.len() && 0 <= j < names.len() && i != j implies names[i]
                != names[j] by {
                lemma_candidates_differ(base, i as nat, j as nat);
            }
        }
        names.unique_seq_to_set();
        assert(names.to_set().subset_of(ids.to_set())) by {
            assert forall|name: Seq<char>| names.to_set().contains(name) implies ids.to_set().contains(
                name,
            ) by {
                let i = choose|i: int| 0 <= i < names.len() && names[i] == name;
                assert(ids.contains(candidate(base, i as nat)));
            }
        }
        vstd::seq_lib::seq_to_set_is_finite(ids);
        vstd::set_lib::lemma_len_subset(names.to_set(), ids.to_set());
        ids.lemma_cardinality_of_set();
        assert(false);
    }
}

proof fn lemma_free_id_from(ids: Seq<Seq<char>>, base: Seq<char>, n: nat, free: nat)
    requires
        n <= free <= ids.len(),
        !ids.contains(candidate(base, free)),
    ensures
        !ids.contains(free_id(ids, base, n)),
    decreases free - n,
{
    if n < free && ids.contains(candidate(base, n)) {
        lemma_free_id_from(ids, base, n + 1, free);
    }
}

/// The id that a run is appended under is not taken.
pub proof fn lemma_free_id(ids: Seq<Seq<char>>, base: Seq<char>)
    ensures
        !ids.contains(free_id(ids, base, 0)),
{
    lemma_free_among(ids, base);
    let free = choose|n: nat| n <= ids.len() && !ids.contains(#[trigger] candidate(base, n));
    lemma_free_id_from(ids, base, 0, free);
}

/// The ids of the runs of a document.
pub open spec fn run_ids<S, T>(runs: Seq<Run<S, T>>) -> Seq<Seq<char>> {
    runs.map_values(|run: Run<S, T>| run.id@)
}

fn id_taken<S, T>(runs: &Vec<Run<S, T>>, id: &String) -> (taken: bool)
    ensures
        taken == run_ids(runs@).contains(id@),
{
    for i in 0..runs.len()
        invariant
            forall|k: int| 0 <= k < i ==> #[trigger] run_ids(runs@)[k] != id@,
    {
        assert(run_ids(runs@)[i as int] == runs@[i as int].id@);
        if same_text(&runs[i].id, id) {
            return true;
        }
    }
    false
}

/// The id that a run is appended under: its own, suffixed with -patch-N where it is taken, so every
/// run stays addressable.
fn fresh_id<S, T>(runs: &Vec<Run<S, T>>, base: &String) -> (id: String)
    ensures
        id@ == free_id(run_ids(runs@), base@, 0),
{
    let ghost ids = run_ids(runs@);
    let mut id: String = base.clone();
    let mut n: u64 = 0;
    let len: u64 = runs.len() as u64;
    while id_taken(runs, &id)
        invariant
            ids == run_ids(runs@),
            len == runs@.len(),
            n <= len,
            id@ == candidate(base@, n as nat),
            forall|m: nat| m < n ==> ids.contains(#[trigger] candidate(base@, m)),
            free_id(ids, base@, 0) == free_id(ids, base@, n as nat),
        decreases len - n,
    {
        assert(n < len) by {
            lemma_free_among(ids, base@);
            let free = choose|m: nat|
                m <= ids.len() && !ids.contains(#[trigger] candidate(base@, m));
            assert(free > n);
        }
        n += 1;
        let head: Vec<char> = joined(
            to_chars(base.as_str()).as_slice(),
            to_chars("-patch-").as_slice(),
        );
        id = to_text(joined(head.as_slice(), write_decimal(n).as_slice()).as_slice());
    }
    id
}

/// The run that is appended: the parsed one under a free id.
pub open spec fn appended<S, T>(run: Run<S, T>, parsed: Run<S, T>, ids: Seq<Seq<char>>) -> bool {
    &&& run.id@ == free_id(ids, parsed.id@, 0)
    &&& run.started_at == parsed.started_at
    &&& run.block_count == parsed.block_count
    &&& run.success_count == parsed.success_count
    &&& run.failure_count == parsed.failure_count
    &&& run.statistics == parsed.statistics
    &&& run.blocks == parsed.blocks
    &&& run.telemetry == parsed.telemetry
}

/// The identity of a merged document. It keeps the longer pipeline template so every run's rows
/// resolve their kinds, and the sub-phase template of the side that carries one.
pub open spec fn merged_identity(existing: Identity, parsed: Identity) -> Identity {
    Identity {
        zkvm: ZkvmModel {
            pipeline: if parsed.zkvm.pipeline.len() > existing.zkvm.pipeline.len() {
                parsed.zkvm.pipeline
            } else {
                existing.zkvm.pipeline
            },
            subphases: if existing.zkvm.subphases.len() == 0 {
                parsed.zkvm.subphases
            } else {
                existing.zkvm.subphases
            },
            ..existing.zkvm
        },
        ..existing
    }
}

/// Appends the parsed run to an existing document, returning the number of blocks it added.
///
/// The append is refused unless hardware and software match, so a document never mixes clusters. A
/// run id already present is suffixed with -patch-N so every run stays addressable, which is what a
/// re-run of the same run directory produces.
pub fn merge_run<S, T>(existing: &mut Benchmark<S, T>, parsed: Benchmark<S, T>) -> (added: Result<
    usize,
>)
    requires
        parsed.runs@.len() > 0,
    ensures
        match mismatch(identity(*old(existing)), identity(parsed)) {
            Some(field) => {
                &&& added is Err
                &&& added->Err_0@ == Failure::PatchMismatch(field)
                &&& *final(existing) == *old(existing)
            },
            None => {
                &&& added is Ok
                &&& added->Ok_0 == parsed.runs@[0].blocks@.len()
                &&& identity(*final(existing)) == merged_identity(
                    identity(*old(existing)),
                    identity(parsed),
                )
                &&& final(existing).schema_version == old(existing).schema_version
                &&& final(existing).id == old(existing).id
                &&& final(existing).description == old(existing).description
                &&& final(existing).runs@.len() == old(existing).runs@.len() + 1
                &&& final(existing).runs@.drop_last() == old(existing).runs@
                &&& appended(
                    final(existing).runs@.last(),
                    parsed.runs@[0],
                    run_ids(old(existing).runs@),
                )
            },
        },
{
    if let Some(field) = find_mismatch(existing, &parsed) {
        return Err(ParseError::PatchMismatch(field));
    }
    let ghost before = *existing;
    let mut parsed: Benchmark<S, T> = parsed;
    let ghost incoming = parsed;
    let mut run: Run<S, T> = parsed.runs.remove(0);
    assert(existing.software.zkvm.pipeline.deep_view().len()
        == existing.software.zkvm.pipeline@.len());
    assert(parsed.software.zkvm.pipeline.deep_view().len() == parsed.software.zkvm.pipeline@.len());
    assert(existing.software.zkvm.subphases.deep_view().len()
        == existing.software.zkvm.subphases@.len());
    if parsed.software.zkvm.pipeline.len() > existing.software.zkvm.pipeline.len() {
        existing.software.zkvm.pipeline = parsed.software.zkvm.pipeline;
    }
    if existing.software.zkvm.subphases.len() == 0 {
        existing.software.zkvm.subphases = parsed.software.zkvm.subphases;
    }
    let added: usize = run.blocks.len();
    let id: String = fresh_id(&existing.runs, &run.id);
    run.id = id;
    existing.runs.push(run);
    proof {
        assert(existing.runs@.drop_last() =~= before.runs@);
        assert(identity(*existing) =~= merged_identity(identity(before), identity(incoming)));
    }
    Ok(added)
}

/// The first block name, among the first `count`, that an earlier block has too.
pub open spec fn duplicate_upto(names: Seq<Seq<char>>, count: int) -> Option<Seq<char>>
    decreases count,
{
    if count <= 0 {
        None
    } else {
        match duplicate_upto(names, count - 1) {
            Some(name) => Some(name),
            None => if names.take(count - 1).contains(names[count - 1]) {
                Some(names[count - 1])
            } else {
                None
            },
        }
    }
}

/// The names of blocks.
pub open spec fn block_names(blocks: Seq<Block>) -> Seq<Seq<char>> {
    blocks.map_values(|block: Block| block.name@)
}

/// The first duplicate block name within any of the first `count` runs.
pub open spec fn duplicate_in<S, T>(runs: Seq<Run<S, T>>, count: int) -> Option<Seq<char>>
    decreases count,
{
    if count <= 0 {
        None
    } else {
        match duplicate_in(runs, count - 1) {
            Some(name) => Some(name),
            None => {
                let names = block_names(runs[count - 1].blocks@);
                duplicate_upto(names, names.len() as int)
            },
        }
    }
}

proof fn lemma_duplicate_stays(names: Seq<Seq<char>>, count: int, more: int)
    requires
        duplicate_upto(names, count) is Some,
        count <= more,
    ensures
        duplicate_upto(names, more) == duplicate_upto(names, count),
    decreases more - count,
{
    if count < more {
        lemma_duplicate_stays(names, count, more - 1);
    }
}

proof fn lemma_run_duplicate_stays<S, T>(runs: Seq<Run<S, T>>, count: int, more: int)
    requires
        duplicate_in(runs, count) is Some,
        count <= more,
    ensures
        duplicate_in(runs, more) == duplicate_in(runs, count),
    decreases more - count,
{
    if count < more {
        lemma_run_duplicate_stays(runs, count, more - 1);
    }
}

fn first_duplicate(blocks: &Vec<Block>) -> (name: Option<String>)
    ensures
        name.deep_view() == duplicate_upto(block_names(blocks@), blocks@.len() as int),
{
    let ghost names = block_names(blocks@);
    let mut seen: TextSet = TextSet::new();
    assert(names.take(0).to_set() =~= Set::empty());
    for i in 0..blocks.len()
        invariant
            names == block_names(blocks@),
            seen@ == names.take(i as int).to_set(),
            duplicate_upto(names, i as int) is None,
    {
        let name: Vec<char> = to_chars(blocks[i].name.as_str());
        assert(names[i as int] == name@);
        if seen.contains(name.as_slice()) {
            proof {
                assert(names.take(i as int).contains(name@));
                assert(duplicate_upto(names, i + 1) == Some(name@));
                lemma_duplicate_stays(names, i + 1, names.len() as int);
            }
            return Some(to_text(name.as_slice()));
        }
        seen.insert(name.as_slice());
        proof {
            let (less, more) = (names.take(i as int), names.take(i + 1));
            assert(more =~= less.push(name@));
            assert forall|other: Seq<char>| more.to_set().contains(other) <==> less.to_set().insert(
                name@,
            ).contains(other) by {
                if less.contains(other) {
                    let k = choose|k: int| 0 <= k < less.len() && less[k] == other;
                    assert(more[k] == other);
                }
                assert(more[i as int] == name@);
            }
            assert(seen@ =~= more.to_set());
        }
    }
    None
}

/// Asserts every block name is unique within each run. Block names are the metric file names, the
/// key the views index on, so a duplicate would silently collide one block onto another.
pub fn assert_unique_block_names<S, T>(document: &Benchmark<S, T>) -> (unique: Result<()>)
    ensures
        match duplicate_in(document.runs@, document.runs@.len() as int) {
            Some(name) => unique is Err && unique->Err_0@ == Failure::DuplicateBlockName(name),
            None => unique is Ok,
        },
{
    for i in 0..document.runs.len()
        invariant
            duplicate_in(document.runs@, i as int) is None,
    {
        if let Some(name) = first_duplicate(&document.runs[i].blocks) {
            proof {
                assert(duplicate_in(document.runs@, i + 1) == Some(name@));
                lemma_run_duplicate_stays(document.runs@, i + 1, document.runs@.len() as int);
            }
            return Err(ParseError::DuplicateBlockName(name));
        }
    }
    Ok(())
}

} // verus!
