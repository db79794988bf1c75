//! The kinds of the zisk fine pipeline: the wire template, and the markers that name each kind.
//!
//! The kinds table below is the single source for the wire template and the marker classifier, so
//! the template indices and the extracted items can never drift apart.

use vstd::prelude::*;

use crate::log::PipelineDef;
use crate::text::{all_digits, copied, is, is_digit, last_of, rfind};

verus! {

/// A marker stem as printed after the bracket arrows, with whether an underscore and instance
/// digits follow it in the log.
#[derive(Clone, Copy)]
pub struct Stem {
    pub text: &'static str,
    pub numbered: bool,
}

/// How a paired kind's compute open claims a completed witness interval.
#[derive(Clone, Copy, PartialEq, Eq, Debug, Structural)]
pub enum Claim {
    /// The witness holding the same instance digits, a single held interval per instance, which
    /// for an unnumbered stem degenerates to the kind's single slot.
    ByX,
    /// The earliest unconsumed witness under the compute marker's bracket tag.
    TagFifo,
    /// The earliest unconsumed witness in the job regardless of tags.
    GlobalFifo,
}

/// One fine-pipeline kind, its wire identity and the marker stems that produce it. A paired kind
/// has a witness stem and a way in which compute opens claim its intervals.
#[derive(Clone, Copy)]
pub struct Kind {
    pub name: &'static str,
    pub label: &'static str,
    pub phase: &'static str,
    pub compute: Stem,
    pub witness: Option<(Stem, Claim)>,
}

/// A stem.
pub open spec fn stem_row(text: &'static str, numbered: bool) -> Stem {
    Stem { text, numbered }
}

/// An unpaired kind whose sole bracket is its compute stem.
pub open spec fn single_row(
    name: &'static str,
    label: &'static str,
    phase: &'static str,
    compute: Stem,
) -> Kind {
    Kind { name, label, phase, compute, witness: None }
}

/// A paired kind, its witness stem and claim policy joined to its compute stem.
pub open spec fn paired_row(
    name: &'static str,
    label: &'static str,
    phase: &'static str,
    witness: Stem,
    claim: Claim,
    compute: Stem,
) -> Kind {
    Kind { name, label, phase, compute, witness: Some((witness, claim)) }
}

/// Builds a stem, keeping each kinds row below readable.
fn stem(text: &'static str, numbered: bool) -> (stem: Stem)
    ensures
        stem == stem_row(text, numbered),
{
    Stem { text, numbered }
}

/// Builds an unpaired kind whose sole bracket is its compute stem.
fn single(
    name: &'static str,
    label: &'static str,
    phase: &'static str,
    compute: Stem,
) -> (kind: Kind)
    ensures
        kind == single_row(name, label, phase, compute),
{
    Kind { name, label, phase, compute, witness: None }
}

/// Builds a paired kind, its witness stem and claim policy joined to its compute stem.
fn paired(
    name: &'static str,
    label: &'static str,
    phase: &'static str,
    witness: Stem,
    claim: Claim,
    compute: Stem,
) -> (kind: Kind)
    ensures
        kind == paired_row(name, label, phase, witness, claim, compute),
{
    Kind { name, label, phase, compute, witness: Some((witness, claim)) }
}

/// The number of kinds.
pub const KIND_COUNT: usize = 13;

/// The zisk fine-pipeline kinds in template order. The wc witness stem appears under both the
/// contribution and proof kinds and splits on the prove boundary at classification, where the
/// commit-phase row precedes the prove-phase row. Any stem absent from this table is ignored.
pub open spec fn kind_row(kind: int) -> Kind {
    if kind == 0 {
        single_row(
            "minimal_trace",
            "Minimal Trace",
            "emulation",
            stem_row("COMPUTE_MINIMAL_TRACE", false),
        )
    } else if kind == 1 {
        single_row(
            "plan",
            "Plan",
            "commit",
            stem_row("PLAN", false),
        )
    } else if kind == 2 {
        paired_row(
            "wc_contribution",
            "Witness + Contribution",
            "commit",
            stem_row("GENERATING_WC", true),
            Claim::ByX,
            stem_row("GET_CONTRIBUTION_AIR", true),
        )
    } else if kind == 3 {
        single_row(
            "mem_plan_wait",
            "Mem Plan Wait",
            "commit",
            stem_row("WAIT_PLAN_MEM_CPP", false),
        )
    } else if kind == 4 {
        single_row(
            "mem_plan_collect",
            "Collect Mem Plans",
            "commit",
            stem_row("COLLECT_MEM_PLANS", false),
        )
    } else if kind == 5 {
        single_row(
            "tables",
            "Table Witness",
            "commit",
            stem_row("CALCULATING_TABLES", false),
        )
    } else if kind == 6 {
        single_row(
            "internal_contribution",
            "Internal Contribution",
            "commit",
            stem_row("CALCULATE_INTERNAL_CONTRIBUTION", false),
        )
    } else if kind == 7 {
        paired_row(
            "wc_proof",
            "Witness + Proof",
            "prove",
            stem_row("GENERATING_WC", true),
            Claim::ByX,
            stem_row("GEN_PROOF", true),
        )
    } else if kind == 8 {
        paired_row(
            "recursive1",
            "Recursive1 Witness + Proof",
            "prove",
            stem_row("GENERATING_RECURSIVE1_WITNESS", true),
            Claim::TagFifo,
            stem_row("GEN_RECURSIVE_PROOF_Recursive1", false),
        )
    } else if kind == 9 {
        paired_row(
            "recursive2",
            "Aggregation + Recursive2 Proof",
            "prove",
            stem_row("GENERATE_WITNESS_AGGREGATION", false),
            Claim::GlobalFifo,
            stem_row("GEN_RECURSIVE_PROOF_Recursive2", false),
        )
    } else if kind == 10 {
        paired_row(
            "compressor",
            "Compressor Witness + Proof",
            "prove",
            stem_row("GENERATING_COMPRESSOR_WITNESS", true),
            Claim::TagFifo,
            stem_row("GEN_RECURSIVE_PROOF_Compressor", false),
        )
    } else if kind == 11 {
        paired_row(
            "vadcop_final",
            "VadcopFinal Witness + Proof",
            "aggregate",
            stem_row("GENERATE_VADCOP_FINAL_PROOF_WITNESS", false),
            Claim::ByX,
            stem_row("GEN_RECURSIVE_PROOF_VadcopFinal", false),
        )
    } else {
        paired_row(
            "vadcop_final_compressed",
            "VadcopFinalCompressed Witness + Proof",
            "aggregate",
            stem_row("GENERATE_VADCOP_FINAL_COMPRESSED_PROOF_WITNESS", false),
            Claim::ByX,
            stem_row("GEN_RECURSIVE_PROOF_VadcopFinalCompressed", false),
        )
    }
}

/// The kind at an index of the template.
pub fn kind_at(kind: usize) -> (row: Kind)
    requires
        kind < KIND_COUNT,
    ensures
        row == kind_row(kind as int),
{
    if kind == 0 {
        single(
            "minimal_trace",
            "Minimal Trace",
            "emulation",
            stem("COMPUTE_MINIMAL_TRACE", false),
        )
    } else if kind == 1 {
        single(
            "plan",
            "Plan",
            "commit",
            stem("PLAN", false),
        )
    } else if kind == 2 {
        paired(
            "wc_contribution",
            "Witness + Contribution",
            "commit",
            stem("GENERATING_WC", true),
            Claim::ByX,
            stem("GET_CONTRIBUTION_AIR", true),
        )
    } else if kind == 3 {
        single(
            "mem_plan_wait",
            "Mem Plan Wait",
            "commit",
            stem("WAIT_PLAN_MEM_CPP", false),
        )
    } else if kind == 4 {
        single(
            "mem_plan_collect",
            "Collect Mem Plans",
            "commit",
            stem("COLLECT_MEM_PLANS", false),
        )
    } else if kind == 5 {
        single(
            "tables",
            "Table Witness",
            "commit",
            stem("CALCULATING_TABLES", false),
        )
    } else if kind == 6 {
        single(
            "internal_contribution",
            "Internal Contribution",
            "commit",
            stem("CALCULATE_INTERNAL_CONTRIBUTION", false),
        )
    } else if kind == 7 {
        paired(
            "wc_proof",
            "Witness + Proof",
            "prove",
            stem("GENERATING_WC", true),
            Claim::ByX,
            stem("GEN_PROOF", true),
        )
    } else if kind == 8 {
        paired(
            "recursive1",
            "Recursive1 Witness + Proof",
            "prove",
            stem("GENERATING_RECURSIVE1_WITNESS", true),
            Claim::TagFifo,
            stem("GEN_RECURSIVE_PROOF_Recursive1", false),
        )
    } else if kind == 9 {
        paired(
            "recursive2",
            "Aggregation + Recursive2 Proof",
            "prove",
            stem("GENERATE_WITNESS_AGGREGATION", false),
            Claim::GlobalFifo,
            stem("GEN_RECURSIVE_PROOF_Recursive2", false),
        )
    } else if kind == 10 {
        paired(
            "compressor",
            "Compressor Witness + Proof",
            "prove",
            stem("GENERATING_COMPRESSOR_WITNESS", true),
            Claim::TagFifo,
            stem("GEN_RECURSIVE_PROOF_Compressor", false),
        )
    } else if kind == 11 {
        paired(
            "vadcop_final",
            "VadcopFinal Witness + Proof",
            "aggregate",
            stem("GENERATE_VADCOP_FINAL_PROOF_WITNESS", false),
            Claim::ByX,
            stem("GEN_RECURSIVE_PROOF_VadcopFinal", false),
        )
    } else {
        paired(
            "vadcop_final_compressed",
            "VadcopFinalCompressed Witness + Proof",
            "aggregate",
            stem("GENERATE_VADCOP_FINAL_COMPRESSED_PROOF_WITNESS", false),
            Claim::ByX,
            stem("GEN_RECURSIVE_PROOF_VadcopFinalCompressed", false),
        )
    }
}

/// The wire identity of a kind: name, label, phase, and whether it is paired.
pub open spec fn definition(kind: int) -> (Seq<char>, Seq<char>, Seq<char>, bool) {
    let row = kind_row(kind);
    (row.name@, row.label@, row.phase@, row.witness is Some)
}

/// Returns the ordered zisk fine-pipeline template.
pub fn zisk_pipeline() -> (template: Vec<PipelineDef>)
    ensures
        template.deep_view() == Seq::new(KIND_COUNT as nat, |kind: int| definition(kind)),
{
    let mut template: Vec<PipelineDef> = Vec::new();
    for kind in 0..KIND_COUNT
        invariant
            template@.len() == kind,
            forall|i: int|
                0 <= i < kind ==> (#[trigger] template@[i]).deep_view() == definition(i),
    {
        let row: Kind = kind_at(kind);
        template.push(
            PipelineDef {
                name: row.name.to_string(),
                label: row.label.to_string(),
                phase: row.phase.to_string(),
                paired: row.witness.is_some(),
            },
        );
    }
    assert(template.deep_view() =~= Seq::new(KIND_COUNT as nat, |kind: int| definition(kind)));
    template
}

/// Which half of a kind a marker stem names.
#[derive(Clone, Copy, PartialEq, Eq, Debug, Structural)]
pub enum Side {
    Witness,
    Compute,
}

/// A classified marker token, the kind and side its stem names, the stem text keying layer A, and
/// the instance digits when the stem carries them.
pub struct Hit {
    pub kind: usize,
    pub side: Side,
    pub stem: Vec<char>,
    pub x: Option<Vec<char>>,
}

/// A classified marker token by the values it holds.
#[verifier::ext_equal]
pub struct HitModel {
    pub kind: usize,
    pub side: Side,
    pub stem: Seq<char>,
    pub x: Option<Seq<char>>,
}

impl View for Hit {
    type V = HitModel;

    open spec fn view(&self) -> HitModel {
        HitModel {
            kind: self.kind,
            side: self.side,
            stem: self.stem@,
            x: match self.x {
                Some(x) => Some(x@),
                None => None,
            },
        }
    }
}

/// Whether a kind's compute stem is the given one.
pub open spec fn computes(kind: int, text: Seq<char>, numbered: bool) -> bool {
    let compute = kind_row(kind).compute;
    compute.numbered == numbered && compute.text@ == text
}

/// Whether a kind's witness stem is the given one.
pub open spec fn witnesses(kind: int, text: Seq<char>, numbered: bool) -> bool {
    match kind_row(kind).witness {
        Some((witness, _)) => witness.numbered == numbered && witness.text@ == text,
        None => false,
    }
}

/// The first kind from `from` on with the given compute stem.
pub open spec fn compute_kind(text: Seq<char>, numbered: bool, from: int) -> Option<usize>
    decreases KIND_COUNT - from,
{
    if from < 0 || from >= KIND_COUNT {
        None
    } else if computes(from, text, numbered) {
        Some(from as usize)
    } else {
        compute_kind(text, numbered, from + 1)
    }
}

/// The first, or where `last` is set the last, of the first `count` kinds with the given witness
/// stem.
pub open spec fn witness_kind(text: Seq<char>, numbered: bool, last: bool, count: int) -> Option<
    usize,
>
    decreases count,
{
    if count <= 0 {
        None
    } else {
        let before = witness_kind(text, numbered, last, count - 1);
        if witnesses(count - 1, text, numbered) && (last || before is None) {
            Some((count - 1) as usize)
        } else {
            before
        }
    }
}

/// The kind and side a stem names. A witness stem shared by two kinds names the earlier table row
/// while a contribution job runs and the later one otherwise.
pub open spec fn named(
    text: Seq<char>,
    numbered: bool,
    x: Option<Seq<char>>,
    proof_side: bool,
) -> Option<HitModel> {
    match compute_kind(text, numbered, 0) {
        Some(kind) => Some(HitModel { kind, side: Side::Compute, stem: text, x }),
        None => match witness_kind(text, numbered, proof_side, KIND_COUNT as int) {
            Some(kind) => Some(HitModel { kind, side: Side::Witness, stem: text, x }),
            None => None,
        },
    }
}

/// What a marker token names: a whole-token stem first, and then a stem with trailing instance
/// digits after an underscore.
pub open spec fn classified(token: Seq<char>, proof_side: bool) -> Option<HitModel> {
    match named(token, false, None, proof_side) {
        Some(hit) => Some(hit),
        None => match last_of(token, '_') {
            Some(at) => {
                let digits = token.skip(at + 1);
                if digits.len() > 0 && all_digits(digits) {
                    named(token.take(at), true, Some(digits), proof_side)
                } else {
                    None
                }
            },
            None => None,
        },
    }
}

/// A hit agrees with what is expected of it and names a kind of the table.
pub open spec fn hit_is(hit: Option<Hit>, expected: Option<HitModel>) -> bool {
    match hit {
        Some(hit) => expected == Some(hit@) && hit.kind < KIND_COUNT,
        None => expected is None,
    }
}

/// Finds the kind and side a stem names. A witness stem shared by two kinds names the earlier
/// table row while a contribution job runs and the later one otherwise, which is how the wc stem
/// splits between the contribution and proof kinds.
fn lookup(text: &[char], numbered: bool, x: Option<Vec<char>>, proof_side: bool) -> (hit: Option<
    Hit,
>)
    ensures
        hit_is(
            hit,
            named(
                text@,
                numbered,
                match x {
                    Some(x) => Some(x@),
                    None => None,
                },
                proof_side,
            ),
        ),
{
    let mut found: Option<usize> = None;
    for kind in 0..KIND_COUNT
        invariant
            compute_kind(text@, numbered, 0) == compute_kind(text@, numbered, kind as int),
            found == witness_kind(text@, numbered, proof_side, kind as int),
            found is Some ==> found->0 < KIND_COUNT,
    {
        let row: Kind = kind_at(kind);
        if row.compute.numbered == numbered && is(text, row.compute.text) {
            return Some(Hit { kind, side: Side::Compute, stem: copied(text), x });
        }
        if let Some((witness, _)) = row.witness {
            if witness.numbered == numbered && is(text, witness.text) && (proof_side
                || found.is_none()) {
                found = Some(kind);
            }
        }
    }
    match found {
        Some(kind) => Some(Hit { kind, side: Side::Witness, stem: copied(text), x }),
        None => None,
    }
}

/// Classifies a marker token against the kinds table, whole-token stems first and then a stem with
/// trailing instance digits after an underscore, so a stem that itself ends in a digit is never
/// corrupted by blind suffix stripping. An unlisted token yields None.
pub fn classify(token: &[char], proof_side: bool) -> (hit: Option<Hit>)
    ensures
        hit_is(hit, classified(token@, proof_side)),
{
    let whole: Option<Hit> = lookup(token, false, None, proof_side);
    if whole.is_some() {
        return whole;
    }
    match rfind(token, '_') {
        Some(at) => {
            let len: usize = token.len();
            let base = &token[0..at];
            let digits = &token[at + 1..len];
            assert(base@ =~= token@.take(at as int));
            assert(digits@ =~= token@.skip(at + 1));
            if digits.len() == 0 {
                return None;
            }
            for i in 0..digits.len()
                invariant
                    forall|j: int| 0 <= j < i ==> is_digit(#[trigger] digits@[j]),
                    digits@ == token@.skip(at + 1),
                    last_of(token@, '_') == Some(at as int),
                    named(token@, false, None, proof_side) is None,
            {
                if !('0' <= digits[i] && digits[i] <= '9') {
                    assert(!is_digit(digits@[i as int]));
                    return None;
                }
            }
            lookup(base, true, Some(copied(digits)), proof_side)
        },
        None => None,
    }
}

} // verus!
