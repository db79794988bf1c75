//! What holds of every read of a worker log's stages and aggregation bounds.

use vstd::prelude::*;

use crate::pattern::first_matched;
use crate::text::lines_of;
use crate::text_map::at_or;
use crate::zisk::worker::{
    agg_applied, agg_parsed, agg_patterns, agg_scanned, banner, info_part, no_bounds, read_begun,
    stage_field, stage_scanned, stage_stepped, stage_target, stages_at, stages_parsed, stamped,
    with_stages, AggModel, AggRead, AllStages, StageField, StageRead,
};

verus! {

spec fn stage_kept(
    before: AllStages,
    after: AllStages,
    key: Seq<char>,
    node: Seq<char>,
    field: StageField,
) -> bool {
    stage_field(stages_at(before, key, node), field) is Some ==> stage_field(
        stages_at(after, key, node),
        field,
    ) == stage_field(stages_at(before, key, node), field)
}

proof fn lemma_stage_step_keeps(
    read: StageRead,
    line: Seq<char>,
    node: Seq<char>,
    key: Seq<char>,
    other: Seq<char>,
    field: StageField,
)
    ensures
        stage_kept(read.stages, stage_stepped(read, line, node).stages, key, other, field),
{
}

proof fn lemma_stage_scan_keeps(
    read: StageRead,
    lines: Seq<Seq<char>>,
    node: Seq<char>,
    key: Seq<char>,
    other: Seq<char>,
    field: StageField,
)
    ensures
        stage_kept(read.stages, stage_scanned(read, lines, node).stages, key, other, field),
    decreases lines.len(),
{
    if lines.len() > 0 && read.failure is None {
        let next = stage_stepped(read, lines[0], node);
        lemma_stage_step_keeps(read, lines[0], node, key, other, field);
        lemma_stage_scan_keeps(next, lines.skip(1), node, key, other, field);
    }
}

/// Stage fields are first-write-wins: a field that is set for a job and a node keeps its instant
/// whatever worker log is read next.
pub proof fn stage_first_write_wins(
    clean: Seq<char>,
    node: Seq<char>,
    stages: AllStages,
    key: Seq<char>,
    other: Seq<char>,
    field: StageField,
)
    requires
        stage_field(stages_at(stages, key, other), field) is Some,
    ensures
        stage_field(stages_at(stages_parsed(clean, node, stages).stages, key, other), field)
            == stage_field(stages_at(stages, key, other), field),
{
    lemma_stage_scan_keeps(
        read_begun(stages),
        lines_of(clean),
        node,
        key,
        other,
        field,
    );
}

proof fn lemma_stage_scan_own(
    read: StageRead,
    lines: Seq<Seq<char>>,
    node: Seq<char>,
    key: Seq<char>,
    other: Seq<char>,
)
    requires
        other != node,
    ensures
        stages_at(stage_scanned(read, lines, node).stages, key, other) == stages_at(
            read.stages,
            key,
            other,
        ),
    decreases lines.len(),
{
    if lines.len() > 0 && read.failure is None {
        let next = stage_stepped(read, lines[0], node);
        assert(stages_at(next.stages, key, other) == stages_at(read.stages, key, other));
        lemma_stage_scan_own(next, lines.skip(1), node, key, other);
    }
}

/// A node's log changes the stages of that node alone.
pub proof fn stages_of_own_node_only(
    clean: Seq<char>,
    node: Seq<char>,
    stages: AllStages,
    key: Seq<char>,
    other: Seq<char>,
)
    requires
        other != node,
    ensures
        stages_at(stages_parsed(clean, node, stages).stages, key, other) == stages_at(
            stages,
            key,
            other,
        ),
{
    lemma_stage_scan_own(
        read_begun(stages),
        lines_of(clean),
        node,
        key,
        other,
    );
}

/// Whether a job has stages recorded for a node.
pub open spec fn has_stages(stages: AllStages, key: Seq<char>, node: Seq<char>) -> bool {
    stages.dom().contains(key) && stages[key].dom().contains(node)
}

/// Whether what is recorded for a job and a node in one is recorded in the other: its entry stands,
/// every field that is set keeps its instant, and a crash stays a crash.
pub open spec fn still_recorded(
    before: AllStages,
    after: AllStages,
    key: Seq<char>,
    node: Seq<char>,
) -> bool {
    &&& has_stages(before, key, node) ==> has_stages(after, key, node)
    &&& stages_at(before, key, node).crashed ==> stages_at(after, key, node).crashed
    &&& forall|field: StageField|
        (#[trigger] stage_field(stages_at(before, key, node), field)) is Some ==> stage_field(
            stages_at(after, key, node),
            field,
        ) == stage_field(stages_at(before, key, node), field)
}

proof fn lemma_stage_step_records(
    read: StageRead,
    line: Seq<char>,
    node: Seq<char>,
    key: Seq<char>,
    other: Seq<char>,
)
    ensures
        still_recorded(read.stages, stage_stepped(read, line, node).stages, key, other),
{
    let after = stage_stepped(read, line, node).stages;
    assert forall|field: StageField|
        (#[trigger] stage_field(stages_at(read.stages, key, other), field)) is Some implies
        stage_field(stages_at(after, key, other), field) == stage_field(
        stages_at(read.stages, key, other),
        field,
    ) by {
        lemma_stage_step_keeps(read, line, node, key, other, field);
    }
}

proof fn lemma_stage_scan_records(
    read: StageRead,
    lines: Seq<Seq<char>>,
    node: Seq<char>,
    key: Seq<char>,
    other: Seq<char>,
)
    ensures
        still_recorded(read.stages, stage_scanned(read, lines, node).stages, key, other),
    decreases lines.len(),
{
    if lines.len() > 0 && read.failure is None {
        let next = stage_stepped(read, lines[0], node);
        lemma_stage_step_records(read, lines[0], node, key, other);
        lemma_stage_scan_records(next, lines.skip(1), node, key, other);
    }
}

/// The stages only grow: whatever worker log is read next, no entry is removed, a field that is set
/// keeps its instant, and a node that crashed on a job stays crashed on it.
pub proof fn stages_only_grow(
    clean: Seq<char>,
    node: Seq<char>,
    stages: AllStages,
    key: Seq<char>,
    other: Seq<char>,
)
    ensures
        still_recorded(stages, stages_parsed(clean, node, stages).stages, key, other),
{
    lemma_stage_scan_records(read_begun(stages), lines_of(clean), node, key, other);
}

proof fn lemma_same_stages(stages: AllStages, key: Seq<char>, node: Seq<char>)
    requires
        has_stages(stages, key, node),
    ensures
        with_stages(stages, key, node, stages_at(stages, key, node)) == stages,
{
    assert(stages[key].insert(node, stages[key][node]) =~= stages[key]);
    assert(stages.insert(key, stages[key]) =~= stages);
}

proof fn lemma_stage_step_again(
    read: StageRead,
    line: Seq<char>,
    node: Seq<char>,
    after: AllStages,
)
    requires
        stage_stepped(read, line, node).failure is None,
        forall|key: Seq<char>| #[trigger]
            still_recorded(stage_stepped(read, line, node).stages, after, key, node),
    ensures
        stage_stepped(StageRead { stages: after, ..read }, line, node) == (StageRead {
            stages: after,
            ..stage_stepped(read, line, node)
        }),
{
    let next = stage_stepped(read, line, node);
    if !stamped(line) {
        if !read.frozen && read.cur_p1 is Some && banner(line) {
            let job = read.cur_p1->0;
            assert(still_recorded(next.stages, after, job, node));
            assert(has_stages(next.stages, job, node));
            lemma_same_stages(after, job, node);
            if read.last_line is Some {
                assert(stage_field(
                    stages_at(next.stages, job, node),
                    StageField::LastActivity,
                ) is Some);
            }
        }
    } else {
        let held = if !read.frozen && read.cur_p1 is Some {
            StageRead { last_line: Some(line), ..read }
        } else {
            read
        };
        match info_part(line) {
            None => {},
            Some(body) => match stage_target(body, held.cur_p1, held.cur_p2) {
                None => {},
                Some((key, field)) => {
                    assert(still_recorded(next.stages, after, key, node));
                    assert(has_stages(next.stages, key, node));
                    assert(stage_field(stages_at(next.stages, key, node), field) is Some);
                    lemma_same_stages(after, key, node);
                },
            },
        }
    }
}

proof fn lemma_stage_scan_again(read: StageRead, lines: Seq<Seq<char>>, node: Seq<char>)
    requires
        stage_scanned(read, lines, node).failure is None,
    ensures
        stage_scanned(
            StageRead { stages: stage_scanned(read, lines, node).stages, ..read },
            lines,
            node,
        ) == stage_scanned(read, lines, node),
    decreases lines.len(),
{
    if lines.len() > 0 && read.failure is None {
        let next = stage_stepped(read, lines[0], node);
        let all = stage_scanned(next, lines.skip(1), node);
        assert forall|key: Seq<char>| #[trigger]
            still_recorded(next.stages, all.stages, key, node) by {
            lemma_stage_scan_records(next, lines.skip(1), node, key, node);
        }
        lemma_stage_step_again(read, lines[0], node, all.stages);
        lemma_stage_scan_again(next, lines.skip(1), node);
    }
}

/// A worker log that was read without an error adds nothing when it is read again for the same node.
pub proof fn second_stage_read_changes_nothing(
    clean: Seq<char>,
    node: Seq<char>,
    stages: AllStages,
)
    requires
        stages_parsed(clean, node, stages).failure is None,
    ensures
        ({
            let first = stages_parsed(clean, node, stages);
            let second = stages_parsed(clean, node, first.stages);
            second.failure is None && second.stages == first.stages
        }),
{
    lemma_stage_scan_again(read_begun(stages), lines_of(clean), node);
}

/// The bounds of a job, none known where there are none.
pub open spec fn bounds_at(agg: Map<Seq<char>, AggModel>, key: Seq<char>) -> AggModel {
    at_or(agg, key, no_bounds())
}

spec fn agg_kept(before: AggModel, after: AggModel) -> bool {
    &&& before.t_start is Some ==> after.t_start == before.t_start
    &&& before.t_first_step is Some ==> after.t_first_step == before.t_first_step
    &&& before.t_end is Some ==> after.t_end == before.t_end
}

proof fn lemma_agg_scan_keeps(read: AggRead, lines: Seq<Seq<char>>, key: Seq<char>)
    ensures
        agg_kept(bounds_at(read.agg, key), bounds_at(agg_scanned(read, lines).agg, key)),
    decreases lines.len(),
{
    if lines.len() > 0 && read.failure is None {
        let next = agg_applied(read, first_matched(agg_patterns(), lines[0], 0));
        assert(agg_kept(bounds_at(read.agg, key), bounds_at(next.agg, key)));
        lemma_agg_scan_keeps(next, lines.skip(1), key);
    }
}

/// Aggregation bounds are first-write-wins: a bound that is set for a job keeps its instant whatever
/// worker log is read next.
pub proof fn agg_first_write_wins(clean: Seq<char>, agg: Map<Seq<char>, AggModel>, key: Seq<char>)
    ensures
        ({
            let before = bounds_at(agg, key);
            let after = bounds_at(agg_parsed(clean, agg).agg, key);
            &&& before.t_start is Some ==> after.t_start == before.t_start
            &&& before.t_first_step is Some ==> after.t_first_step == before.t_first_step
            &&& before.t_end is Some ==> after.t_end == before.t_end
        }),
{
    lemma_agg_scan_keeps(
        AggRead { agg, current: None, failure: None },
        lines_of(clean),
        key,
    );
}

} // verus!
