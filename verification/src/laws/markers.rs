//! What every marker of a zisk worker log sets.

use vstd::prelude::*;

use crate::error::Failure;
use crate::laws::texts::blank;
use crate::log::{prefix_of, ts_read};
use crate::pattern::group_text;
use crate::text::{begins_with, contains_piece, occurs_at, trimmed_end};
use crate::text_map::at_or;
use crate::zisk::worker::{
    agg_applied, banner, first_token, info_part, no_bounds, stage_field, stage_marked,
    stage_stepped, stage_target, stages_at, stamped, AggModel, AggRead, StageField, StageRead,
};

verus! {

proof fn lemma_begins(body: Seq<char>, piece: Seq<char>, i: int)
    requires
        begins_with(body, piece),
        0 <= i < piece.len(),
    ensures
        piece.len() <= body.len(),
        body[i] == piece[i],
{
    assert(body.subrange(0, piece.len() as int)[i] == piece[i]);
}

/// The contribution marker names its job and the moment at which the node begins it.
pub proof fn contribution_marker_names_its_job(
    uuid: Seq<char>,
    cur_p1: Option<Seq<char>>,
    cur_p2: Option<Seq<char>>,
)
    ensures
        stage_target("Starting Partial Contribution for "@ + uuid, cur_p1, cur_p2) == Some(
            (prefix_of(uuid), StageField::ContributionStart),
        ),
{
    let piece = "Starting Partial Contribution for "@;
    let body = piece + uuid;
    assert(body.subrange(0, piece.len() as int) =~= piece);
    assert(body.skip(piece.len() as int) =~= uuid);
}

/// The prove marker names its job and the moment at which proving begins.
pub proof fn prove_marker_names_its_job(
    rest: Seq<char>,
    cur_p1: Option<Seq<char>>,
    cur_p2: Option<Seq<char>>,
)
    ensures
        stage_target("Starting Prove for JobId("@ + rest, cur_p1, cur_p2) == Some(
            (prefix_of(rest), StageField::ProveStart),
        ),
{
    reveal_strlit("Starting Partial Contribution for ");
    reveal_strlit("Starting Prove for JobId(");
    reveal_strlit(">>> COMPUTE_MINIMAL_TRACE");
    reveal_strlit("<<< COMPUTE_MINIMAL_TRACE");
    reveal_strlit(">>> PLAN");
    reveal_strlit(">>> PLAN_SECONDARY");
    reveal_strlit("Contribution computation successful");
    let piece = "Starting Prove for JobId("@;
    let body = piece + rest;
    assert(body.subrange(0, piece.len() as int) =~= piece);
    assert(body.skip(piece.len() as int) =~= rest);
    assert(body[0] == 'S' && body[10] == 'r');
    if begins_with(body, "Starting Partial Contribution for "@) {
        lemma_begins(body, "Starting Partial Contribution for "@, 10);
    }
    if begins_with(body, ">>> COMPUTE_MINIMAL_TRACE"@) {
        lemma_begins(body, ">>> COMPUTE_MINIMAL_TRACE"@, 0);
    }
    if begins_with(body, "<<< COMPUTE_MINIMAL_TRACE"@) {
        lemma_begins(body, "<<< COMPUTE_MINIMAL_TRACE"@, 0);
    }
    if begins_with(body, "Contribution computation successful"@) {
        lemma_begins(body, "Contribution computation successful"@, 0);
    }
    lemma_trimmed_first(body);
}

proof fn lemma_trimmed_first(body: Seq<char>)
    ensures
        trimmed_end(body).len() > 0 ==> body.len() > 0 && trimmed_end(body)[0] == body[0],
    decreases body.len(),
{
    if body.len() > 0 && crate::text::is_space(body.last()) {
        lemma_trimmed_first(body.drop_last());
    }
}

/// The job and the field of a marker that carries no job, and belongs to the running one.
pub open spec fn running(job: Option<Seq<char>>, field: StageField) -> Option<
    (Seq<char>, StageField),
> {
    match job {
        Some(job) => Some((job, field)),
        None => None,
    }
}

/// The brackets of the minimal trace begin and end the emulation of the job whose contribution runs.
pub proof fn trace_brackets_bound_the_emulation(
    rest: Seq<char>,
    cur_p1: Option<Seq<char>>,
    cur_p2: Option<Seq<char>>,
)
    ensures
        stage_target(">>> COMPUTE_MINIMAL_TRACE"@ + rest, cur_p1, cur_p2) == running(
            cur_p1,
            StageField::EmulationStart,
        ),
        stage_target("<<< COMPUTE_MINIMAL_TRACE"@ + rest, cur_p1, cur_p2) == running(
            cur_p1,
            StageField::EmulationEnd,
        ),
{
    reveal_strlit("Starting Partial Contribution for ");
    reveal_strlit(">>> COMPUTE_MINIMAL_TRACE");
    reveal_strlit("<<< COMPUTE_MINIMAL_TRACE");
    let (open, close) = (">>> COMPUTE_MINIMAL_TRACE"@, "<<< COMPUTE_MINIMAL_TRACE"@);
    let (first, second) = (open + rest, close + rest);
    assert(first.subrange(0, open.len() as int) =~= open);
    assert(second.subrange(0, close.len() as int) =~= close);
    if begins_with(first, "Starting Partial Contribution for "@) {
        lemma_begins(first, "Starting Partial Contribution for "@, 0);
    }
    if begins_with(second, "Starting Partial Contribution for "@) {
        lemma_begins(second, "Starting Partial Contribution for "@, 0);
    }
    if begins_with(second, open) {
        lemma_begins(second, open, 0);
    }
}

/// The plan bracket begins the witness generation of the job whose contribution runs, under either of
/// its names, and the success of the contribution ends it.
pub proof fn plan_and_success_bound_the_witgen(
    rest: Seq<char>,
    cur_p1: Option<Seq<char>>,
    cur_p2: Option<Seq<char>>,
)
    ensures
        stage_target(">>> PLAN"@, cur_p1, cur_p2) == running(cur_p1, StageField::WitgenStart),
        stage_target(">>> PLAN_SECONDARY"@, cur_p1, cur_p2) == running(
            cur_p1,
            StageField::WitgenStart,
        ),
        stage_target("Contribution computation successful"@ + rest, cur_p1, cur_p2) == running(
            cur_p1,
            StageField::WitgenEnd,
        ),
{
    reveal_strlit("Starting Partial Contribution for ");
    reveal_strlit(">>> COMPUTE_MINIMAL_TRACE");
    reveal_strlit("<<< COMPUTE_MINIMAL_TRACE");
    reveal_strlit(">>> PLAN");
    reveal_strlit(">>> PLAN_SECONDARY");
    reveal_strlit("Contribution computation successful");
    let plan = ">>> PLAN"@;
    let secondary = ">>> PLAN_SECONDARY"@;
    let piece = "Contribution computation successful"@;
    let success = piece + rest;
    assert(success.subrange(0, piece.len() as int) =~= piece);
    if begins_with(plan, "Starting Partial Contribution for "@) {
        lemma_begins(plan, "Starting Partial Contribution for "@, 0);
    }
    if begins_with(secondary, "Starting Partial Contribution for "@) {
        lemma_begins(secondary, "Starting Partial Contribution for "@, 0);
    }
    if begins_with(success, "Starting Partial Contribution for "@) {
        lemma_begins(success, "Starting Partial Contribution for "@, 0);
    }
    if begins_with(secondary, ">>> COMPUTE_MINIMAL_TRACE"@) {
        lemma_begins(secondary, ">>> COMPUTE_MINIMAL_TRACE"@, 4);
    }
    if begins_with(success, ">>> COMPUTE_MINIMAL_TRACE"@) {
        lemma_begins(success, ">>> COMPUTE_MINIMAL_TRACE"@, 0);
    }
    if begins_with(secondary, "<<< COMPUTE_MINIMAL_TRACE"@) {
        lemma_begins(secondary, "<<< COMPUTE_MINIMAL_TRACE"@, 0);
    }
    if begins_with(success, "<<< COMPUTE_MINIMAL_TRACE"@) {
        lemma_begins(success, "<<< COMPUTE_MINIMAL_TRACE"@, 0);
    }
    lemma_trimmed_first(success);
    assert(!crate::text::is_space(plan.last()));
    assert(!crate::text::is_space(secondary.last()));
    assert(trimmed_end(plan) == plan);
    assert(trimmed_end(secondary) == secondary);
}

/// The end of the proofs bracket ends the proving of the job that proves.
pub proof fn proofs_bracket_ends_the_proving(
    rest: Seq<char>,
    cur_p1: Option<Seq<char>>,
    job: Seq<char>,
)
    ensures
        stage_target("<<< GENERATING_PROOFS"@ + rest, cur_p1, Some(job)) == Some(
            (job, StageField::ProveEnd),
        ),
{
    reveal_strlit("Starting Partial Contribution for ");
    reveal_strlit("Starting Prove for JobId(");
    reveal_strlit(">>> COMPUTE_MINIMAL_TRACE");
    reveal_strlit("<<< COMPUTE_MINIMAL_TRACE");
    reveal_strlit("<<< GENERATING_PROOFS");
    reveal_strlit(">>> PLAN");
    reveal_strlit(">>> PLAN_SECONDARY");
    reveal_strlit("Contribution computation successful");
    let piece = "<<< GENERATING_PROOFS"@;
    let body = piece + rest;
    assert(body.subrange(0, piece.len() as int) =~= piece);
    assert(body[0] == '<' && body[4] == 'G');
    if begins_with(body, "Starting Partial Contribution for "@) {
        lemma_begins(body, "Starting Partial Contribution for "@, 0);
    }
    if begins_with(body, ">>> COMPUTE_MINIMAL_TRACE"@) {
        lemma_begins(body, ">>> COMPUTE_MINIMAL_TRACE"@, 0);
    }
    if begins_with(body, "<<< COMPUTE_MINIMAL_TRACE"@) {
        lemma_begins(body, "<<< COMPUTE_MINIMAL_TRACE"@, 4);
    }
    if begins_with(body, "Contribution computation successful"@) {
        lemma_begins(body, "Contribution computation successful"@, 0);
    }
    if begins_with(body, "Starting Prove for JobId("@) {
        lemma_begins(body, "Starting Prove for JobId("@, 0);
    }
    lemma_trimmed_first(body);
}

/// A cancellation line, which names its job before the word cancelled, sets the job's cancellation.
pub proof fn cancellation_names_its_job(
    uuid: Seq<char>,
    rest: Seq<char>,
    cur_p1: Option<Seq<char>>,
    cur_p2: Option<Seq<char>>,
)
    requires
        forall|i: int| 0 <= i < uuid.len() ==> uuid[i] != ' ',
    ensures
        stage_target("Job "@ + uuid + " cancelled:"@ + rest, cur_p1, cur_p2) == Some(
            (prefix_of(uuid), StageField::CancelledAt),
        ),
{
    reveal_strlit("Starting Partial Contribution for ");
    reveal_strlit("Starting Prove for JobId(");
    reveal_strlit(">>> COMPUTE_MINIMAL_TRACE");
    reveal_strlit("<<< COMPUTE_MINIMAL_TRACE");
    reveal_strlit("<<< GENERATING_PROOFS");
    reveal_strlit(">>> PLAN");
    reveal_strlit(">>> PLAN_SECONDARY");
    reveal_strlit("Contribution computation successful");
    reveal_strlit("Job ");
    reveal_strlit(" cancelled:");
    let piece = "Job "@;
    let inner = uuid + " cancelled:"@ + rest;
    let body = "Job "@ + uuid + " cancelled:"@ + rest;
    assert(body =~= piece + inner);
    assert(body.subrange(0, 4) =~= piece);
    assert(body.skip(4) =~= inner);
    assert(body[0] == 'J');
    if begins_with(body, "Starting Partial Contribution for "@) {
        lemma_begins(body, "Starting Partial Contribution for "@, 0);
    }
    if begins_with(body, ">>> COMPUTE_MINIMAL_TRACE"@) {
        lemma_begins(body, ">>> COMPUTE_MINIMAL_TRACE"@, 0);
    }
    if begins_with(body, "<<< COMPUTE_MINIMAL_TRACE"@) {
        lemma_begins(body, "<<< COMPUTE_MINIMAL_TRACE"@, 0);
    }
    if begins_with(body, "Contribution computation successful"@) {
        lemma_begins(body, "Contribution computation successful"@, 0);
    }
    if begins_with(body, "Starting Prove for JobId("@) {
        lemma_begins(body, "Starting Prove for JobId("@, 0);
    }
    if begins_with(body, "<<< GENERATING_PROOFS"@) {
        lemma_begins(body, "<<< GENERATING_PROOFS"@, 0);
    }
    lemma_trimmed_first(body);
    let word = " cancelled:"@;
    let n = uuid.len() as int;
    assert(inner.subrange(n, n + word.len()) =~= word);
    assert(occurs_at(inner, word, n));
    crate::text::lemma_first_from(inner, word, 0);
    let at = crate::text::first_from(inner, word, 0)->0;
    if at < n {
        assert(occurs_at(inner, word, at));
        assert(inner.subrange(at, at + word.len())[0] == ' ');
        assert(uuid[at] == ' ');
    }
    assert(at == n);
    assert(inner.take(n) =~= uuid);
}

/// A marker sets its field of its job on the node, at the line's moment, unless it is set already, and
/// nothing else of what is recorded. The contribution and the prove marker also make their job the
/// running one.
pub proof fn marker_sets_its_field_alone(
    read: StageRead,
    line: Seq<char>,
    node: Seq<char>,
    key: Seq<char>,
    field: StageField,
    ns: int,
    other_key: Seq<char>,
    other_node: Seq<char>,
    other_field: StageField,
)
    requires
        ts_read(first_token(line)) == Ok::<int, Failure>(ns),
    ensures
        ({
            let after = stage_marked(read, line, node, key, field);
            let was = stage_field(stages_at(read.stages, key, node), field);
            &&& after.failure == read.failure
            &&& stage_field(stages_at(after.stages, key, node), field) == (if was is Some {
                was
            } else {
                Some(ns)
            })
            &&& stages_at(after.stages, key, node).crashed == stages_at(
                read.stages,
                key,
                node,
            ).crashed
            &&& other_field != field ==> stage_field(
                stages_at(after.stages, key, node),
                other_field,
            ) == stage_field(stages_at(read.stages, key, node), other_field)
            &&& other_key != key || other_node != node ==> stages_at(
                after.stages,
                other_key,
                other_node,
            ) == stages_at(read.stages, other_key, other_node)
            &&& field == StageField::ContributionStart ==> after.cur_p1 == Some(key)
                && after.cur_p2 == read.cur_p2 && !after.frozen && after.last_line is None
            &&& field == StageField::ProveStart ==> after.cur_p2 == Some(key) && after.cur_p1
                == read.cur_p1
            &&& field != StageField::ContributionStart && field != StageField::ProveStart
                ==> after.cur_p1 == read.cur_p1 && after.cur_p2 == read.cur_p2
        }),
{
}

/// A restart while a job runs marks the node crashed on that job, with the last line before it as the
/// node's last activity, and no second restart counts until another job begins.
pub proof fn restart_freezes_the_running_job(
    read: StageRead,
    line: Seq<char>,
    node: Seq<char>,
    job: Seq<char>,
    last: Seq<char>,
    ns: int,
)
    requires
        !stamped(line),
        banner(line),
        read.cur_p1 == Some(job),
        read.last_line == Some(last),
        ts_read(first_token(last)) == Ok::<int, Failure>(ns),
    ensures
        !read.frozen ==> {
            let after = stage_stepped(read, line, node);
            let was = stages_at(read.stages, job, node).last_activity;
            &&& stages_at(after.stages, job, node).crashed
            &&& stages_at(after.stages, job, node).last_activity == (if was is Some {
                was
            } else {
                Some(ns)
            })
            &&& after.frozen
            &&& after.cur_p1 == read.cur_p1
        },
        read.frozen ==> stage_stepped(read, line, node) == read,
{
}

/// A line without a timestamp that is no restart changes nothing.
pub proof fn unstamped_line_is_skipped(read: StageRead, line: Seq<char>, node: Seq<char>)
    requires
        !stamped(line),
        !banner(line),
    ensures
        stage_stepped(read, line, node) == read,
{
}

/// A timestamped line becomes the last line of the running job until the node is frozen, and sets a
/// field where it is an INFO line with a marker.
pub proof fn stamped_line_is_the_last_line(
    read: StageRead,
    line: Seq<char>,
    node: Seq<char>,
)
    requires
        stamped(line),
        info_part(line) is None,
    ensures
        ({
            let after = stage_stepped(read, line, node);
            &&& after.stages == read.stages
            &&& !read.frozen && read.cur_p1 is Some ==> after.last_line == Some(line)
            &&& read.frozen || read.cur_p1 is None ==> after == read
        }),
{
}

/// The bounds of a job, none known where there are none.
pub open spec fn bounds_at(agg: Map<Seq<char>, AggModel>, key: Seq<char>) -> AggModel {
    at_or(agg, key, no_bounds())
}

/// The first aggregation step of a job sets its first step and makes it the running aggregation. The
/// last proof sets the start of the running one, and the completion sets the end of its job and ends
/// the run. A bound that is set stays.
pub proof fn aggregation_lines_set_their_bound(
    read: AggRead,
    groups: Seq<Option<Seq<char>>>,
    ns: int,
    other: Seq<char>,
)
    requires
        ts_read(group_text(groups, 1)) == Ok::<int, Failure>(ns),
        read.failure is None,
    ensures
        ({
            let key = prefix_of(group_text(groups, 2));
            let was = at_or(
                read.agg,
                key,
                AggModel { t_start: None, t_first_step: None, t_end: None },
            );
            let first = agg_applied(read, Some((0, groups)));
            let done = agg_applied(read, Some((2, groups)));
            &&& first.failure is None && first.current == Some(key)
            &&& first.agg.dom().contains(key) && first.agg[key] == (AggModel {
                t_first_step: Some(
                    if was.t_first_step is Some {
                        was.t_first_step->0
                    } else {
                        ns
                    },
                ),
                ..was
            })
            &&& done.failure is None && done.current is None
            &&& done.agg.dom().contains(key) && done.agg[key] == (AggModel {
                t_end: Some(
                    if was.t_end is Some {
                        was.t_end->0
                    } else {
                        ns
                    },
                ),
                ..was
            })
            &&& other != key ==> bounds_at(first.agg, other) == bounds_at(read.agg, other)
                && bounds_at(done.agg, other) == bounds_at(read.agg, other)
        }),
        read.current is Some && read.agg.dom().contains(read.current->0) ==> {
            let key = read.current->0;
            let was = read.agg[key];
            let last = agg_applied(read, Some((1, groups)));
            &&& last.failure is None && last.current == read.current
            &&& last.agg.dom().contains(key) && last.agg[key] == (AggModel {
                t_start: Some(
                    if was.t_start is Some {
                        was.t_start->0
                    } else {
                        ns
                    },
                ),
                ..was
            })
        },
        read.current is None ==> agg_applied(read, Some((1, groups))) == read,
{
}

/// A line is timestamped if and only if it begins with a decimal digit. A restart shows in the worker's
/// or mpirun's own words.
pub proof fn line_forms_are_told_by_their_words(line: Seq<char>)
    ensures
        stamped(line) <==> line.len() > 0 && '0' <= line[0] <= '9',
        banner(line) <==> begins_with(line, "ZisK Worker"@) || begins_with(line, "Primary job"@)
            || contains_piece(line, "exited on signal"@),
{
}

/// The first word of a line ends at its first space, and the body of an INFO line is what follows the
/// first INFO mark.
pub proof fn line_parts_are_cut_at_their_marks(line: Seq<char>)
    ensures
        ({
            let token = first_token(line);
            &&& token.len() <= line.len()
            &&& token == line.take(token.len() as int)
            &&& forall|i: int| 0 <= i < token.len() ==> token[i] != ' '
            &&& token.len() < line.len() ==> line[token.len() as int] == ' '
        }),
        match info_part(line) {
            Some(body) => {
                let at = line.len() - body.len() - " INFO: "@.len();
                0 <= at && line == line.take(at) + " INFO: "@ + body
            },
            None => !contains_piece(line, " INFO: "@),
        },
{
    lemma_to_space(line, 0);
    crate::laws::texts::text_is_cut_at_the_first_piece(line, " INFO: "@);
    match crate::text::around_first(line, " INFO: "@) {
        Some((head, body)) => {
            assert(line == head + " INFO: "@ + body);
            assert(line.take(head.len() as int) =~= head);
        },
        None => {
            if contains_piece(line, " INFO: "@) {
                let at = choose|at: int| occurs_at(line, " INFO: "@, at);
                assert(line.subrange(at, at + " INFO: "@.len()) == " INFO: "@);
            }
        },
    }
}

proof fn lemma_to_space(line: Seq<char>, from: int)
    requires
        0 <= from <= line.len(),
    ensures
        ({
            let end = crate::text::next_where(line, from, |c: char| c == ' ');
            &&& from <= end <= line.len()
            &&& forall|i: int| from <= i < end ==> line[i] != ' '
            &&& end < line.len() ==> line[end] == ' '
        }),
    decreases line.len() - from,
{
    if from < line.len() && line[from] != ' ' {
        lemma_to_space(line, from + 1);
    }
}

proof fn lemma_trimmed_back(text: Seq<char>, tail: Seq<char>)
    requires
        text.len() > 0,
        !crate::text::is_space(text.last()),
        blank(tail),
    ensures
        trimmed_end(text + tail) == text,
    decreases tail.len(),
{
    if tail.len() == 0 {
        assert(text + tail =~= text);
    } else {
        let less = tail.drop_last();
        assert((text + tail).last() == tail.last());
        assert((text + tail).drop_last() =~= text + less);
        assert(blank(less));
        lemma_trimmed_back(text, less);
    }
}

/// White space behind the plan bracket does not hide it: under either of its names it begins the
/// witness generation of the job whose contribution runs.
pub proof fn plan_bracket_stands_before_white_space(
    tail: Seq<char>,
    cur_p1: Option<Seq<char>>,
    cur_p2: Option<Seq<char>>,
)
    requires
        blank(tail),
    ensures
        stage_target(">>> PLAN"@ + tail, cur_p1, cur_p2) == running(
            cur_p1,
            StageField::WitgenStart,
        ),
        stage_target(">>> PLAN_SECONDARY"@ + tail, cur_p1, cur_p2) == running(
            cur_p1,
            StageField::WitgenStart,
        ),
{
    reveal_strlit("Starting Partial Contribution for ");
    reveal_strlit(">>> COMPUTE_MINIMAL_TRACE");
    reveal_strlit("<<< COMPUTE_MINIMAL_TRACE");
    reveal_strlit(">>> PLAN");
    reveal_strlit(">>> PLAN_SECONDARY");
    let plan = ">>> PLAN"@ + tail;
    let secondary = ">>> PLAN_SECONDARY"@ + tail;
    lemma_trimmed_back(">>> PLAN"@, tail);
    lemma_trimmed_back(">>> PLAN_SECONDARY"@, tail);
    if begins_with(plan, "Starting Partial Contribution for "@) {
        lemma_begins(plan, "Starting Partial Contribution for "@, 0);
    }
    if begins_with(secondary, "Starting Partial Contribution for "@) {
        lemma_begins(secondary, "Starting Partial Contribution for "@, 0);
    }
    if begins_with(plan, ">>> COMPUTE_MINIMAL_TRACE"@) {
        lemma_begins(plan, ">>> COMPUTE_MINIMAL_TRACE"@, 4);
    }
    if begins_with(secondary, ">>> COMPUTE_MINIMAL_TRACE"@) {
        lemma_begins(secondary, ">>> COMPUTE_MINIMAL_TRACE"@, 4);
    }
    if begins_with(plan, "<<< COMPUTE_MINIMAL_TRACE"@) {
        lemma_begins(plan, "<<< COMPUTE_MINIMAL_TRACE"@, 0);
    }
    if begins_with(secondary, "<<< COMPUTE_MINIMAL_TRACE"@) {
        lemma_begins(secondary, "<<< COMPUTE_MINIMAL_TRACE"@, 0);
    }
}

} // verus!
