//! Reads the zisk worker logs for aggregation bounds and per-node phase progress.
//!
//! The worker logs are large, so each is read and ansi-stripped once and handed to each sub-parser.
//! `parse_agg` recovers a clean job's aggregation window from the aggregator's markers,
//! `parse_stages` reconstructs the per-node sub-phase timeline a crashed job leaves behind because
//! the coordinator logs a phase only when it finishes while the worker brackets every sub-step, and
//! `pipeline::parse` extracts the fine pipeline items from those brackets. Stage and aggregation
//! fields are first-write-wins, so a later job on the same worker never overwrites an earlier one.

use vstd::prelude::*;

use crate::error::{Failure, Result};
use crate::input::WorkerFile;
use crate::log::{prefix_chars, prefix_of, ts_read, Ts};
use crate::pattern::{first_matched, found_view, group_text, Found, Rules};
use crate::text::{
    after, after_prefix, around, around_first, begins, begins_with, contains_piece, copied, decimal,
    holds, is, is_digit, joined, lines, lines_of, next_where, to_chars, to_text, trim_end,
    trimmed_end, views, write_decimal,
};
use crate::text_map::{at_or, lemma_replace, TextMap};
use crate::zisk::pipeline::{parse, parsed, JobPipelines, Pipelines};
use crate::zkvm::{strip_ansi, without_ansi};

verus! {

/// Whether a line begins with a timestamp.
pub open spec fn stamped(line: Seq<char>) -> bool {
    line.len() > 0 && is_digit(line[0])
}

/// Whether a line begins with a timestamp, the digit-led tracing lines. The restart banner and the
/// mpirun teardown output begin with a letter or symbol, so this cheaply separates job sub-steps
/// from the restart output a crash interleaves between two jobs.
pub fn has_ts(line: &[char]) -> (yes: bool)
    ensures
        yes == stamped(line@),
{
    line.len() > 0 && '0' <= line[0] && line[0] <= '9'
}

/// Whether a line is part of a worker process (re)start.
pub open spec fn banner(line: Seq<char>) -> bool {
    ||| begins_with(line, "ZisK Worker"@)
    ||| begins_with(line, "Primary job"@)
    ||| contains_piece(line, "exited on signal"@)
}

/// Whether a line is part of a worker process (re)start, the worker binary banner or the mpirun
/// signal teardown that precedes it. Each appears once per process start, never per job, so seeing
/// one while a job runs is the worker-log signature that the node crashed and is restarting. Only
/// the non-timestamped lines are tested, so a job's own log text never trips it.
pub fn is_restart_banner(line: &[char]) -> (yes: bool)
    ensures
        yes == banner(line@),
{
    begins(line, "ZisK Worker") || begins(line, "Primary job") || holds(line, "exited on signal")
}

/// The leading space-delimited token of a line.
pub open spec fn first_token(line: Seq<char>) -> Seq<char> {
    line.take(next_where(line, 0, |c: char| c == ' '))
}

/// The leading space-delimited token of a line, its timestamp.
pub fn leading_ts(line: &[char]) -> (token: &[char])
    ensures
        token@ == first_token(line@),
{
    let mut end: usize = 0;
    while end < line.len() && line[end] != ' '
        invariant
            end <= line@.len(),
            next_where(line@, 0, |c: char| c == ' ') == next_where(
                line@,
                end as int,
                |c: char| c == ' ',
            ),
        decreases line@.len() - end,
    {
        end += 1;
    }
    let token = &line[0..end];
    assert(token@ =~= first_token(line@));
    token
}

/// Aggregation timing bounds for one job, recovered from the aggregator worker log.
#[derive(Clone, Copy)]
pub struct AggBounds {
    pub t_start: Option<Ts>,
    pub t_first_step: Option<Ts>,
    pub t_end: Option<Ts>,
}

/// Aggregation bounds by their instants.
#[verifier::ext_equal]
pub struct AggModel {
    pub t_start: Option<int>,
    pub t_first_step: Option<int>,
    pub t_end: Option<int>,
}

impl DeepView for AggBounds {
    type V = AggModel;

    open spec fn deep_view(&self) -> AggModel {
        AggModel {
            t_start: self.t_start.deep_view(),
            t_first_step: self.t_first_step.deep_view(),
            t_end: self.t_end.deep_view(),
        }
    }
}

/// Bounds of which none is known.
pub open spec fn no_bounds() -> AggModel {
    AggModel { t_start: None, t_first_step: None, t_end: None }
}

impl Default for AggBounds {
    fn default() -> (bounds: AggBounds)
        ensures
            bounds.deep_view() == no_bounds(),
    {
        AggBounds { t_start: None, t_first_step: None, t_end: None }
    }
}

/// Matches the first aggregation-step line of a job, carrying the timestamp and the job id.
pub const RE_AGG_START: &'static str =
    r"^(?P<ts>\S+) \S+ INFO: Starting aggregation step for JobId\((?P<job>[^)]*)\)";

/// Matches the last-proof-received line, which carries no job id.
pub const RE_AGG_LAST_PROOF: &'static str = r"^(?P<ts>\S+) \S+ INFO: Last proof received";

/// Matches the aggregation-task-completed line, carrying the timestamp and the job id.
pub const RE_AGG_DONE: &'static str =
    r"^(?P<ts>\S+) \S+ INFO: Aggregation task completed for JobId\((?P<job>[^)]*)\)";

/// The aggregation patterns in the order in which a line is tried against them.
pub open spec fn agg_patterns() -> Seq<Seq<char>> {
    seq![RE_AGG_START@, RE_AGG_LAST_PROOF@, RE_AGG_DONE@]
}

/// The aggregation read so far: the bounds per job, the job whose aggregation runs, and the error
/// that ended the read.
#[verifier::ext_equal]
pub struct AggRead {
    pub agg: Map<Seq<char>, AggModel>,
    pub current: Option<Seq<char>>,
    pub failure: Option<Failure>,
}

/// The read after a line on which an aggregation pattern matched, with the groups it captured.
pub open spec fn agg_applied(
    read: AggRead,
    found: Option<(int, Seq<Option<Seq<char>>>)>,
) -> AggRead {
    match found {
        None => read,
        Some((rule, groups)) => {
            let ts = ts_read(group_text(groups, 1));
            let key = prefix_of(group_text(groups, 2));
            let bounds = at_or(read.agg, key, no_bounds());
            if rule == 0 {
                if bounds.t_first_step is Some {
                    AggRead {
                        agg: read.agg.insert(key, bounds),
                        current: Some(key),
                        failure: None,
                    }
                } else {
                    match ts {
                        Ok(ns) => AggRead {
                            agg: read.agg.insert(
                                key,
                                AggModel { t_first_step: Some(ns), ..bounds },
                            ),
                            current: Some(key),
                            failure: None,
                        },
                        Err(failure) => AggRead {
                            agg: read.agg.insert(key, bounds),
                            failure: Some(failure),
                            ..read
                        },
                    }
                }
            } else if rule == 1 {
                if read.current is Some && read.agg.dom().contains(read.current->0)
                    && read.agg[read.current->0].t_start is None {
                    match ts {
                        Ok(ns) => AggRead {
                            agg: read.agg.insert(
                                read.current->0,
                                AggModel { t_start: Some(ns), ..read.agg[read.current->0] },
                            ),
                            ..read
                        },
                        Err(failure) => AggRead { failure: Some(failure), ..read },
                    }
                } else {
                    read
                }
            } else if bounds.t_end is Some {
                AggRead { agg: read.agg.insert(key, bounds), current: None, failure: None }
            } else {
                match ts {
                    Ok(ns) => AggRead {
                        agg: read.agg.insert(key, AggModel { t_end: Some(ns), ..bounds }),
                        current: None,
                        failure: None,
                    },
                    Err(failure) => AggRead {
                        agg: read.agg.insert(key, bounds),
                        failure: Some(failure),
                        ..read
                    },
                }
            }
        },
    }
}

/// The read after the given lines, or up to the error that ends it.
pub open spec fn agg_scanned(read: AggRead, lines: Seq<Seq<char>>) -> AggRead
    decreases lines.len(),
{
    if lines.len() == 0 || read.failure is Some {
        read
    } else {
        agg_scanned(
            agg_applied(read, first_matched(agg_patterns(), lines[0], 0)),
            lines.skip(1),
        )
    }
}

/// What one worker log adds to the aggregation bounds.
pub open spec fn agg_parsed(clean: Seq<char>, agg: Map<Seq<char>, AggModel>) -> AggRead {
    agg_scanned(AggRead { agg, current: None, failure: None }, lines_of(clean))
}

fn bounds_of(agg: &TextMap<AggBounds>, key: &[char]) -> (bounds: AggBounds)
    ensures
        bounds.deep_view() == at_or(agg@, key@, no_bounds()),
{
    match agg.get(key) {
        Some(bounds) => *bounds,
        None => AggBounds::default(),
    }
}

/// The model of a job that may be unknown.
pub open spec fn job_view(job: Option<Vec<char>>) -> Option<Seq<char>> {
    match job {
        Some(job) => Some(job@),
        None => None,
    }
}

/// Adds what an aggregation line says, its pattern's place and its groups given, to the bounds of
/// its job. Returns the job whose aggregation then runs.
pub fn apply_agg(found: Found, current: Option<Vec<char>>, agg: &mut TextMap<AggBounds>) -> (
    next: Result<Option<Vec<char>>>)
    ensures
        ({
            let after = agg_applied(
                AggRead { agg: old(agg)@, current: job_view(current), failure: None },
                found_view(found),
            );
            &&& final(agg)@ == after.agg
            &&& match next {
                Ok(current) => after.failure is None && after.current == job_view(current),
                Err(error) => after.failure == Some(error@),
            }
        }),
{
    match found {
        None => Ok(current),
        Some((rule, groups)) => {
            if rule == 1 {
                let key: Vec<char> = match current {
                    Some(key) => key,
                    None => {
                        return Ok(None);
                    },
                };
                let mut bounds: AggBounds = match agg.get(key.as_slice()) {
                    Some(bounds) => *bounds,
                    None => {
                        return Ok(Some(key));
                    },
                };
                if bounds.t_start.is_none() {
                    match Ts::parse(groups.text(1).as_str()) {
                        Ok(ts) => {
                            bounds.t_start = Some(ts);
                            agg.insert(copied(key.as_slice()), bounds);
                        },
                        Err(error) => {
                            return Err(error);
                        },
                    }
                }
                return Ok(Some(key));
            }
            let key: Vec<char> = prefix_chars(to_chars(groups.text(2).as_str()).as_slice());
            let mut bounds: AggBounds = bounds_of(agg, key.as_slice());
            if rule == 0 {
                if bounds.t_first_step.is_none() {
                    match Ts::parse(groups.text(1).as_str()) {
                        Ok(ts) => {
                            bounds.t_first_step = Some(ts);
                        },
                        Err(error) => {
                            agg.insert(key, bounds);
                            return Err(error);
                        },
                    }
                }
                agg.insert(copied(key.as_slice()), bounds);
                Ok(Some(key))
            } else if bounds.t_end.is_some() {
                agg.insert(key, bounds);
                Ok(None)
            } else {
                match Ts::parse(groups.text(1).as_str()) {
                    Ok(ts) => {
                        bounds.t_end = Some(ts);
                        agg.insert(key, bounds);
                        Ok(None)
                    },
                    Err(error) => {
                        agg.insert(key, bounds);
                        Err(error)
                    },
                }
            }
        },
    }
}

/// Parses one ansi-stripped worker log's aggregation markers into per-job bounds, keyed by the
/// eight-hex job prefix so the key matches the coordinator-side lookup and the per-node stage map
/// regardless of how either log truncates the job id.
pub fn parse_agg(clean: &str, agg: &mut TextMap<AggBounds>) -> (parsed: Result<()>)
    ensures
        final(agg)@ == agg_parsed(clean@, old(agg)@).agg,
        match parsed {
            Ok(()) => agg_parsed(clean@, old(agg)@).failure is None,
            Err(error) => agg_parsed(clean@, old(agg)@).failure == Some(error@),
        },
{
    let ghost expected = agg_parsed(clean@, agg@);
    let rules: Rules = Rules::new().with(RE_AGG_START).with(RE_AGG_LAST_PROOF).with(RE_AGG_DONE);
    assert(rules@ =~= agg_patterns());
    let chars: Vec<char> = to_chars(clean);
    let lines: Vec<Vec<char>> = lines(chars.as_slice());
    let ghost all = lines_of(clean@);
    let mut current: Option<Vec<char>> = None;
    assert(all.skip(0) =~= all);
    for i in 0..lines.len()
        invariant
            rules@ == agg_patterns(),
            all == views(lines@),
            expected == agg_parsed(clean@, old(agg)@),
            expected == agg_scanned(
                AggRead { agg: agg@, current: job_view(current), failure: None },
                all.skip(i as int),
            ),
    {
        assert(all.skip(i as int)[0] == lines@[i as int]@);
        assert(all.skip(i as int).skip(1) =~= all.skip(i + 1));
        let line: String = to_text(lines[i].as_slice());
        let ghost after = agg_applied(
            AggRead { agg: agg@, current: job_view(current), failure: None },
            first_matched(agg_patterns(), line@, 0),
        );
        assert(expected == agg_scanned(after, all.skip(i + 1)));
        match apply_agg(rules.first_match(line.as_str()), current, agg) {
            Ok(next) => {
                current = next;
            },
            Err(error) => {
                return Err(error);
            },
        }
    }
    Ok(())
}

/// Boundary timestamps of one node's sub-phases for one job, any subset present. A field is set the
/// first time its marker appears within the job, so a later job on the same worker never overwrites
/// it. The unfinished phase has a start but no end, which the assembler clips to the crash moment.
///
/// The last three fields carry the worker-local truth about how an incomplete job ended on this
/// node, which the coordinator log reports late and only for one node. `last_activity` is the
/// timestamp of the last line the node emitted before its process died, the authoritative freeze
/// point a crash leaves. `cancelled_at` is when the node learned the job was cancelled after a
/// sibling crashed, from its own cancellation line, earlier than the coordinator's acknowledgement.
/// `crashed` records that the node's process restarted mid-job, the worker-log signature of a
/// crash, which the coordinator collapses to a single named node even when several froze.
#[derive(Clone, Copy)]
pub struct WorkerStages {
    /// The Starting Partial Contribution marker, when the node has fully received the job input and
    /// begins, the end of the input-transfer window that runs from the coordinator job start.
    pub contribution_start: Option<Ts>,
    pub emulation_start: Option<Ts>,
    pub emulation_end: Option<Ts>,
    pub witgen_start: Option<Ts>,
    pub witgen_end: Option<Ts>,
    pub prove_start: Option<Ts>,
    pub prove_end: Option<Ts>,
    pub last_activity: Option<Ts>,
    pub cancelled_at: Option<Ts>,
    pub crashed: bool,
}

/// Worker stages by their instants.
#[verifier::ext_equal]
pub struct StagesModel {
    pub contribution_start: Option<int>,
    pub emulation_start: Option<int>,
    pub emulation_end: Option<int>,
    pub witgen_start: Option<int>,
    pub witgen_end: Option<int>,
    pub prove_start: Option<int>,
    pub prove_end: Option<int>,
    pub last_activity: Option<int>,
    pub cancelled_at: Option<int>,
    pub crashed: bool,
}

impl DeepView for WorkerStages {
    type V = StagesModel;

    open spec fn deep_view(&self) -> StagesModel {
        StagesModel {
            contribution_start: self.contribution_start.deep_view(),
            emulation_start: self.emulation_start.deep_view(),
            emulation_end: self.emulation_end.deep_view(),
            witgen_start: self.witgen_start.deep_view(),
            witgen_end: self.witgen_end.deep_view(),
            prove_start: self.prove_start.deep_view(),
            prove_end: self.prove_end.deep_view(),
            last_activity: self.last_activity.deep_view(),
            cancelled_at: self.cancelled_at.deep_view(),
            crashed: self.crashed,
        }
    }
}

/// Stages of which none was reached.
pub open spec fn no_stages() -> StagesModel {
    StagesModel {
        contribution_start: None,
        emulation_start: None,
        emulation_end: None,
        witgen_start: None,
        witgen_end: None,
        prove_start: None,
        prove_end: None,
        last_activity: None,
        cancelled_at: None,
        crashed: false,
    }
}

impl Default for WorkerStages {
    fn default() -> (stages: WorkerStages)
        ensures
            stages.deep_view() == no_stages(),
    {
        WorkerStages {
            contribution_start: None,
            emulation_start: None,
            emulation_end: None,
            witgen_start: None,
            witgen_end: None,
            prove_start: None,
            prove_end: None,
            last_activity: None,
            cancelled_at: None,
            crashed: false,
        }
    }
}

/// A timestamp field of the worker stages.
#[derive(Clone, Copy, PartialEq, Eq, Debug, Structural)]
pub enum StageField {
    ContributionStart,
    EmulationStart,
    EmulationEnd,
    WitgenStart,
    WitgenEnd,
    ProveStart,
    ProveEnd,
    LastActivity,
    CancelledAt,
}

/// The instant in a field.
pub open spec fn stage_field(stages: StagesModel, field: StageField) -> Option<int> {
    match field {
        StageField::ContributionStart => stages.contribution_start,
        StageField::EmulationStart => stages.emulation_start,
        StageField::EmulationEnd => stages.emulation_end,
        StageField::WitgenStart => stages.witgen_start,
        StageField::WitgenEnd => stages.witgen_end,
        StageField::ProveStart => stages.prove_start,
        StageField::ProveEnd => stages.prove_end,
        StageField::LastActivity => stages.last_activity,
        StageField::CancelledAt => stages.cancelled_at,
    }
}

/// The stages with an instant put in a field.
pub open spec fn with_stage(stages: StagesModel, field: StageField, ns: int) -> StagesModel {
    match field {
        StageField::ContributionStart => StagesModel { contribution_start: Some(ns), ..stages },
        StageField::EmulationStart => StagesModel { emulation_start: Some(ns), ..stages },
        StageField::EmulationEnd => StagesModel { emulation_end: Some(ns), ..stages },
        StageField::WitgenStart => StagesModel { witgen_start: Some(ns), ..stages },
        StageField::WitgenEnd => StagesModel { witgen_end: Some(ns), ..stages },
        StageField::ProveStart => StagesModel { prove_start: Some(ns), ..stages },
        StageField::ProveEnd => StagesModel { prove_end: Some(ns), ..stages },
        StageField::LastActivity => StagesModel { last_activity: Some(ns), ..stages },
        StageField::CancelledAt => StagesModel { cancelled_at: Some(ns), ..stages },
    }
}

/// The stages with an instant put in a field that is still empty.
pub open spec fn first_write(stages: StagesModel, field: StageField, ns: int) -> StagesModel {
    if stage_field(stages, field) is Some {
        stages
    } else {
        with_stage(stages, field, ns)
    }
}

impl WorkerStages {
    fn field(&self, field: StageField) -> (ts: Option<Ts>)
        ensures
            ts.deep_view() == stage_field(self.deep_view(), field),
    {
        match field {
            StageField::ContributionStart => self.contribution_start,
            StageField::EmulationStart => self.emulation_start,
            StageField::EmulationEnd => self.emulation_end,
            StageField::WitgenStart => self.witgen_start,
            StageField::WitgenEnd => self.witgen_end,
            StageField::ProveStart => self.prove_start,
            StageField::ProveEnd => self.prove_end,
            StageField::LastActivity => self.last_activity,
            StageField::CancelledAt => self.cancelled_at,
        }
    }

    /// Puts an instant in a field that is still empty.
    pub fn write_first(&mut self, field: StageField, ts: Ts)
        ensures
            final(self).deep_view() == first_write(old(self).deep_view(), field, ts@),
    {
        if self.field(field).is_some() {
            return;
        }
        match field {
            StageField::ContributionStart => self.contribution_start = Some(ts),
            StageField::EmulationStart => self.emulation_start = Some(ts),
            StageField::EmulationEnd => self.emulation_end = Some(ts),
            StageField::WitgenStart => self.witgen_start = Some(ts),
            StageField::WitgenEnd => self.witgen_end = Some(ts),
            StageField::ProveStart => self.prove_start = Some(ts),
            StageField::ProveEnd => self.prove_end = Some(ts),
            StageField::LastActivity => self.last_activity = Some(ts),
            StageField::CancelledAt => self.cancelled_at = Some(ts),
        }
    }
}

/// Stage timestamps for every node on a job, keyed by node id, the value of the per-job map.
pub type JobStages = TextMap<WorkerStages>;

/// Stage instants by job and then by node.
pub type AllStages = Map<Seq<char>, Map<Seq<char>, StagesModel>>;

/// A node's stages on a job, none reached where there are none.
pub open spec fn stages_at(stages: AllStages, key: Seq<char>, node: Seq<char>) -> StagesModel {
    at_or(at_or(stages, key, Map::empty()), node, no_stages())
}

/// The stages with those of a node on a job replaced.
pub open spec fn with_stages(
    stages: AllStages,
    key: Seq<char>,
    node: Seq<char>,
    value: StagesModel,
) -> AllStages {
    stages.insert(key, at_or(stages, key, Map::empty()).insert(node, value))
}

fn put_stages(
    stages: &mut TextMap<JobStages>,
    key: &[char],
    node: &[char],
    value: WorkerStages,
)
    ensures
        final(stages)@ == with_stages(old(stages)@, key@, node@, value.deep_view()),
{
    let ghost before = stages@;
    let mut nodes: JobStages = match stages.remove(key) {
        Some(nodes) => nodes,
        None => TextMap::new(),
    };
    nodes.insert(copied(node), value);
    proof {
        lemma_replace(before, key@, nodes@);
        if !before.dom().contains(key@) {
            assert(before.remove(key@) =~= before);
        }
    }
    stages.insert(copied(key), nodes);
}

fn get_stages(stages: &TextMap<JobStages>, key: &[char], node: &[char]) -> (value: WorkerStages)
    ensures
        value.deep_view() == stages_at(stages@, key@, node@),
{
    match stages.get(key) {
        Some(nodes) => match nodes.get(node) {
            Some(value) => *value,
            None => WorkerStages::default(),
        },
        None => WorkerStages::default(),
    }
}

/// Sets a stage field for a job-and-node the first time it is seen, never overwriting a prior
/// value.
pub fn set(
    stages: &mut TextMap<JobStages>,
    key: &[char],
    node: &[char],
    ts: Ts,
    field: StageField,
)
    ensures
        final(stages)@ == with_stages(
            old(stages)@,
            key@,
            node@,
            first_write(stages_at(old(stages)@, key@, node@), field, ts@),
        ),
{
    let mut value: WorkerStages = get_stages(stages, key, node);
    value.write_first(field, ts);
    put_stages(stages, key, node, value);
}

/// Marks a job-and-node as crashed, the worker-log conclusion that the node's process died mid-job.
pub fn set_crashed(stages: &mut TextMap<JobStages>, key: &[char], node: &[char])
    ensures
        final(stages)@ == with_stages(
            old(stages)@,
            key@,
            node@,
            (StagesModel { crashed: true, ..stages_at(old(stages)@, key@, node@) }),
        ),
{
    let mut value: WorkerStages = get_stages(stages, key, node);
    value.crashed = true;
    put_stages(stages, key, node, value);
}

/// Whether a worker INFO body opens the planning bracket that starts witness generation.
pub open spec fn plan_opens(body: Seq<char>) -> bool {
    trimmed_end(body) == ">>> PLAN"@ || trimmed_end(body) == ">>> PLAN_SECONDARY"@
}

/// Whether a worker INFO body opens the planning bracket that starts witness generation, which zisk
/// 1.1.0 renamed from PLAN to PLAN_SECONDARY. The match is exact so a longer stem sharing the prefix
/// is never mistaken for it.
fn is_plan_open(body: &[char]) -> (yes: bool)
    ensures
        yes == plan_opens(body@),
{
    let body = trim_end(body);
    is(body, ">>> PLAN") || is(body, ">>> PLAN_SECONDARY")
}

/// The job uuid of a worker cancellation line, "Job <uuid> cancelled: <reason>".
pub open spec fn cancelled_job(body: Seq<char>) -> Option<Seq<char>> {
    match after_prefix(body, "Job "@) {
        Some(rest) => match around_first(rest, " cancelled:"@) {
            Some((uuid, _)) => Some(uuid),
            None => None,
        },
        None => None,
    }
}

/// The job uuid of a worker cancellation line, or None for any other line. The reason names the
/// crashed peer, but the cancellation time belongs to the node being parsed.
fn cancelled_uuid(body: &[char]) -> (uuid: Option<&[char]>)
    ensures
        match uuid {
            Some(uuid) => cancelled_job(body@) == Some(uuid@),
            None => cancelled_job(body@) is None,
        },
{
    match after(body, "Job ") {
        Some(rest) => match around(rest, " cancelled:") {
            Some((uuid, _)) => Some(uuid),
            None => None,
        },
        None => None,
    }
}

/// The message body of a worker INFO line, the part after the INFO marker.
pub open spec fn info_part(line: Seq<char>) -> Option<Seq<char>> {
    match around_first(line, " INFO: "@) {
        Some((_, body)) => Some(body),
        None => None,
    }
}

/// The message body of a worker INFO line, the part after the INFO marker, or None for a non-INFO
/// line.
fn info_body(line: &[char]) -> (body: Option<&[char]>)
    ensures
        match body {
            Some(body) => info_part(line@) == Some(body@),
            None => info_part(line@) is None,
        },
{
    match around(line, " INFO: ") {
        Some((_, body)) => Some(body),
        None => None,
    }
}

/// The stages read so far: the jobs whose phase 1 and phase 2 run, the last timestamped line of the
/// running job, whether the job's node has already crashed, the stages, and the error that ended
/// the read.
#[verifier::ext_equal]
pub struct StageRead {
    pub cur_p1: Option<Seq<char>>,
    pub cur_p2: Option<Seq<char>>,
    pub last_line: Option<Seq<char>>,
    pub frozen: bool,
    pub stages: AllStages,
    pub failure: Option<Failure>,
}

/// A field of the running job, where one runs.
pub open spec fn field_of(job: Option<Seq<char>>, field: StageField) -> Option<
    (Seq<char>, StageField),
> {
    match job {
        Some(job) => Some((job, field)),
        None => None,
    }
}

/// The job and the field whose instant a worker INFO body marks. The sub-step lines carry no job id
/// and belong to the running job.
pub open spec fn stage_target(
    body: Seq<char>,
    cur_p1: Option<Seq<char>>,
    cur_p2: Option<Seq<char>>,
) -> Option<(Seq<char>, StageField)> {
    match after_prefix(body, "Starting Partial Contribution for "@) {
        Some(uuid) => Some((prefix_of(uuid), StageField::ContributionStart)),
        None => if begins_with(body, ">>> COMPUTE_MINIMAL_TRACE"@) {
            field_of(cur_p1, StageField::EmulationStart)
        } else if begins_with(body, "<<< COMPUTE_MINIMAL_TRACE"@) {
            field_of(cur_p1, StageField::EmulationEnd)
        } else if plan_opens(body) {
            field_of(cur_p1, StageField::WitgenStart)
        } else if begins_with(body, "Contribution computation successful"@) {
            field_of(cur_p1, StageField::WitgenEnd)
        } else {
            match after_prefix(body, "Starting Prove for JobId("@) {
                Some(rest) => Some((prefix_of(rest), StageField::ProveStart)),
                None => if begins_with(body, "<<< GENERATING_PROOFS"@) && cur_p2 is Some {
                    field_of(cur_p2, StageField::ProveEnd)
                } else {
                    match cancelled_job(body) {
                        Some(uuid) => Some((prefix_of(uuid), StageField::CancelledAt)),
                        None => None,
                    }
                },
            }
        },
    }
}

/// The read after a restart banner while a job runs: the held last line is the node's freeze.
pub open spec fn stage_crashed(read: StageRead, node: Seq<char>) -> StageRead {
    let job = read.cur_p1->0;
    match read.last_line {
        Some(line) => match ts_read(first_token(line)) {
            Ok(ns) => {
                let value = first_write(
                    stages_at(read.stages, job, node),
                    StageField::LastActivity,
                    ns,
                );
                StageRead {
                    stages: with_stages(
                        read.stages,
                        job,
                        node,
                        StagesModel { crashed: true, ..value },
                    ),
                    frozen: true,
                    ..read
                }
            },
            Err(failure) => StageRead { failure: Some(failure), ..read },
        },
        None => StageRead {
            stages: with_stages(
                read.stages,
                job,
                node,
                StagesModel { crashed: true, ..stages_at(read.stages, job, node) },
            ),
            frozen: true,
            ..read
        },
    }
}

/// The read after a line that marks a field of a job.
pub open spec fn stage_marked(
    read: StageRead,
    line: Seq<char>,
    node: Seq<char>,
    key: Seq<char>,
    field: StageField,
) -> StageRead {
    match ts_read(first_token(line)) {
        Err(failure) => StageRead { failure: Some(failure), ..read },
        Ok(ns) => {
            let read = StageRead {
                stages: with_stages(
                    read.stages,
                    key,
                    node,
                    first_write(stages_at(read.stages, key, node), field, ns),
                ),
                ..read
            };
            if field == StageField::ContributionStart {
                StageRead { cur_p1: Some(key), frozen: false, last_line: None, ..read }
            } else if field == StageField::ProveStart {
                StageRead { cur_p2: Some(key), ..read }
            } else {
                read
            }
        },
    }
}

/// The read after one line of a worker log.
pub open spec fn stage_stepped(read: StageRead, line: Seq<char>, node: Seq<char>) -> StageRead {
    if !stamped(line) {
        if !read.frozen && read.cur_p1 is Some && banner(line) {
            stage_crashed(read, node)
        } else {
            read
        }
    } else {
        let read = if !read.frozen && read.cur_p1 is Some {
            StageRead { last_line: Some(line), ..read }
        } else {
            read
        };
        match info_part(line) {
            None => read,
            Some(body) => match stage_target(body, read.cur_p1, read.cur_p2) {
                None => read,
                Some((key, field)) => stage_marked(read, line, node, key, field),
            },
        }
    }
}

/// The read after the given lines, or up to the error that ends it.
pub open spec fn stage_scanned(read: StageRead, lines: Seq<Seq<char>>, node: Seq<char>) -> StageRead
    decreases lines.len(),
{
    if lines.len() == 0 || read.failure is Some {
        read
    } else {
        stage_scanned(stage_stepped(read, lines[0], node), lines.skip(1), node)
    }
}

/// What is known when a worker log is taken up: the stages that the logs before it left, and no
/// running job.
pub open spec fn read_begun(stages: AllStages) -> StageRead {
    StageRead {
        cur_p1: None,
        cur_p2: None,
        last_line: None,
        frozen: false,
        stages,
        failure: None,
    }
}

/// What one worker log adds to the stages.
pub open spec fn stages_parsed(clean: Seq<char>, node: Seq<char>, stages: AllStages) -> StageRead {
    stage_scanned(read_begun(stages), lines_of(clean), node)
}

/// Where the reader of one worker log's stages stands.
struct StageReader {
    cur_p1: Option<Vec<char>>,
    cur_p2: Option<Vec<char>>,
    last_line: Option<Vec<char>>,
    frozen: bool,
}

impl StageReader {
    spec fn read(&self, stages: AllStages) -> StageRead {
        StageRead {
            cur_p1: job_view(self.cur_p1),
            cur_p2: job_view(self.cur_p2),
            last_line: job_view(self.last_line),
            frozen: self.frozen,
            stages,
            failure: None,
        }
    }

    fn running(job: &Option<Vec<char>>, field: StageField) -> (target: Option<
        (Vec<char>, StageField),
    >)
        ensures
            match target {
                Some((key, field_marked)) => field_of(job_view(*job), field) == Some(
                    (key@, field_marked),
                ),
                None => field_of(job_view(*job), field) is None,
            },
    {
        match job {
            Some(job) => Some((copied(job.as_slice()), field)),
            None => None,
        }
    }

    /// The job and the field whose instant a worker INFO body marks.
    fn target(&self, body: &[char]) -> (target: Option<(Vec<char>, StageField)>)
        ensures
            match target {
                Some((key, field)) => stage_target(
                    body@,
                    job_view(self.cur_p1),
                    job_view(self.cur_p2),
                ) == Some((key@, field)),
                None => stage_target(body@, job_view(self.cur_p1), job_view(self.cur_p2)) is None,
            },
    {
        if let Some(uuid) = after(body, "Starting Partial Contribution for ") {
            return Some((prefix_chars(uuid), StageField::ContributionStart));
        }
        if begins(body, ">>> COMPUTE_MINIMAL_TRACE") {
            return StageReader::running(&self.cur_p1, StageField::EmulationStart);
        }
        if begins(body, "<<< COMPUTE_MINIMAL_TRACE") {
            return StageReader::running(&self.cur_p1, StageField::EmulationEnd);
        }
        if is_plan_open(body) {
            return StageReader::running(&self.cur_p1, StageField::WitgenStart);
        }
        if begins(body, "Contribution computation successful") {
            return StageReader::running(&self.cur_p1, StageField::WitgenEnd);
        }
        if let Some(rest) = after(body, "Starting Prove for JobId(") {
            return Some((prefix_chars(rest), StageField::ProveStart));
        }
        if begins(body, "<<< GENERATING_PROOFS") && self.cur_p2.is_some() {
            return StageReader::running(&self.cur_p2, StageField::ProveEnd);
        }
        // The node's own cancellation line, earlier than the coordinator's acknowledgement, is the
        // accurate moment a surviving sibling stopped working after a peer crashed.
        match cancelled_uuid(body) {
            Some(uuid) => Some((prefix_chars(uuid), StageField::CancelledAt)),
            None => None,
        }
    }

    /// Records the crash that a restart banner shows.
    fn crash(&mut self, node: &[char], stages: &mut TextMap<JobStages>) -> (done: Result<()>)
        requires
            old(self).cur_p1 is Some,
        ensures
            ({
                let after = stage_crashed(old(self).read(old(stages)@), node@);
                match done {
                    Ok(()) => after == final(self).read(final(stages)@),
                    Err(error) => after.failure == Some(error@) && final(stages)@ == after.stages,
                }
            }),
    {
        let job: Vec<char> = match &self.cur_p1 {
            Some(job) => copied(job.as_slice()),
            None => Vec::new(),
        };
        let ghost before = stages@;
        match &self.last_line {
            Some(line) => match Ts::parse(to_text(leading_ts(line.as_slice())).as_str()) {
                Ok(ts) => {
                    set(stages, job.as_slice(), node, ts, StageField::LastActivity);
                    let ghost mid = stages@;
                    set_crashed(stages, job.as_slice(), node);
                    proof {
                        let value = first_write(
                            stages_at(before, job@, node@),
                            StageField::LastActivity,
                            ts@,
                        );
                        assert(mid[job@].insert(
                            node@,
                            StagesModel { crashed: true, ..value },
                        ) =~= at_or(before, job@, Map::empty()).insert(
                            node@,
                            StagesModel { crashed: true, ..value },
                        ));
                        assert(stages@ =~= with_stages(
                            before,
                            job@,
                            node@,
                            StagesModel { crashed: true, ..value },
                        ));
                    }
                },
                Err(error) => {
                    return Err(error);
                },
            },
            None => {
                set_crashed(stages, job.as_slice(), node);
            },
        }
        self.frozen = true;
        Ok(())
    }

    /// Reads one line of a worker log into the stages.
    fn step(&mut self, line: &[char], node: &[char], stages: &mut TextMap<JobStages>) -> (
        done: Result<()>)
        ensures
            ({
                let after = stage_stepped(old(self).read(old(stages)@), line@, node@);
                match done {
                    Ok(()) => after == final(self).read(final(stages)@),
                    Err(error) => after.failure == Some(error@) && final(stages)@ == after.stages,
                }
            }),
    {
        // A line with no leading timestamp is restart or wrapped output, not a job sub-step. A
        // restart banner while a job runs means the node's process died, so the held last line is
        // its freeze.
        if !has_ts(line) {
            if !self.frozen && self.cur_p1.is_some() && is_restart_banner(line) {
                return self.crash(node, stages);
            }
            return Ok(());
        }
        // Hold the latest timestamped line of the running job as the freeze candidate, until a
        // crash freezes it or a new job clears it.
        if !self.frozen && self.cur_p1.is_some() {
            self.last_line = Some(copied(line));
        }
        let body = match info_body(line) {
            Some(body) => body,
            None => {
                return Ok(());
            },
        };
        match self.target(body) {
            None => Ok(()),
            Some((key, field)) => match Ts::parse(to_text(leading_ts(line)).as_str()) {
                Err(error) => Err(error),
                Ok(ts) => {
                    set(stages, key.as_slice(), node, ts, field);
                    if field == StageField::ContributionStart {
                        // A new job begins, so the prior job's freeze tracking is retired.
                        self.cur_p1 = Some(key);
                        self.frozen = false;
                        self.last_line = None;
                    } else if field == StageField::ProveStart {
                        self.cur_p2 = Some(key);
                    }
                    Ok(())
                },
            },
        }
    }
}

/// Parses one ansi-stripped worker log into per-job stage timestamps for the given node. The
/// current phase1 and phase2 jobs are tracked separately because each is introduced by its own
/// marker and the sub-step lines in between carry no job id. The Starting Partial Contribution
/// marker records when the node has received the job input and begins, the end of the
/// input-transfer window the assembler runs from the coordinator job start.
///
/// The same pass recovers how an incomplete job ended on this node. The latest timestamped line of
/// the running job is held, so when a process-restart banner appears the node has crashed and that
/// held line is its freeze point. The banner and the restart output that follows carry no
/// timestamp, so they never advance the freeze, and a new Starting Partial Contribution clears the
/// held line. The node's own cancellation line records when a surviving sibling learned to stop.
pub fn parse_stages(clean: &str, node: &str, stages: &mut TextMap<JobStages>) -> (parsed: Result<()>)
    ensures
        final(stages)@ == stages_parsed(clean@, node@, old(stages)@).stages,
        match parsed {
            Ok(()) => stages_parsed(clean@, node@, old(stages)@).failure is None,
            Err(error) => stages_parsed(clean@, node@, old(stages)@).failure == Some(error@),
        },
{
    let ghost expected = stages_parsed(clean@, node@, stages@);
    let name: Vec<char> = to_chars(node);
    let chars: Vec<char> = to_chars(clean);
    let lines: Vec<Vec<char>> = lines(chars.as_slice());
    let ghost all = lines_of(clean@);
    let mut reader = StageReader { cur_p1: None, cur_p2: None, last_line: None, frozen: false };
    assert(all.skip(0) =~= all);
    for i in 0..lines.len()
        invariant
            name@ == node@,
            all == views(lines@),
            expected == stages_parsed(clean@, node@, old(stages)@),
            expected == stage_scanned(reader.read(stages@), all.skip(i as int), node@),
    {
        assert(all.skip(i as int)[0] == lines@[i as int]@);
        assert(all.skip(i as int).skip(1) =~= all.skip(i + 1));
        let ghost after = stage_stepped(reader.read(stages@), lines@[i as int]@, node@);
        assert(expected == stage_scanned(after, all.skip(i + 1), node@));
        match reader.step(lines[i].as_slice(), name.as_slice(), stages) {
            Ok(()) => {},
            Err(error) => {
                return Err(error);
            },
        }
    }
    Ok(())
}

/// Everything recovered from the worker logs, the per-job aggregation bounds, node stages, and
/// fine pipeline items.
pub struct WorkerData {
    /// Per-job aggregation bounds, keyed by the eight-hex job prefix so the key matches the stage
    /// map and the coordinator-side lookup regardless of how each log truncates the job id.
    pub agg: TextMap<AggBounds>,
    /// Per-job sub-phase stage timestamps, keyed by the eight-hex job prefix then by node.
    pub stages: TextMap<JobStages>,
    /// Per-job fine pipeline items, keyed by the eight-hex job prefix then by node.
    pub pipelines: TextMap<JobPipelines>,
}

/// Worker data by the values it holds.
#[verifier::ext_equal]
pub struct DataModel {
    pub agg: Map<Seq<char>, AggModel>,
    pub stages: AllStages,
    pub pipelines: Pipelines,
}

impl View for WorkerData {
    type V = DataModel;

    open spec fn view(&self) -> DataModel {
        DataModel { agg: self.agg@, stages: self.stages@, pipelines: self.pipelines@ }
    }
}

/// The node that a worker digit names.
pub open spec fn node_name(digit: u32) -> Seq<char> {
    "node"@ + decimal(digit as nat)
}

/// The data after one worker log.
pub open spec fn file_loaded(data: DataModel, digit: u32, text: Seq<char>) -> core::result::Result<
    DataModel,
    Failure,
> {
    let clean = without_ansi(text);
    let node = node_name(digit);
    let agg = agg_parsed(clean, data.agg);
    let stages = stages_parsed(clean, node, data.stages);
    let (pipelines, failure) = parsed(clean, node, data.pipelines);
    if agg.failure is Some {
        Err(agg.failure->0)
    } else if stages.failure is Some {
        Err(stages.failure->0)
    } else if failure is Some {
        Err(failure->0)
    } else {
        Ok(DataModel { agg: agg.agg, stages: stages.stages, pipelines })
    }
}

/// The data after the given worker logs, or the error that ends the read.
pub open spec fn files_loaded(
    data: DataModel,
    files: Seq<(u32, Seq<char>, Seq<char>)>,
) -> core::result::Result<DataModel, Failure>
    decreases files.len(),
{
    if files.len() == 0 {
        Ok(data)
    } else {
        match file_loaded(data, files[0].0, files[0].2) {
            Ok(next) => files_loaded(next, files.skip(1)),
            Err(failure) => Err(failure),
        }
    }
}

/// The data of no worker log.
pub open spec fn no_data() -> DataModel {
    DataModel { agg: Map::empty(), stages: Map::empty(), pipelines: Map::empty() }
}

/// Loads aggregation bounds, node phase stages, and pipeline items from every worker log of a run.
pub fn load(files: &Vec<WorkerFile>) -> (loaded: Result<WorkerData>)
    ensures
        match files_loaded(no_data(), files.deep_view()) {
            Ok(data) => loaded is Ok && loaded->Ok_0@ == data,
            Err(failure) => loaded is Err && loaded->Err_0@ == failure,
        },
{
    let mut agg: TextMap<AggBounds> = TextMap::new();
    let mut stages: TextMap<JobStages> = TextMap::new();
    let mut pipelines: TextMap<JobPipelines> = TextMap::new();
    let ghost all = files.deep_view();
    assert(all.skip(0) =~= all);
    for i in 0..files.len()
        invariant
            all == files.deep_view(),
            files_loaded(no_data(), all) == files_loaded(
                DataModel { agg: agg@, stages: stages@, pipelines: pipelines@ },
                all.skip(i as int),
            ),
    {
        assert(all.skip(i as int)[0] == files@[i as int].deep_view());
        assert(all.skip(i as int).skip(1) =~= all.skip(i + 1));
        let clean: String = strip_ansi(files[i].text.as_str());
        let node: Vec<char> = joined(
            to_chars("node").as_slice(),
            write_decimal(files[i].digit as u64).as_slice(),
        );
        let node: String = to_text(node.as_slice());
        if let Err(error) = parse_agg(clean.as_str(), &mut agg) {
            return Err(error);
        }
        if let Err(error) = parse_stages(clean.as_str(), node.as_str(), &mut stages) {
            return Err(error);
        }
        if let Err(error) = parse(clean.as_str(), node.as_str(), &mut pipelines) {
            return Err(error);
        }
    }
    Ok(WorkerData { agg, stages, pipelines })
}

} // verus!
