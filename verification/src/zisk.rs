//! The zisk zkVM backend, with detection and the coordinator, worker, phase, and pipeline parsers
//! that turn its cluster logs into the generic log model.

pub mod coordinator;
pub mod kinds;
pub mod pairing;
pub mod phases;
pub mod pipeline;
pub mod worker;

use vstd::prelude::*;

use crate::error::{Failure, Result};
use crate::input::WorkerFile;
use crate::log::{prefix_chars, prefix_of, Log, LogModel, PhaseDef};
use crate::text::{contains_piece, holds, lines_of, to_chars};
use crate::zisk::coordinator::{consumed_all, JobModel, RawJob};
use crate::zisk::kinds::{definition, zisk_pipeline, KIND_COUNT};
use crate::zisk::phases::{build_log, log_of};
use crate::zisk::worker::{files_loaded, load, no_data, DataModel, WorkerData};
use crate::zkvm::{opt_at, phase_def, without_ansi, ParsedLogs, ParsedModel};

verus! {

/// The zisk backend.
pub struct ZiskParser;

/// The ordered zisk phase preset: the name and label of each phase, none of which overlaps.
pub open spec fn phase_preset() -> Seq<(Seq<char>, Seq<char>, bool)> {
    seq![
        ("input"@, "Input Transfer"@, false),
        ("emulation"@, "Emulation"@, false),
        ("commit"@, "Witgen + Commit"@, false),
        ("prove"@, "Prove + Recurse"@, false),
        ("aggregate"@, "Aggregate"@, false),
    ]
}

/// Returns the ordered zisk phase preset.
pub fn zisk_phases() -> (phases: Vec<PhaseDef>)
    ensures
        phases.deep_view() == phase_preset(),
{
    let mut phases: Vec<PhaseDef> = Vec::new();
    phases.push(phase_def("input", "Input Transfer", false));
    phases.push(phase_def("emulation", "Emulation", false));
    phases.push(phase_def("commit", "Witgen + Commit", false));
    phases.push(phase_def("prove", "Prove + Recurse", false));
    phases.push(phase_def("aggregate", "Aggregate", false));
    assert(phases.deep_view() =~= phase_preset());
    phases
}

/// Reports whether coordinator log text was produced by the zisk coordinator.
pub fn detect_zisk(coordinator_text: &str) -> (detected: bool)
    ensures
        detected == contains_piece(coordinator_text@, "zisk-coordinator"@),
{
    holds(to_chars(coordinator_text).as_slice(), "zisk-coordinator")
}

/// The log of one raw job. The aggregation, stage, and pipeline maps all key on the eight-hex job
/// prefix, so the coordinator id is normalized once and used for every lookup.
pub open spec fn job_log(raw: JobModel, data: DataModel) -> LogModel {
    let key = prefix_of(raw.id);
    log_of(
        raw,
        opt_at(Some(data.agg), key),
        opt_at(Some(data.stages), key),
        opt_at(Some(data.pipelines), key),
    )
}

/// A zisk run parsed from its coordinator log and its worker logs.
pub open spec fn zisk_parsed(
    coordinator: Seq<char>,
    files: Seq<(u32, Seq<char>, Seq<char>)>,
) -> core::result::Result<ParsedModel, Failure> {
    match consumed_all(seq![], lines_of(without_ansi(coordinator))) {
        Err(failure) => Err(failure),
        Ok(jobs) => match files_loaded(no_data(), files) {
            Err(failure) => Err(failure),
            Ok(data) => Ok(
                ParsedModel {
                    name: "zisk"@,
                    phases: phase_preset(),
                    pipeline: Seq::new(KIND_COUNT as nat, |kind: int| definition(kind)),
                    pipeline_components: seq![],
                    subphases: seq![],
                    logs: jobs.map_values(|raw: JobModel| job_log(raw, data)),
                },
            ),
        },
    }
}

impl ZiskParser {
    /// Reports whether the coordinator log came from this backend.
    pub fn detect(&self, coordinator_text: &str) -> (detected: bool)
        ensures
            detected == contains_piece(coordinator_text@, "zisk-coordinator"@),
    {
        detect_zisk(coordinator_text)
    }

    /// Parses the cluster logs into the zkVM name, phase preset, and per-job logs.
    pub fn parse(&self, coordinator_text: &str, files: &Vec<WorkerFile>) -> (run: Result<
        ParsedLogs,
    >)
        ensures
            match zisk_parsed(coordinator_text@, files.deep_view()) {
                Ok(expected) => run is Ok && run->Ok_0.deep_view() == expected,
                Err(failure) => run is Err && run->Err_0@ == failure,
            },
    {
        let raw_jobs: Vec<RawJob> = match coordinator::parse(coordinator_text) {
            Ok(jobs) => jobs,
            Err(error) => {
                return Err(error);
            },
        };
        let data: WorkerData = match load(files) {
            Ok(data) => data,
            Err(error) => {
                return Err(error);
            },
        };
        let mut logs: Vec<Log> = Vec::new();
        for i in 0..raw_jobs.len()
            invariant
                logs@.len() == i,
                forall|k: int|
                    0 <= k < i ==> (#[trigger] logs@[k]).deep_view() == job_log(
                        raw_jobs@[k].deep_view(),
                        data@,
                    ),
        {
            let raw: &RawJob = &raw_jobs[i];
            let key: Vec<char> = prefix_chars(to_chars(raw.id.as_str()).as_slice());
            let key = key.as_slice();
            logs.push(
                build_log(raw, data.agg.get(key), data.stages.get(key), data.pipelines.get(key)),
            );
        }
        let run = ParsedLogs {
            name: "zisk",
            phases: zisk_phases(),
            pipeline: zisk_pipeline(),
            pipeline_components: Vec::new(),
            subphases: Vec::new(),
            logs,
        };
        proof {
            let expected = zisk_parsed(coordinator_text@, files.deep_view())->Ok_0;
            assert(run.logs.deep_view() =~= expected.logs);
            assert(run.deep_view() =~= expected);
        }
        Ok(run)
    }
}

} // verus!
