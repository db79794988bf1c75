//! The openvm zkVM backend, with detection and the coordinator, worker, and phase parsers that
//! turn an Axiom Edge cluster's logs into the generic log model.
//!
//! An Axiom Edge cluster is one edge-manager writing coordinator.log plus one edge-worker process
//! per GPU writing worker-{host}-gpu{gpu}.log, four workers sharing each host node. Every work
//! item logs one self-contained completion line carrying its duration, so the parsers are one
//! pattern per item kind with no bracket pairing.

pub mod coordinator;
pub mod phases;
pub mod worker;

use vstd::prelude::*;

use crate::error::{Failure, Result};
use crate::input::WorkerFile;
use crate::log::{Log, LogModel, PhaseDef};
use crate::openvm::coordinator::{consumed_all, JobModel, RawJob};
use crate::openvm::phases::{
    build_log, component_at, kind_template, log_of, openvm_component_pipeline, openvm_pipeline,
    subphase_at, subphase_template, JobWork, OWNER_COUNT, STEP_COUNT,
};
use crate::openvm::worker::{files_loaded, load, no_data, DataModel, WorkerData};
use crate::text::{contains_piece, holds, lines_of, to_chars};
use crate::zkvm::{opt_at, phase_def, without_ansi, ParsedLogs, ParsedModel};

verus! {

/// The openvm backend.
pub struct OpenvmParser;

/// The ordered openvm phase preset: the name and label of each phase, and whether it overlaps its
/// neighbors.
pub open spec fn phase_preset() -> Seq<(Seq<char>, Seq<char>, bool)> {
    seq![
        ("input"@, "Input Transfer"@, false),
        ("metered_execution"@, "Metered Execution"@, true),
        ("segment"@, "Segment"@, true),
        ("recursion"@, "Recursion"@, true),
        ("wrap"@, "Wrap"@, false),
    ]
}

/// Returns the ordered openvm phase preset. The metered execution, segment, and recursion phases
/// overlap because the executor meters segments while they prove and recursion consumes segments as
/// they complete, so none of the three is a blocking stage.
pub fn openvm_phases() -> (phases: Vec<PhaseDef>)
    ensures
        phases.deep_view() == phase_preset(),
{
    let mut phases: Vec<PhaseDef> = Vec::new();
    phases.push(phase_def("input", "Input Transfer", false));
    phases.push(phase_def("metered_execution", "Metered Execution", true));
    phases.push(phase_def("segment", "Segment", true));
    phases.push(phase_def("recursion", "Recursion", true));
    phases.push(phase_def("wrap", "Wrap", false));
    assert(phases.deep_view() =~= phase_preset());
    phases
}

/// Reports whether coordinator log text was produced by the Axiom Edge manager.
pub fn detect_openvm(coordinator_text: &str) -> (detected: bool)
    ensures
        detected == contains_piece(coordinator_text@, "edge_manager"@),
{
    holds(to_chars(coordinator_text).as_slice(), "edge_manager")
}

/// How much of the coordinator log detection reads. The manager banner sits in the first lines, so
/// a bounded prefix identifies the backend without reading the whole multi-gigabyte log.
pub const DETECT_PREFIX_BYTES: u64 = 64 * 1024;

/// The log of one raw job. The manager and the workers both print the proof uuid untruncated, so
/// the raw id is the join key.
pub open spec fn job_log(raw: JobModel, data: DataModel) -> LogModel {
    log_of(
        raw,
        JobWork {
            items: opt_at(Some(data.items), raw.id),
            announcements: opt_at(Some(data.announcements), raw.id),
            writes: opt_at(Some(data.writes), raw.id),
            sends: opt_at(Some(data.sends), raw.id),
        },
    )
}

/// An openvm run parsed from its coordinator log and its worker logs.
pub open spec fn openvm_parsed(
    coordinator: Seq<char>,
    files: Seq<(u32, Seq<char>, Seq<char>)>,
) -> core::result::Result<ParsedModel, Failure> {
    match consumed_all(seq![], lines_of(without_ansi(coordinator))) {
        Err(failure) => Err(failure),
        Ok(jobs) => match files_loaded(no_data(), files) {
            Err(failure) => Err(failure),
            Ok(data) => Ok(
                ParsedModel {
                    name: "openvm"@,
                    phases: phase_preset(),
                    pipeline: kind_template(),
                    pipeline_components: Seq::new(
                        (OWNER_COUNT * STEP_COUNT) as nat,
                        |slot: int| component_at(slot),
                    ),
                    subphases: Seq::new(
                        (OWNER_COUNT * STEP_COUNT) as nat,
                        |slot: int| subphase_at(slot),
                    ),
                    logs: jobs.map_values(|raw: JobModel| job_log(raw, data)),
                },
            ),
        },
    }
}

impl OpenvmParser {
    /// Reports whether the beginning of the coordinator log came from this backend.
    pub fn detect(&self, coordinator_prefix: &str) -> (detected: bool)
        ensures
            detected == contains_piece(coordinator_prefix@, "edge_manager"@),
    {
        detect_openvm(coordinator_prefix)
    }

    /// Parses the cluster logs into the zkVM name, phase preset, and per-job logs.
    pub fn parse(&self, coordinator_text: &str, files: &Vec<WorkerFile>) -> (run: Result<
        ParsedLogs,
    >)
        ensures
            match openvm_parsed(coordinator_text@, files.deep_view()) {
                Ok(expected) => run is Ok && run->Ok_0.deep_view() == expected,
                Err(failure) => run is Err && run->Err_0@ == failure,
            },
    {
        let raw_jobs: Vec<RawJob> = match coordinator::parse(coordinator_text) {
            Ok(jobs) => jobs,
            Err(error) => {
                return Err(error);
            },
        };
        let data: WorkerData = match load(files) {
            Ok(data) => data,
            Err(error) => {
                return Err(error);
            },
        };
        let mut logs: Vec<Log> = Vec::new();
        for i in 0..raw_jobs.len()
            invariant
                logs@.len() == i,
                forall|k: int|
                    0 <= k < i ==> (#[trigger] logs@[k]).deep_view() == job_log(
                        raw_jobs@[k].deep_view(),
                        data@,
                    ),
        {
            let raw: &RawJob = &raw_jobs[i];
            let id: Vec<char> = to_chars(raw.id.as_str());
            let id = id.as_slice();
            logs.push(
                build_log(
                    raw,
                    data.items.get(id),
                    data.announcements.get(id),
                    data.writes.get(id),
                    data.sends.get(id),
                ),
            );
        }
        let run = ParsedLogs {
            name: "openvm",
            phases: openvm_phases(),
            pipeline: openvm_pipeline(),
            pipeline_components: openvm_component_pipeline(),
            subphases: subphase_template(),
            logs,
        };
        proof {
            let expected = openvm_parsed(coordinator_text@, files.deep_view())->Ok_0;
            assert(run.logs.deep_view() =~= expected.logs);
            assert(run.deep_view() =~= expected);
        }
        Ok(run)
    }
}

} // verus!
