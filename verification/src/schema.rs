//! The benchmark document.
//!
//! The benchmark holds the cluster identity once and a list of runs, each carrying its own
//! statistics, blocks, and telemetry, so repeated runs accumulate in one document. Time is integer
//! milliseconds offset from the run epoch, and telemetry is columnar on an implicit one-second
//! axis. The statistics and telemetry of a run are of the types that the holder of the document
//! gives them.

use vstd::prelude::*;

verus! {

/// The complete benchmark document. `id` is the identity shared by every run, derived from the run
/// directory basename, while `name` and `description` are the human-facing identity. `runs` holds
/// one entry per execution. Hardware and software are held once because a patch only appends a run
/// when they, and the name, match the existing document.
pub struct Benchmark<S, T> {
    pub schema_version: u32,
    pub hardware: Hardware,
    pub software: Software,
    pub id: String,
    pub name: String,
    pub description: String,
    pub runs: Vec<Run<S, T>>,
}

/// Node hardware assumed identical across the cluster, with the node ids in order.
pub struct Hardware {
    pub cpu_model: Option<String>,
    pub ram_gib: Option<u64>,
    pub gpu_models: Vec<String>,
    pub nodes: Vec<String>,
}

/// Node hardware by the values it holds.
#[verifier::ext_equal]
pub struct HardwareModel {
    pub cpu_model: Option<Seq<char>>,
    pub ram_gib: Option<u64>,
    pub gpu_models: Seq<Seq<char>>,
    pub nodes: Seq<Seq<char>>,
}

impl DeepView for Hardware {
    type V = HardwareModel;

    open spec fn deep_view(&self) -> HardwareModel {
        HardwareModel {
            cpu_model: self.cpu_model.deep_view(),
            ram_gib: self.ram_gib,
            gpu_models: self.gpu_models.deep_view(),
            nodes: self.nodes.deep_view(),
        }
    }
}

/// The proving software identity, the zkVM and the guest program.
pub struct Software {
    pub zkvm: Zkvm,
    pub guest: Guest,
}

/// The zkVM that produced the proofs, carrying its ordered phase preset.
pub struct Zkvm {
    pub name: String,
    pub version: String,
    pub phases: Vec<Phase>,
    /// The ordered fine-pipeline item kinds, referenced positionally by each block node's pipeline
    /// rows. Empty when the backend declares none.
    pub pipeline: Vec<PipelineStep>,
    /// The ordered sub-steps, referenced positionally by each block's sub-phase rows. Empty when no
    /// block carries any.
    pub subphases: Vec<SubPhase>,
}

/// The zkVM by the values it holds.
#[verifier::ext_equal]
pub struct ZkvmModel {
    pub name: Seq<char>,
    pub version: Seq<char>,
    pub phases: Seq<(Seq<char>, Seq<char>, bool)>,
    pub pipeline: Seq<(Seq<char>, Seq<char>, Seq<char>, bool)>,
    pub subphases: Seq<(Seq<char>, Seq<char>, Seq<char>)>,
}

impl DeepView for Zkvm {
    type V = ZkvmModel;

    open spec fn deep_view(&self) -> ZkvmModel {
        ZkvmModel {
            name: self.name@,
            version: self.version@,
            phases: self.phases.deep_view(),
            pipeline: self.pipeline.deep_view(),
            subphases: self.subphases.deep_view(),
        }
    }
}

/// The guest program that was proven.
pub struct Guest {
    pub name: String,
    pub version: String,
}

impl DeepView for Guest {
    type V = (Seq<char>, Seq<char>);

    open spec fn deep_view(&self) -> (Seq<char>, Seq<char>) {
        (self.name@, self.version@)
    }
}

/// One phase of the proving pipeline, rendered in array order and colored by position.
pub struct Phase {
    pub name: String,
    pub label: String,
    /// An overlap phase runs concurrently with its neighbors.
    pub overlap: bool,
}

impl DeepView for Phase {
    type V = (Seq<char>, Seq<char>, bool);

    open spec fn deep_view(&self) -> (Seq<char>, Seq<char>, bool) {
        (self.name@, self.label@, self.overlap)
    }
}

/// One fine-pipeline item kind. A paired kind may carry a witness segment and a compute segment in
/// one row, while an unpaired kind is a single segment.
pub struct PipelineStep {
    pub name: String,
    pub label: String,
    /// The owning phase name from the zkVM phase preset, the row's color source.
    pub phase: String,
    pub paired: bool,
}

impl DeepView for PipelineStep {
    type V = (Seq<char>, Seq<char>, Seq<char>, bool);

    open spec fn deep_view(&self) -> (Seq<char>, Seq<char>, Seq<char>, bool) {
        (self.name@, self.label@, self.phase@, self.paired)
    }
}

/// One sub-step of a phase.
pub struct SubPhase {
    pub name: String,
    pub label: String,
    pub phase: String,
}

impl DeepView for SubPhase {
    type V = (Seq<char>, Seq<char>, Seq<char>);

    open spec fn deep_view(&self) -> (Seq<char>, Seq<char>, Seq<char>) {
        (self.name@, self.label@, self.phase@)
    }
}

/// One execution of the benchmark with its own statistics, blocks, and telemetry. The block,
/// success, and failure counts let the consumer skip recomputation.
pub struct Run<S, T> {
    pub id: String,
    /// First job start as unix epoch milliseconds.
    pub started_at: i64,
    pub block_count: usize,
    pub success_count: usize,
    pub failure_count: usize,
    pub statistics: S,
    pub blocks: Vec<Block>,
    pub telemetry: T,
}

/// A run by the values it holds besides its statistics and telemetry.
#[verifier::ext_equal]
pub struct RunModel {
    pub id: Seq<char>,
    pub started_at: i64,
    pub block_count: int,
    pub success_count: int,
    pub failure_count: int,
    pub blocks: Seq<BlockModel>,
}

impl<S, T> DeepView for Run<S, T> {
    type V = RunModel;

    open spec fn deep_view(&self) -> RunModel {
        RunModel {
            id: self.id@,
            started_at: self.started_at,
            block_count: self.block_count as int,
            success_count: self.success_count as int,
            failure_count: self.failure_count as int,
            blocks: self.blocks.deep_view(),
        }
    }
}

/// A document by the values it holds besides the statistics and telemetry of its runs.
#[verifier::ext_equal]
pub struct BenchmarkModel {
    pub schema_version: u32,
    pub hardware: HardwareModel,
    pub zkvm: ZkvmModel,
    pub guest: (Seq<char>, Seq<char>),
    pub id: Seq<char>,
    pub name: Seq<char>,
    pub description: Seq<char>,
    pub runs: Seq<RunModel>,
}

impl<S, T> DeepView for Benchmark<S, T> {
    type V = BenchmarkModel;

    open spec fn deep_view(&self) -> BenchmarkModel {
        BenchmarkModel {
            schema_version: self.schema_version,
            hardware: self.hardware.deep_view(),
            zkvm: self.software.zkvm.deep_view(),
            guest: self.software.guest.deep_view(),
            id: self.id@,
            name: self.name@,
            description: self.description@,
            runs: self.runs.deep_view(),
        }
    }
}

/// A phase window relative to its block start, expressed as offset and duration.
#[derive(Clone, Copy, PartialEq, Eq, Debug, Structural)]
pub struct PhaseWindow {
    pub start_ms: i64,
    pub dur_ms: i64,
}

/// The trailing object of a pipeline row, holding the fields that are present.
#[derive(Clone, Copy, PartialEq, Eq, Debug, Structural)]
pub struct RowMeta {
    pub id: Option<i64>,
    pub cpu_heavy: Option<usize>,
    pub gpu_heavy: Option<usize>,
    pub group: Option<u64>,
}

/// One pipeline row, its integers and the object that may trail them.
#[derive(PartialEq, Eq, Debug)]
pub struct Row {
    pub cells: Vec<i64>,
    pub meta: Option<RowMeta>,
}

impl DeepView for Row {
    type V = (Seq<i64>, Option<RowMeta>);

    open spec fn deep_view(&self) -> (Seq<i64>, Option<RowMeta>) {
        (self.cells@, self.meta)
    }
}

/// One node's contribution to a block, positioned to match hardware.nodes. Phase windows align to
/// the preset order, and the final aggregate window is present only on the aggregator, which is
/// how it is identified. On a crashed block `crashed_ms` is the block-start offset at which this
/// node was blamed, with later phases absent, and it is absent on every node of a clean block.
pub struct BlockNode {
    pub phases: Vec<Option<PhaseWindow>>,
    /// Fine pipeline items of this node as variable-arity rows [kind, s, d, s2, d2] with trailing
    /// fields absent, times in milliseconds from the block start. Arity 3 is one complete segment,
    /// arity 5 a witness and compute pair, and arities 2 and 4 leave the last segment dangling where
    /// a crash cut it off. A paired kind whose witness completed with no compute left to claim it,
    /// because none opened before a crash or its compute closed before the witness did, also has
    /// arity 3, indistinguishable from a compute-only row. An item with metadata carries it in the
    /// trailing object of the optional keys id, the item number within its kind, and cpu_heavy and
    /// gpu_heavy, the segment index of each side of a pair. Rows sort by start then kind.
    pub pipeline: Vec<Row>,
    pub crashed_ms: Option<i64>,
    /// How this node ended on a crashed block, "crashed" for the lost node or "cancelled" for a
    /// sibling-stopped one. Absent when the node has no crash marker.
    pub crash_kind: Option<String>,
    /// Whether this node took part in the block. False marks a node the proof ran without, so its
    /// figures are not comparable to a full-cluster run.
    pub participated: bool,
}

/// A node's contribution to a block by the values it holds.
#[verifier::ext_equal]
pub struct BlockNodeModel {
    pub phases: Seq<Option<PhaseWindow>>,
    pub pipeline: Seq<(Seq<i64>, Option<RowMeta>)>,
    pub crashed_ms: Option<i64>,
    pub crash_kind: Option<Seq<char>>,
    pub participated: bool,
}

impl DeepView for BlockNode {
    type V = BlockNodeModel;

    open spec fn deep_view(&self) -> BlockNodeModel {
        BlockNodeModel {
            phases: self.phases@,
            pipeline: self.pipeline.deep_view(),
            crashed_ms: self.crashed_ms,
            crash_kind: self.crash_kind.deep_view(),
            participated: self.participated,
        }
    }
}

/// A single proven block, emitted in completion order. `name` is its metric file name, unique
/// within the run and the identifier the views key on.
pub struct Block {
    pub name: String,
    pub status: String,
    /// Block start offset from the run epoch in milliseconds.
    pub start_ms: i64,
    pub gas_used: Option<u64>,
    /// Authoritative wall-clock proving time from the metric file, absent unless the proof
    /// succeeded.
    pub proving_ms: Option<i64>,
    pub proof_size: Option<u64>,
    pub verification_time_ms: Option<u64>,
    /// zkVM-specific per-block scalars by field name, such as input_size and steps for zisk.
    pub meta: Vec<(String, u64)>,
    pub nodes: Vec<BlockNode>,
    /// The milliseconds of each sub-phase template slot, summed over the block's items, in slot
    /// order.
    pub subphases: Vec<(u64, u64)>,
    /// The coordinator and worker log lines within this block's proving window, in time order,
    /// every level including DEBUG and TRACE. Written to a sibling per-block log file rather than
    /// to the document.
    pub logs: Vec<LogEntry>,
}

/// A block by the values it holds.
#[verifier::ext_equal]
pub struct BlockModel {
    pub name: Seq<char>,
    pub status: Seq<char>,
    pub start_ms: i64,
    pub gas_used: Option<u64>,
    pub proving_ms: Option<i64>,
    pub proof_size: Option<u64>,
    pub verification_time_ms: Option<u64>,
    pub meta: Seq<(Seq<char>, u64)>,
    pub nodes: Seq<BlockNodeModel>,
    pub subphases: Seq<(u64, u64)>,
    pub logs: Seq<EntryModel>,
}

impl DeepView for Block {
    type V = BlockModel;

    open spec fn deep_view(&self) -> BlockModel {
        BlockModel {
            name: self.name@,
            status: self.status@,
            start_ms: self.start_ms,
            gas_used: self.gas_used,
            proving_ms: self.proving_ms,
            proof_size: self.proof_size,
            verification_time_ms: self.verification_time_ms,
            meta: self.meta.deep_view(),
            nodes: self.nodes.deep_view(),
            subphases: self.subphases@,
            logs: self.logs.deep_view(),
        }
    }
}

/// One cluster-log line attached to a block, the role that emitted it, its offset from the block
/// start in microseconds, its lowercase level, and the message body. The microsecond precision
/// keeps lines that share a millisecond in order, while the frontend renders the offset down to
/// milliseconds. Written to the per-block log file, not to the document.
pub struct LogEntry {
    pub role: String,
    pub time: i64,
    pub level: String,
    pub msg: String,
}

/// A log line of a block by the values it holds.
#[verifier::ext_equal]
pub struct EntryModel {
    pub role: Seq<char>,
    pub time: i64,
    pub level: Seq<char>,
    pub msg: Seq<char>,
}

impl DeepView for LogEntry {
    type V = EntryModel;

    open spec fn deep_view(&self) -> EntryModel {
        EntryModel { role: self.role@, time: self.time, level: self.level@, msg: self.msg@ }
    }
}

} // verus!
