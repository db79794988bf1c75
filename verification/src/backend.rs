//! The registry of zkVM backends.

use vstd::prelude::*;

use crate::error::{Failure, Result};
use crate::input::WorkerFile;
use crate::openvm::{openvm_parsed, OpenvmParser};
use crate::text::contains_piece;
use crate::zisk::{zisk_parsed, ZiskParser};
use crate::zkvm::{ParsedLogs, ParsedModel};

verus! {

/// A zkVM backend that detects its own runs and parses their cluster logs into the log model.
#[derive(Clone, Copy, PartialEq, Eq, Debug, Structural)]
pub enum Backend {
    Zisk,
    Openvm,
}

/// Whether a text that may be absent holds the given words.
pub open spec fn mentions(text: Option<Seq<char>>, piece: Seq<char>) -> bool {
    text is Some && contains_piece(text->0, piece)
}

/// The text behind a reference that may be absent.
pub open spec fn text_view(text: Option<&str>) -> Option<Seq<char>> {
    match text {
        Some(text) => Some(text@),
        None => None,
    }
}

/// Returns the first registered backend whose detector matches the cluster logs, zisk by the whole
/// coordinator log and openvm by the bounded prefix of it, either absent where it cannot be read.
/// Registering a new zkVM is a single entry here.
pub fn detect_backend(coordinator: Option<&str>, prefix: Option<&str>) -> (backend: Option<Backend>)
    ensures
        backend == if mentions(text_view(coordinator), "zisk-coordinator"@) {
            Some(Backend::Zisk)
        } else if mentions(text_view(prefix), "edge_manager"@) {
            Some(Backend::Openvm)
        } else {
            None
        },
{
    if let Some(text) = coordinator {
        if (ZiskParser).detect(text) {
            return Some(Backend::Zisk);
        }
    }
    if let Some(text) = prefix {
        if (OpenvmParser).detect(text) {
            return Some(Backend::Openvm);
        }
    }
    None
}

/// A run parsed by a backend from its coordinator log and its worker logs.
pub open spec fn backend_parsed(
    backend: Backend,
    coordinator: Seq<char>,
    files: Seq<(u32, Seq<char>, Seq<char>)>,
) -> core::result::Result<ParsedModel, Failure> {
    match backend {
        Backend::Zisk => zisk_parsed(coordinator, files),
        Backend::Openvm => openvm_parsed(coordinator, files),
    }
}

impl Backend {
    /// Parses the cluster logs into the zkVM name, phase preset, and per-job logs.
    pub fn parse(self, coordinator_text: &str, files: &Vec<WorkerFile>) -> (run: Result<ParsedLogs>)
        ensures
            match backend_parsed(self, coordinator_text@, files.deep_view()) {
                Ok(expected) => run is Ok && run->Ok_0.deep_view() == expected,
                Err(failure) => run is Err && run->Err_0@ == failure,
            },
    {
        match self {
            Backend::Zisk => (ZiskParser).parse(coordinator_text, files),
            Backend::Openvm => (OpenvmParser).parse(coordinator_text, files),
        }
    }
}

} // verus!
