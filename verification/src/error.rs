//! The errors that end a parse.

use vstd::prelude::*;

verus! {

/// Fatal errors the parser can return.
#[derive(Debug)]
pub enum ParseError {
    /// A timestamp could not be parsed.
    Timestamp { value: String, reason: String },
    /// A coordinator INFO event line carried a data tag or a new tag but matched no known pattern.
    UnrecognizedCoordinatorLine(String),
    /// A worker log line carried a known work-item anchor phrase but matched no known pattern.
    UnrecognizedWorkerLine(String),
    /// The output path already holds a benchmark and neither overwrite nor patch was requested.
    OutputExists(String),
    /// A patch was requested but the output path holds no benchmark to add the run to.
    PatchTargetMissing(String),
    /// A patch was requested but the named identity field of the run differs from the existing
    /// document, so it belongs to a different benchmark or cluster.
    PatchMismatch(String),
    /// Two blocks in a run shared a name.
    DuplicateBlockName(String),
}

/// Result alias over [`ParseError`].
pub type Result<T> = core::result::Result<T, ParseError>;

/// An error by the texts it carries.
#[verifier::ext_equal]
pub enum Failure {
    Timestamp { value: Seq<char>, reason: Seq<char> },
    UnrecognizedCoordinatorLine(Seq<char>),
    UnrecognizedWorkerLine(Seq<char>),
    OutputExists(Seq<char>),
    PatchTargetMissing(Seq<char>),
    PatchMismatch(Seq<char>),
    DuplicateBlockName(Seq<char>),
}

impl View for ParseError {
    type V = Failure;

    open spec fn view(&self) -> Failure {
        match self {
            ParseError::Timestamp { value, reason } => Failure::Timestamp {
                value: value@,
                reason: reason@,
            },
            ParseError::UnrecognizedCoordinatorLine(line) => Failure::UnrecognizedCoordinatorLine(
                line@,
            ),
            ParseError::UnrecognizedWorkerLine(line) => Failure::UnrecognizedWorkerLine(line@),
            ParseError::OutputExists(path) => Failure::OutputExists(path@),
            ParseError::PatchTargetMissing(path) => Failure::PatchTargetMissing(path@),
            ParseError::PatchMismatch(field) => Failure::PatchMismatch(field@),
            ParseError::DuplicateBlockName(name) => Failure::DuplicateBlockName(name@),
        }
    }
}

} // verus!
