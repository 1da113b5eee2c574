//! What preparation, realization and the autotuning workers can fail with.

use vstd::prelude::*;
use vstd::string::*;

use crate::text::{dec, dec_list, dec_list_string, dec_option, dec_option_string, dec_string, nats};

verus! {

/// A failure of preparing or realizing tensors.
#[derive(Debug, PartialEq, Eq)]
pub enum Error {
    /// Scheduling found nothing to run.
    NoKernelsFound,
    /// A batch holds no tensor that needs work.
    EmptySchedule,
    /// A plan exposes another number of outputs than the batch has pending
    /// tensors.
    BatchOutputMismatch { expected: usize, actual: usize },
    /// The graph or the metadata of a kernel is inconsistent.
    IrConstruction { details: String },
    /// A schedule refers to a buffer that the plan does not hold.
    BufferNotFound { uop_id: u64 },
    /// A tensor's shape is not known at realization.
    ShapeUnknown,
    /// A buffer of `elements` elements cannot take on `shape`.
    ReshapeMismatch { elements: usize, shape: Vec<usize> },
    /// A compiler, device or execution stage failed.
    Stage { stage: String, message: String },
}

impl Error {
    /// The text of this error.
    pub open spec fn message(&self) -> Seq<char> {
        match self {
            Error::NoKernelsFound => "no kernels found"@,
            Error::EmptySchedule => "empty schedule"@,
            Error::BatchOutputMismatch { expected, actual } => "batch output mismatch: expected "@
                + dec(*expected as nat) + ", got "@ + dec(*actual as nat),
            Error::IrConstruction { details } => "IR construction failed: "@ + details@,
            Error::BufferNotFound { uop_id } => "buffer not found for uop "@ + dec(*uop_id as nat),
            Error::ShapeUnknown => "shape unknown"@,
            Error::ReshapeMismatch { elements, shape } => "cannot reshape "@ + dec(*elements as nat)
                + " elements to "@ + dec_list(nats(shape@)),
            Error::Stage { stage, message } => stage@ + " failed: "@ + message@,
        }
    }

    /// Renders this error.
    pub fn to_string(&self) -> (s: String)
        ensures
            s@ == self.message(),
    {
        match self {
            Error::NoKernelsFound => "no kernels found".to_owned(),
            Error::EmptySchedule => "empty schedule".to_owned(),
            Error::BatchOutputMismatch { expected, actual } => {
                let mut s = "batch output mismatch: expected ".to_owned();
                s.append(dec_string(*expected as u64).as_str());
                s.append(", got ");
                s.append(dec_string(*actual as u64).as_str());
                s
            }
            Error::IrConstruction { details } => {
                let mut s = "IR construction failed: ".to_owned();
                s.append(details.as_str());
                s
            }
            Error::BufferNotFound { uop_id } => {
                let mut s = "buffer not found for uop ".to_owned();
                s.append(dec_string(*uop_id).as_str());
                s
            }
            Error::ShapeUnknown => "shape unknown".to_owned(),
            Error::ReshapeMismatch { elements, shape } => {
                let mut s = "cannot reshape ".to_owned();
                s.append(dec_string(*elements as u64).as_str());
                s.append(" elements to ");
                s.append(dec_list_string(shape.as_slice()).as_str());
                s
            }
            Error::Stage { stage, message } => {
                let mut s = stage.clone();
                s.append(" failed: ");
                s.append(message.as_str());
                s
            }
        }
    }
}

/// A failure of the helper processes that compile autotuning candidates.
#[derive(Debug, PartialEq, Eq)]
pub enum BeamWorker {
    /// No usable helper could be found, started or initialized.
    HelperUnavailable { reason: String },
    /// Parent and helper speak different protocol versions.
    ProtocolMismatch { expected: u32, actual: u32 },
    /// A helper answered for another candidate than the one it was given.
    WorkerMisorder { got: usize, expected: Option<usize> },
    /// Compiling a candidate failed at `stage`.
    CompileStage { stage: &'static str, reason: String },
    /// Reading or writing a frame failed.
    Frame { what: &'static str, source: String },
    /// The helper process could not be started.
    SpawnHelper { path: String, source: String },
}

impl BeamWorker {
    /// The text of this error.
    pub open spec fn message(&self) -> Seq<char> {
        match self {
            BeamWorker::HelperUnavailable { reason } => "BEAM helper unavailable: "@ + reason@,
            BeamWorker::ProtocolMismatch { expected, actual } => "BEAM worker protocol mismatch: expected "@
                + dec(*expected as nat) + ", got "@ + dec(*actual as nat),
            BeamWorker::WorkerMisorder { got, expected } => "BEAM worker returned candidate "@
                + dec(*got as nat) + ", expected "@ + dec_option(*expected),
            BeamWorker::CompileStage { stage, reason } => "BEAM candidate failed at "@ + stage@ + ": "@
                + reason@,
            BeamWorker::Frame { what, source } => "failed to "@ + what@ + ": "@ + source@,
            BeamWorker::SpawnHelper { path, source } => "failed to start BEAM helper "@ + path@ + ": "@
                + source@,
        }
    }

    /// Renders this error.
    pub fn to_string(&self) -> (s: String)
        ensures
            s@ == self.message(),
    {
        match self {
            BeamWorker::HelperUnavailable { reason } => {
                let mut s = "BEAM helper unavailable: ".to_owned();
                s.append(reason.as_str());
                s
            }
            BeamWorker::ProtocolMismatch { expected, actual } => {
                let mut s = "BEAM worker protocol mismatch: expected ".to_owned();
                s.append(dec_string(*expected as u64).as_str());
                s.append(", got ");
                s.append(dec_string(*actual as u64).as_str());
                s
            }
            BeamWorker::WorkerMisorder { got, expected } => {
                let mut s = "BEAM worker returned candidate ".to_owned();
                s.append(dec_string(*got as u64).as_str());
                s.append(", expected ");
                s.append(dec_option_string(*expected).as_str());
                s
            }
            BeamWorker::CompileStage { stage, reason } => {
                let mut s = "BEAM candidate failed at ".to_owned();
                s.append(stage);
                s.append(": ");
                s.append(reason.as_str());
                s
            }
            BeamWorker::Frame { what, source } => {
                let mut s = "failed to ".to_owned();
                s.append(what);
                s.append(": ");
                s.append(source.as_str());
                s
            }
            BeamWorker::SpawnHelper { path, source } => {
                let mut s = "failed to start BEAM helper ".to_owned();
                s.append(path.as_str());
                s.append(": ");
                s.append(source.as_str());
                s
            }
        }
    }

    /// The failure of compile stage `stage` for `reason`.
    pub fn at(stage: &'static str, reason: String) -> (error: BeamWorker)
        ensures
            error == (BeamWorker::CompileStage { stage, reason }),
    {
        BeamWorker::CompileStage { stage, reason }
    }
}

} // verus!
