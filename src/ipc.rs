//! The messages that the worker process sends to its supervisor.
use vstd::prelude::*;

verus! {

/// Why a worker run stopped.
#[derive(Debug, Clone, PartialEq, Eq)]
pub enum ErrorType {
    /// An I/O operation failed; the text describes it.
    Io(String),
    /// The destination took fewer bytes than it was offered, or ran out of
    /// bytes before the source did.
    EndOfOutput,
    /// A block read back from the destination differs from the source.
    VerificationFailed,
}

/// What the worker knows once both sides are open.
#[derive(Debug, Clone, Copy, PartialEq, Eq)]
pub struct InitialInfo {
    pub input_file_bytes: u64,
}

/// One record of the status channel.
#[derive(Debug, Clone, PartialEq, Eq)]
pub enum StatusMessage {
    /// The source was measured and the destination opened.
    InitSuccess(InitialInfo),
    /// A progress checkpoint: raw source bytes consumed, destination bytes
    /// written or verified.
    TotalBytes { src: u64, dest: u64 },
    /// The write phase is over; `verifying` tells whether a verify phase follows.
    FinishedWriting { verifying: bool },
    /// Terminal: everything that was asked for succeeded.
    Success,
    /// Terminal: the run was aborted.
    Error(ErrorType),
}

impl StatusMessage {
    /// Whether this message ends a run.
    pub open spec fn terminal(self) -> bool {
        self is Success || self is Error
    }

    pub fn is_terminal(&self) -> (r: bool)
        ensures
            r == self.terminal(),
    {
        match self {
            StatusMessage::Success => true,
            StatusMessage::Error(_) => true,
            _ => false,
        }
    }
}

} // verus!
