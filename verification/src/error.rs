use vstd::prelude::*;

verus! {

/// Why a copy job, or one of its workers, failed.
#[derive(Clone, Copy, Debug, PartialEq, Eq, Structural)]
pub enum CopyError {
    /// The source file does not exist.
    InputNotFound,
    /// The destination file could not be created.
    OutputCreateFailed,
    /// A positional read returned zero bytes before the worker reached the end
    /// of its range: the source shrank or changed under the copy.
    ShortRead,
    /// A read or write call failed.
    IOError,
    /// Post-copy verification found differing bytes; `offset` is the starting
    /// byte offset of the first mismatching chunk.
    ContentMismatch { offset: u64 },
    /// Reading the clock for the throughput summary failed; the copy itself
    /// is unaffected.
    ClockError,
}

/// Result of streaming source and destination after the copy.
#[derive(Clone, Copy, Debug, PartialEq, Eq, Structural)]
pub enum VerificationOutcome {
    /// Every compared chunk matched.
    Identical,
    /// The files differ; `offset` is the starting byte offset of the first
    /// mismatching chunk.
    Mismatch { offset: u64 },
}

impl VerificationOutcome {
    /// The job-level error corresponding to this outcome, if it is a failure.
    pub fn to_error(self) -> (r: Option<CopyError>)
        ensures
            self is Identical ==> r is None,
            forall|off: u64| self == (VerificationOutcome::Mismatch { offset: off })
                ==> r == Some(CopyError::ContentMismatch { offset: off }),
    {
        match self {
            VerificationOutcome::Identical => None,
            VerificationOutcome::Mismatch { offset } => {
                Some(CopyError::ContentMismatch { offset })
            },
        }
    }
}

} // verus!
