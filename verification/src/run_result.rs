//! The outcome of a command-line run.
use vstd::prelude::*;

verus! {

/// How a run of the command-line tool ended.
#[derive(Debug, Clone, Copy, PartialEq, Eq, Structural)]
pub enum RunResult {
    Succeeded,
    CompilationFailed,
    UsageError,
    IoError,
    BackendError,
}

impl RunResult {
    /// The process exit code: 0 on success, then 1 to 4 for compilation, usage, I/O and
    /// backend failures.
    pub fn exit_code(&self) -> (r: u8)
        ensures
            r == match *self {
                RunResult::Succeeded => 0u8,
                RunResult::CompilationFailed => 1u8,
                RunResult::UsageError => 2u8,
                RunResult::IoError => 3u8,
                RunResult::BackendError => 4u8,
            },
    {
        match self {
            RunResult::Succeeded => 0,
            RunResult::CompilationFailed => 1,
            RunResult::UsageError => 2,
            RunResult::IoError => 3,
            RunResult::BackendError => 4,
        }
    }
}

/// Only a successful run exits with code 0, and each outcome has its own code.
pub proof fn lemma_exit_codes_distinct(a: RunResult, b: RunResult)
    ensures
        (match a {
            RunResult::Succeeded => 0u8,
            RunResult::CompilationFailed => 1u8,
            RunResult::UsageError => 2u8,
            RunResult::IoError => 3u8,
            RunResult::BackendError => 4u8,
        }) == (match b {
            RunResult::Succeeded => 0u8,
            RunResult::CompilationFailed => 1u8,
            RunResult::UsageError => 2u8,
            RunResult::IoError => 3u8,
            RunResult::BackendError => 4u8,
        }) <==> a == b,
{
}

} // verus!
