//! Why a scan can fail.

use vstd::prelude::*;

verus! {

/// Error returned when a scan operation fails.
#[derive(Debug)]
pub enum ScanError {
    /// The scan was aborted after the timeout period.
    Timeout,
    /// Could not open the scanned file.
    OpenError {
        /// Path of the file being scanned.
        path: String,
        /// What went wrong.
        err: String,
    },
    /// Could not map the scanned file into memory.
    MapError {
        /// Path of the file being scanned.
        path: String,
        /// What went wrong.
        err: String,
    },
    /// Could not decode the output supplied for a module.
    ProtoError {
        /// Module name.
        module: String,
        /// What went wrong.
        err: String,
    },
    /// Output was supplied for a module that the rule set does not import.
    UnknownModule {
        /// Module name.
        module: String,
    },
    /// A module failed to produce its output.
    ModuleError {
        /// Module name.
        module: String,
        /// What went wrong.
        err: String,
    },
    /// The evaluator failed in a way it should not.
    Internal(String),
}

/// How a run of the evaluator ended.
#[derive(Debug)]
pub enum EvaluatorExit {
    /// The evaluator's main function returned this value. Zero means
    /// success; the evaluator returns nothing else.
    Returned(i32),
    /// The evaluator was stopped, for the reason given.
    Failed(ScanError),
}

} // verus!
