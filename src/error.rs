//! The failures that provisioning can end in.
use vstd::prelude::*;

verus! {

/// Why a provisioning step failed. The first failure ends the run.
#[derive(Debug)]
pub enum StorageError {
    /// A device attribute could not be read or held something other than expected.
    Enumeration,
    /// The partitions of the target device could not be determined, or were
    /// not the ones the layout asks for.
    Resolution,
    /// A kernel module that the chosen filesystem needs is not available.
    Dependency,
    /// An external tool failed to start or exited unsuccessfully.
    Command { command: Vec<String>, target: String },
    /// The system is not booted in EFI mode.
    Precondition,
    /// An empty command line was handed to the executor.
    MissingCommand,
    /// The filesystem name does not name a supported root filesystem.
    UnknownFilesystem,
}

} // verus!
