//! Workspace dependency consolidation: each project of a multi-project
//! workspace declares the packages it needs, the workspace declares the ones
//! every project needs, and a package is only uninstalled once nothing in the
//! workspace refers to it any more.
use vstd::prelude::*;

pub mod order;
pub mod dependencies;
pub mod workspace;
pub mod managers;
pub mod cli;
pub mod install_isolated;
pub mod graph;
pub mod laws;

verus! {

/// What can go wrong in an operation of this library.
#[derive(Debug, Clone, Copy, PartialEq, Eq, Structural)]
pub enum LibraryError {
    /// A descriptor file, a project or a dependency to remove is absent.
    NotFound,
    /// A descriptor, a manifest or a graph does not have the expected shape.
    Malformed,
    /// No lock file of a known package manager is present.
    NoPackageManagerDetected,
    /// A declared dependency has no version in the manifest.
    ManifestInconsistency,
    /// The manifest backup file is already there.
    BackupCollision,
    /// The package manager exited with a failure.
    ChildProcessFailure,
}

} // verus!
