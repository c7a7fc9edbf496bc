//! Filesystem clone management: the interface for snapshot-based sandbox
//! cloning (ZFS, Btrfs, APFS) that creates isolated working environments
//! without `jj workspace` corruption.
use vstd::prelude::*;

use std::path::{Path, PathBuf};

verus! {

/// `std::path::PathBuf`, an owned filesystem path, carried as it is.
#[verifier::external_type_specification]
#[verifier::external_body]
pub struct ExPathBuf(std::path::PathBuf);

/// `std::path::Path`, a borrowed filesystem path, carried as it is.
#[verifier::external_type_specification]
#[verifier::external_body]
pub struct ExPath(std::path::Path);

/// `std::io::Error`, the error of an I/O operation, carried as it is.
#[verifier::external_type_specification]
#[verifier::external_body]
pub struct ExIoError(std::io::Error);

/// Creates and destroys fast snapshot clones of a working directory.
pub trait CloneManager {
    /// Creates a fast snapshot-based clone of the given source directory.
    /// This maps to a filesystem-level operation like:
    /// - `btrfs subvolume snapshot <src> <dest>`
    /// - `zfs snapshot <pool/dataset>@<snap>` followed by `zfs clone <pool/dataset>@<snap> <pool/sandbox>`
    /// - `cp --reflink=always -R <src> <dest>` (on supported filesystems)
    fn create_snapshot_clone(&self, source: &Path, destination: &Path) -> Result<
        SandboxEnvironment,
        CloneError,
    >;

    /// Cleans up and destroys the physical sandbox snapshot to free resources.
    fn destroy_sandbox(&self, env: &SandboxEnvironment) -> Result<(), CloneError>;
}

/// A sandbox created by a clone manager.
pub struct SandboxEnvironment {
    pub path: PathBuf,
    pub snapshot_id: String,
}

/// Why a clone operation failed.
#[derive(Debug)]
pub enum CloneError {
    FilesystemNotSupported,
    InsufficientPermissions,
    IoError(std::io::Error),
}

/// Clone manager for Btrfs subvolumes. Snapshot cloning is not available
/// at this layer yet: every operation reports `FilesystemNotSupported`.
pub struct BtrfsCloneManager;

impl CloneManager for BtrfsCloneManager {
    fn create_snapshot_clone(&self, _source: &Path, _destination: &Path) -> (r: Result<
        SandboxEnvironment,
        CloneError,
    >)
        ensures
            r matches Err(CloneError::FilesystemNotSupported),
    {
        Err(CloneError::FilesystemNotSupported)
    }

    fn destroy_sandbox(&self, _env: &SandboxEnvironment) -> (r: Result<(), CloneError>)
        ensures
            r matches Err(CloneError::FilesystemNotSupported),
    {
        Err(CloneError::FilesystemNotSupported)
    }
}

} // verus!
