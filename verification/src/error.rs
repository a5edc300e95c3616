use vstd::prelude::*;

verus! {

/// The error kinds the registry, persistence, inspector, configuration
/// and selection stages can report.
#[derive(Clone, Copy, Debug, PartialEq, Eq, Structural)]
pub enum SpmError {
    DuplicateName,
    DuplicatePath,
    NotFound,
    StorageCorrupt,
    IoError,
    RepositoryError,
    NoProjectsAvailable,
    SelectionCancelled,
    UnknownConfigKey,
    InvalidConfigValue,
}

} // verus!
