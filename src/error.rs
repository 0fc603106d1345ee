use vstd::prelude::*;

verus! {

/// Every failure that the vault operations report.
#[derive(Debug, Clone, PartialEq, Eq)]
pub enum KaguyaError {
    /// A filesystem access failed.
    Io(String),
    /// The declarative config could not be parsed.
    TomlParseError(String),
    /// The declarative config could not be serialized.
    TomlSerializeError(String),
    /// A path is not part of a game's configured set, or is missing on disk.
    PathNotFound(String),
    /// A path has no final component (for example the root directory).
    FileNameError(String),
    /// The relational index reported a failure.
    Database(String),
    /// No game with this external id exists.
    GameNotFound(String),
    /// No archive matches the requested version and path.
    BackupNotFound(String),
    /// The game has no paths configured.
    NoPathsConfigured(String),
    /// An input had a shape that the operation cannot handle.
    InvalidInput(String),
}

} // verus!
