use vstd::prelude::*;

verus! {

/// Why a byte stream failed to decode into a settings document.
#[derive(Clone, Copy, Debug, PartialEq, Eq, Structural)]
pub enum DecodeError {
    /// The text is not a well-formed sequence of lines of the format.
    Malformed,
    /// The text is well-formed, but required fields are absent, appear in an
    /// unexpected shape, or carry values out of range (a memory size that does
    /// not fit 16 bits, a log level outside 1..=5).
    SchemaMismatch,
}

/// Why a command-line override could not be merged into a document.
#[derive(Clone, Copy, Debug, PartialEq, Eq, Structural)]
pub enum MergeError {
    /// The override needs a section that the document does not carry.
    MissingPrerequisite,
}

/// A failure of loading or storing a settings document, carrying the
/// offending path for diagnostics.
#[derive(Clone, Debug)]
pub enum ConfigError {
    /// Opening, reading or writing the file failed.
    IoError { path: String },
    /// The file was read but its content did not decode.
    DecodeError { path: String, cause: DecodeError },
}

/// The file watcher could not attach to the path it was asked to observe.
#[derive(Clone, Debug)]
pub struct WatchSetupError {
    /// The path the watcher failed to attach to.
    pub path: String,
}

} // verus!
