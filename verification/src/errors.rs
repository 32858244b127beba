use vstd::prelude::*;

verus! {

/// The error kinds this library reports.
///
/// `ConfigError` covers malformed declared configuration (an unknown node
/// kind, a missing required field); `NoHomeDirectory` is returned when a
/// home-relative path must be resolved but no home directory is known;
/// `IoError` and `NonUtf8Path` are reserved for callers that perform
/// filesystem work and hand failures back through this type.
#[derive(Debug, Clone)]
pub enum DotyError {
    ConfigError(String),
    NoHomeDirectory,
    IoError(String),
    NonUtf8Path,
}

} // verus!
