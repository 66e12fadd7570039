//! Identities and contents of the files the preprocessor reads.

use vstd::prelude::*;

verus! {

/// What makes two paths the same file (device and inode where the platform
/// has them).
#[derive(Clone, Debug, PartialEq, Eq, Hash)]
pub struct FileIdentity(pub String);

/// A file as read for inclusion.
#[derive(Clone, Debug)]
pub struct LoadedFile {
    pub path: String,
    pub source: String,
    pub identity: FileIdentity,
}

/// Why a candidate could not be read: it is not there, or reading it failed.
#[derive(Clone, Debug)]
pub enum ReadError {
    NotFound,
    Failed(String),
}

/// Supplies include candidates; the search order stays with the
/// preprocessor. `read` reports why a candidate could not be read.
pub trait FileProvider {
    fn read(&self, path: &str) -> Result<LoadedFile, ReadError>;

    /// Whether `path` can be read.
    fn can_read(&self, path: &str) -> bool {
        self.read(path).is_ok()
    }
}

} // verus!
