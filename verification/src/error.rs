use vstd::prelude::*;

verus! {

/// What can go wrong in the pipeline.
#[derive(Clone, Copy, Debug, PartialEq, Eq, Structural)]
pub enum Error {
    /// A video, a file or a playlist entry that was asked for does not exist.
    NotFound,
    /// The archive could not be reached, or its answer could not be decoded.
    UpstreamIO,
    /// A query or a transaction against the store failed.
    StorageIO,
    /// Writing or renaming a file failed.
    FilesystemIO,
    /// An illegal status transition, or a status text that names no status.
    InvalidState,
}

impl Error {
    /// A short description, suitable for a log line.
    pub fn message(&self) -> (text: &'static str)
        ensures
            text@ == match *self {
                Error::NotFound => "not found"@,
                Error::UpstreamIO => "upstream request failed"@,
                Error::StorageIO => "storage operation failed"@,
                Error::FilesystemIO => "filesystem operation failed"@,
                Error::InvalidState => "invalid state"@,
            },
    {
        match self {
            Error::NotFound => "not found",
            Error::UpstreamIO => "upstream request failed",
            Error::StorageIO => "storage operation failed",
            Error::FilesystemIO => "filesystem operation failed",
            Error::InvalidState => "invalid state",
        }
    }
}

} // verus!
