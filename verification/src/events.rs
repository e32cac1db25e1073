//! Events reported by the caller that performs the operating-system calls,
//! and the error kinds the driver records.
//!
//! The driver itself never touches the file system: the surrounding program
//! opens, reads, syncs and closes, and hands the outcome of each call to the
//! driver as one of these events.  The driver's verified logic decides what
//! every outcome means.

use vstd::prelude::*;

verus! {

/// Outcome of an attempt to open the configured path for reading.
pub enum OpenEvent {
    /// The file was opened read-only.
    Opened,
    /// The path does not exist; nothing was opened.
    NotFound,
    /// The operating system refused to open the file, with its message.
    OpenFailed(String),
}

/// Outcome of one physical read of up to `chunk_size` bytes.
pub enum ReadEvent {
    /// The read returned these bytes; an empty buffer means end of file.
    Data(Vec<u8>),
    /// The read returned zero bytes: end of file.
    Eof,
    /// The operating system signalled a retryable interruption; no bytes
    /// were consumed and the read may simply be attempted again.
    Interrupted,
    /// The read failed, with the operating system's message.
    ReadFailed(String),
}

/// Outcome of flushing the handle to stable storage when it is released.
pub enum SyncEvent {
    /// The flush succeeded.
    Synced,
    /// The flush failed, with the operating system's message; the handle is
    /// released all the same.
    SyncFailed(String),
}

/// The kinds of failure the driver records.
#[derive(Clone, Copy, Debug, PartialEq, Eq, Structural)]
pub enum ErrorKind {
    /// The operating system refused to open the path.
    OpenFailed,
    /// The accumulated text was taken while none was held.
    NoContent,
    /// The path does not exist.
    NotFound,
    /// A physical read failed.
    ReadFailed,
    /// The bytes read are not valid text and the failure is not a boundary
    /// split that the carry tail could repair.
    InvalidEncoding,
    /// Flushing the handle to stable storage failed on release.
    SyncFailed,
}

/// The numeric code recorded for an error state; 0 means no error.
pub open spec fn code_of(err: Option<ErrorKind>) -> i8 {
    match err {
        None => 0,
        Some(ErrorKind::NotFound) => 3,
        Some(ErrorKind::NoContent) => 2,
        Some(ErrorKind::OpenFailed) => 1,
        Some(ErrorKind::ReadFailed) => 1,
        Some(ErrorKind::InvalidEncoding) => 1,
        Some(ErrorKind::SyncFailed) => 1,
    }
}

impl ErrorKind {
    /// The numeric code of this error kind.
    pub fn code(&self) -> (r: i8)
        ensures
            r == code_of(Some(*self)),
    {
        match self {
            ErrorKind::NotFound => 3,
            ErrorKind::NoContent => 2,
            ErrorKind::OpenFailed => 1,
            ErrorKind::ReadFailed => 1,
            ErrorKind::InvalidEncoding => 1,
            ErrorKind::SyncFailed => 1,
        }
    }
}

} // verus!
