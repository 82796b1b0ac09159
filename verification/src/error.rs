//! Errors of the library.

use vstd::prelude::*;
use vstd::std_specs::convert::FromSpecImpl;

verus! {

/// What can be wrong with the stored binary format.
#[derive(Clone, Copy, Debug, PartialEq, Eq, Structural)]
pub enum DbFormatError {
    /// The format version tag is not the supported one.
    Unsupported,
    /// A record announces more data than the value holds, or bytes are left over.
    ReplyMissingData,
    /// A key of the wrong length, or a timeout record with a payload length.
    ReplyInvalidData,
}

/// Errors that end a run.
#[derive(Clone, Debug, PartialEq, Eq)]
pub enum Error {
    /// The stored data does not follow the binary format.
    DbFormatError(DbFormatError),
    /// The current time could not be had as seconds since the epoch.
    Time,
    /// Text that must be ASCII holds something else.
    NonAscii,
    /// The name of a transport protocol that is not known.
    UnknownTransportProtocol(String),
    /// The name of a comparison criterion that is not known.
    UnknownDiffCriteria(String),
    /// The name of a field weight that is not known.
    UnknownFieldWeight(String),
    /// The target is not one of the servers.
    InvalidServerName,
    /// The functionality is not there yet.
    NotImplemented,
}

impl From<DbFormatError> for Error {
    fn from(error: DbFormatError) -> (r: Error) {
        Error::DbFormatError(error)
    }
}

impl FromSpecImpl<DbFormatError> for Error {
    open spec fn obeys_from_spec() -> bool {
        true
    }

    open spec fn from_spec(error: DbFormatError) -> Error {
        Error::DbFormatError(error)
    }
}

} // verus!
