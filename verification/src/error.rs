//! The error type for server operations, and the rule that turns a
//! failed connection into a best-effort response status.
use vstd::prelude::*;

use crate::http::Status;

verus! {

/// The kind of a transport or filesystem failure.  A timeout is the
/// one kind the server answers differently.
#[derive(Clone, Copy, PartialEq, Eq, Structural, Debug)]
pub enum IoErrorKind {
    TimedOut,
    Other,
}

/// The error type which is returned from server operations.
#[derive(Clone, Copy, PartialEq, Eq, Structural, Debug)]
pub enum SfsError {
    /// The supplied path is not a valid directory.
    InvalidDirectory,
    /// An IO error occurred during a server operation.
    IoError(IoErrorKind),
}

/// The status a failed connection is answered with: a timeout maps to
/// RequestTimeout, every other failure to InternalServerError.
pub open spec fn spec_status_for_error(err: SfsError) -> Status {
    match err {
        SfsError::IoError(IoErrorKind::TimedOut) => Status::RequestTimeout,
        _ => Status::InternalServerError,
    }
}

/// Pick the best-effort status for a failure caught at the connection
/// boundary.
pub fn status_for_error(err: &SfsError) -> (s: Status)
    ensures
        s == spec_status_for_error(*err),
{
    match err {
        SfsError::IoError(IoErrorKind::TimedOut) => Status::RequestTimeout,
        _ => Status::InternalServerError,
    }
}

} // verus!
