use vstd::prelude::*;

verus! {

/// The error taxonomy of the transfer engine.
///
/// `PathViolation` marks a traversal or escape attempt and is never retried;
/// `NotFound` an unknown session, task or target; `InvalidArgument` a
/// malformed name, bad index, unparsable media type or oversized declared
/// size; `Incomplete` a merge attempted before all chunks arrived;
/// `Upstream` a remote-fetch network failure recorded on its task; and
/// `Internal` a local filesystem failure reported by the surrounding code.
#[derive(Clone, Copy, Debug, PartialEq, Eq, Structural)]
pub enum TransferError {
    PathViolation,
    NotFound,
    InvalidArgument,
    Incomplete,
    Upstream,
    Internal,
}

impl TransferError {
    /// A short human-readable description of the error.
    pub fn message(&self) -> (r: String)
        ensures
            r@ == match self {
                TransferError::PathViolation => "path escapes its storage root"@,
                TransferError::NotFound => "not found"@,
                TransferError::InvalidArgument => "invalid argument"@,
                TransferError::Incomplete => "upload is not complete"@,
                TransferError::Upstream => "remote fetch failed"@,
                TransferError::Internal => "filesystem operation failed"@,
            },
    {
        match self {
            TransferError::PathViolation => "path escapes its storage root".to_owned(),
            TransferError::NotFound => "not found".to_owned(),
            TransferError::InvalidArgument => "invalid argument".to_owned(),
            TransferError::Incomplete => "upload is not complete".to_owned(),
            TransferError::Upstream => "remote fetch failed".to_owned(),
            TransferError::Internal => "filesystem operation failed".to_owned(),
        }
    }
}

} // verus!
