//! The one error type under which the failures of the library are handed on.

use vstd::prelude::*;
use crate::rs_codec::RSError;

verus! {

/// What went wrong.
#[derive(Debug)]
pub enum ErrorKind {
    /// Encoding or decoding a block failed.
    BlockError(crate::sbx_block::Error),
    /// A Reed-Solomon set could not be repaired.
    RSError(RSError),
}

/// A failure of the library.
#[derive(Debug)]
pub struct Error {
    pub kind: ErrorKind,
}

impl Error {
    /// A failure of the given kind.
    pub fn new(kind: ErrorKind) -> (error: Error)
        ensures
            error.kind == kind,
    {
        Error { kind }
    }
}

} // verus!
