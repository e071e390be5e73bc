//! Error taxonomy shared across the crate.

use vstd::prelude::*;

verus! {

/// Failures surfaced by the state engine and the codecs.
#[derive(Clone, Copy, PartialEq, Eq, Structural, Debug)]
pub enum Error {
    /// The commitment tree has no room for another leaf.
    TreeFull,
    /// A payload could not be decoded.
    DecodeFailure,
    /// An operation tag in a zk binary stream is unknown.
    BadOperationType,
}

impl Error {
    /// A short description of the failure.
    pub fn message(&self) -> (r: &'static str)
        ensures
            *self is TreeFull ==> r@ == "commitment tree is full"@,
            *self is DecodeFailure ==> r@ == "decode failed"@,
            *self is BadOperationType ==> r@ == "bad operation type"@,
    {
        match self {
            Error::TreeFull => "commitment tree is full",
            Error::DecodeFailure => "decode failed",
            Error::BadOperationType => "bad operation type",
        }
    }
}

} // verus!
