//! Error kinds of the engine.

use vstd::prelude::*;

verus! {

/// What can go wrong in the engine.
///
/// - `NoSpace`: the entry table, a fabric's share of it, or a subject or
///   target slot array within one entry is exhausted;
/// - `NotFound`: a fabric-relative index does not resolve to an entry of the
///   given fabric;
/// - `Invalid`: malformed persisted data, including an authentication-mode
///   byte equal to the reserved invalid marker.
#[derive(Copy, Clone, Debug, PartialEq, Eq, Structural)]
pub enum Error {
    NoSpace,
    NotFound,
    Invalid,
}

impl Error {
    /// A short text for diagnostics.
    pub fn as_str(&self) -> (r: &'static str)
        ensures
            self is NoSpace ==> r@ == "no space"@,
            self is NotFound ==> r@ == "not found"@,
            self is Invalid ==> r@ == "invalid data"@,
    {
        match self {
            Error::NoSpace => "no space",
            Error::NotFound => "not found",
            Error::Invalid => "invalid data",
        }
    }
}

} // verus!
