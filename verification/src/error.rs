//! The error taxonomy: every fallible operation of this crate reports one
//! of these values to its immediate caller; nothing is retried or logged.

use vstd::prelude::*;

verus! {

/// An error signalled to the caller.
#[derive(Clone, Copy, Debug, PartialEq, Eq, Structural)]
pub enum MlsError {
    /// An operation that is deliberately left without behaviour was
    /// invoked: any `Credential` accessor on the X.509 variant.
    NotImplemented,
    /// A decode found a length prefix out of its declared bound, an
    /// unknown discriminant tag, or too few bytes left in the input.
    MalformedEncoding,
}

} // verus!
