//! Error kinds surfaced by the read path.

use vstd::prelude::*;

verus! {

/// Failures a read operation can resolve to.
///
/// There is no local recovery: the read path never retries and never
/// substitutes a default, except for the two documented absence rules
/// (an absent counter reads as zero; an empty bitmap reads as absent).
#[derive(Clone, Copy, Debug, PartialEq, Eq, Structural)]
pub enum Error {
    /// Failure reported by the storage engine, propagated unchanged.
    Engine,
    /// A counter value was present but not exactly eight bytes long.
    InvalidCounter,
    /// Stored bitmap bytes did not decode.
    BitmapDecode,
    /// Stored value bytes were malformed for the requested type.
    ValueDecode,
    /// The visitor callback failed; iteration halted.
    Visitor,
}

impl Error {
    /// Short description of the error, as the store reports it.
    pub fn message(&self) -> (r: &'static str)
        ensures
            *self is InvalidCounter ==> r@ == "Invalid counter value."@,
    {
        match self {
            Error::Engine => "Storage engine error.",
            Error::InvalidCounter => "Invalid counter value.",
            Error::BitmapDecode => "Failed to deserialize bitmap.",
            Error::ValueDecode => "Failed to deserialize value.",
            Error::Visitor => "Iteration callback failed.",
        }
    }
}

} // verus!
