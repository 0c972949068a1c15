//! Why a value may have no wire form.

use vstd::prelude::*;

verus! {

/// The reason an encoding was refused.
#[derive(Clone, Copy, Debug, PartialEq, Eq, Structural)]
pub enum EncodingError {
    /// A label of a domain name is longer than 255 bytes, so that its length
    /// does not fit the single byte that precedes it on the wire.
    LabelTooLong,
}

} // verus!
