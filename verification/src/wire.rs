//! The one capability that every part of a message shares.

use crate::error::EncodingError;
use vstd::prelude::*;

verus! {

/// A value that can append its wire form to a growable byte buffer.
pub trait Serialize {
    /// The bytes that stand for this value on the wire.
    spec fn wire(&self) -> Seq<u8>;

    /// Whether this value has a wire form at all.
    spec fn encodable(&self) -> bool;

    /// Appends [`wire`](Serialize::wire) to `dst`.
    ///
    /// A value that is not encodable is refused and `dst` is left as it was:
    /// no truncated message is ever written.
    fn serialize(&self, dst: &mut Vec<u8>) -> (r: Result<(), EncodingError>)
        ensures
            self.encodable() ==> r is Ok && final(dst)@ == old(dst)@ + self.wire(),
            !self.encodable() ==> r == Err::<(), EncodingError>(EncodingError::LabelTooLong)
                && final(dst)@ == old(dst)@,
    ;
}

} // verus!
