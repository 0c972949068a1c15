//! Writing into a `Vec<u8>` through `bytes::BufMut`.
//!
//! The functions here are the only place where the buffer is touched. Each one
//! makes a single call into the `bytes` crate; its contract is taken on trust
//! from that crate's source and is not proved.

use vstd::prelude::*;

verus! {

/// The two bytes of `n`, most significant first.
pub open spec fn be_bytes(n: u16) -> Seq<u8> {
    seq![(n / 256) as u8, (n % 256) as u8]
}

/// The number that two bytes stand for when the first is the most significant.
pub open spec fn be_value(bytes: Seq<u8>) -> u16
    recommends
        bytes.len() == 2,
{
    (bytes[0] * 256 + bytes[1]) as u16
}

/// Reading back the two bytes of a number gives the number.
pub proof fn lemma_be_round_trip(n: u16)
    ensures
        be_bytes(n).len() == 2,
        be_value(be_bytes(n)) == n,
{
}

/// `bytes::BufMut::put_u8` on a `Vec<u8>`: the byte is appended.
///
/// For a `Vec<u8>` the call comes down to `Vec::extend_from_slice` on a
/// one-byte slice, which grows the vector as needed.
#[verifier::external_body]
pub(crate) fn put_u8(dst: &mut Vec<u8>, n: u8)
    ensures
        final(dst)@ == old(dst)@.push(n),
{
    bytes::BufMut::put_u8(dst, n)
}

/// `bytes::BufMut::put_u16` on a `Vec<u8>`: the number is appended as two
/// bytes in big-endian order.
///
/// For a `Vec<u8>` the call comes down to `Vec::extend_from_slice` on
/// `n.to_be_bytes()`.
#[verifier::external_body]
pub(crate) fn put_u16(dst: &mut Vec<u8>, n: u16)
    ensures
        final(dst)@ == old(dst)@ + be_bytes(n),
{
    bytes::BufMut::put_u16(dst, n)
}

/// `bytes::BufMut::put_slice` on a `Vec<u8>`: the bytes of `src` are appended
/// in order.
///
/// For a `Vec<u8>` the call is `Vec::extend_from_slice`.
#[verifier::external_body]
pub(crate) fn put_slice(dst: &mut Vec<u8>, src: &[u8])
    ensures
        final(dst)@ == old(dst)@ + src@,
{
    bytes::BufMut::put_slice(dst, src)
}

} // verus!
