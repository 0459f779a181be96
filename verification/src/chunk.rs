//! The byte buffers of the `bytes` crate, as far as the collector uses them.
//!
//! Nothing in this file is proved. Each item states what the `bytes` crate
//! does, and the proofs of the other modules rest on these statements.

use bytes::BufMut;
use bytes::Bytes;
use vstd::prelude::*;

verus! {

/// `bytes::Bytes`: an immutable run of bytes that is cheap to hand on.
/// The verifier sees nothing inside a value of it.
#[verifier::external_type_specification]
#[verifier::external_body]
pub struct ExBytes(bytes::Bytes);

/// The bytes that a `Bytes` holds, in order.
pub uninterp spec fn contents(b: Bytes) -> Seq<u8>;

/// `Bytes::new` gives a buffer that holds no byte.
pub assume_specification[ Bytes::new ]() -> (b: Bytes)
    ensures
        contents(b) == Seq::<u8>::empty(),
;

/// `Bytes::len` gives the number of bytes held.
pub assume_specification[ Bytes::len ](b: &Bytes) -> (n: usize)
    ensures
        n == contents(*b).len(),
;

/// `BufMut::put` on a `Vec<u8>` copies the bytes of `chunk` to the end of
/// `buf`. It reserves room first, which panics when the new length would pass
/// `isize::MAX`, so such a call is left out.
#[verifier::external_body]
pub(crate) fn append(buf: &mut Vec<u8>, chunk: Bytes)
    requires
        old(buf)@.len() + contents(chunk).len() <= isize::MAX,
    ensures
        final(buf)@ == old(buf)@ + contents(chunk),
{
    buf.put(chunk)
}

/// `Bytes::from` on a `Vec<u8>` takes the vector's storage over; the bytes
/// stay as they were.
#[verifier::external_body]
pub(crate) fn freeze(buf: Vec<u8>) -> (b: Bytes)
    ensures
        contents(b) == buf@,
{
    Bytes::from(buf)
}

} // verus!
