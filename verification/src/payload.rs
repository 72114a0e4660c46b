//! Reference-counted payload bytes, as [`tungstenite::Bytes`] holds them.

use tungstenite::Bytes;
use vstd::prelude::*;

verus! {

/// The byte buffer of the `bytes` crate, which `tungstenite` re-exports. Its fields stay hidden;
/// [`contents`] is all that is said of a value.
#[verifier::external_type_specification]
#[verifier::external_body]
pub struct ExBytes(Bytes);

/// The bytes that a buffer holds, first to last.
pub uninterp spec fn contents(b: Bytes) -> Seq<u8>;

/// `Bytes::new` gives a buffer that holds nothing.
pub assume_specification[ Bytes::new ]() -> (b: Bytes)
    ensures
        contents(b) == Seq::<u8>::empty(),
;

/// `Bytes::len` counts the bytes that the buffer holds.
pub assume_specification[ Bytes::len ](b: &Bytes) -> (n: usize)
    ensures
        n == contents(*b).len(),
;

/// `Bytes::is_empty` tells whether the buffer holds nothing.
pub assume_specification[ Bytes::is_empty ](b: &Bytes) -> (r: bool)
    ensures
        r == (contents(*b).len() == 0),
;

/// `Bytes::split_to` returns the first `at` bytes and leaves the rest in the buffer. It panics
/// where the buffer holds fewer than `at` bytes.
pub assume_specification[ Bytes::split_to ](b: &mut Bytes, at: usize) -> (head: Bytes)
    requires
        at <= contents(*old(b)).len(),
    ensures
        contents(head) == contents(*old(b)).take(at as int),
        contents(*final(b)) == contents(*old(b)).skip(at as int),
;

/// `<Bytes as Clone>::clone` gives another handle on the same bytes.
pub assume_specification[ <Bytes as Clone>::clone ](b: &Bytes) -> (c: Bytes)
    ensures
        contents(c) == contents(*b),
;

/// `<Bytes as From<Vec<u8>>>::from` keeps the bytes of the vector.
#[verifier::external_body]
pub(crate) fn bytes_from_vec(data: Vec<u8>) -> (b: Bytes)
    ensures
        contents(b) == data@,
{
    Bytes::from(data)
}

/// `<Bytes as AsRef<[u8]>>::as_ref` shows the bytes that the buffer holds.
#[verifier::external_body]
pub(crate) fn bytes_as_slice(b: &Bytes) -> (s: &[u8])
    ensures
        s@ == contents(*b),
{
    b.as_ref()
}

} // verus!
