//! Blocks of file data, as the block cache hands them out.
use vstd::prelude::*;

verus! {

/// A cheaply cloned, reference-counted run of bytes.
#[verifier::external_type_specification]
#[verifier::external_body]
pub struct ExBytes(bytes::Bytes);

/// The bytes that a `bytes::Bytes` holds.
pub uninterp spec fn contents(b: bytes::Bytes) -> Seq<u8>;

/// `bytes::Bytes::len` is the number of bytes held.
pub assume_specification[ bytes::Bytes::len ](b: &bytes::Bytes) -> (n: usize)
    ensures
        n == contents(*b).len(),
;

/// `bytes::Bytes::new` holds nothing.
pub assume_specification[ bytes::Bytes::new ]() -> (b: bytes::Bytes)
    ensures
        contents(b) == Seq::<u8>::empty(),
;

/// Calls `bytes::Bytes::slice`: the bytes from `lo` up to `hi`.
#[verifier::external_body]
pub(crate) fn slice(b: &bytes::Bytes, lo: usize, hi: usize) -> (r: bytes::Bytes)
    requires
        lo <= hi <= contents(*b).len(),
    ensures
        contents(r) == contents(*b).subrange(lo as int, hi as int),
{
    b.slice(lo..hi)
}

/// Calls `bytes::Bytes`'s `as_ref`: the bytes held, as a slice.
#[verifier::external_body]
pub(crate) fn as_slice(b: &bytes::Bytes) -> (r: &[u8])
    ensures
        r@ == contents(*b),
{
    b.as_ref()
}

/// One block of file data together with what is known of its end.
#[derive(Debug)]
pub struct Block {
    bytes: bytes::Bytes,
    ends_data: bool,
}

impl View for Block {
    type V = Seq<u8>;

    closed spec fn view(&self) -> Seq<u8> {
        contents(self.bytes)
    }
}

impl Block {
    /// The source was asked for what lies past the last byte of this block and
    /// answered with nothing: its data ends there.
    pub closed spec fn is_end(&self) -> bool {
        self.ends_data
    }

    /// A block of these bytes. `ends_data` says that the source was asked for
    /// what lies past them and answered with nothing; a block that is merely
    /// short says no such thing.
    pub fn new(bytes: bytes::Bytes, ends_data: bool) -> (b: Block)
        ensures
            b@ == contents(bytes),
            b.is_end() == ends_data,
    {
        Block { bytes, ends_data }
    }

    pub fn len(&self) -> (n: usize)
        ensures
            n == self@.len(),
    {
        self.bytes.len()
    }

    pub fn is_empty(&self) -> (r: bool)
        ensures
            r == (self@.len() == 0),
    {
        self.bytes.len() == 0
    }

    /// Whether the source's data is known to end with this block's last byte.
    pub fn ends_data(&self) -> (r: bool)
        ensures
            r == self.is_end(),
    {
        self.ends_data
    }

    /// The bytes from `lo` up to `hi`, sharing this block's storage.
    pub fn slice(&self, lo: usize, hi: usize) -> (r: bytes::Bytes)
        requires
            lo <= hi <= self@.len(),
        ensures
            contents(r) == self@.subrange(lo as int, hi as int),
    {
        slice(&self.bytes, lo, hi)
    }

    /// The bytes of the block.
    pub fn as_slice(&self) -> (r: &[u8])
        ensures
            r@ == self@,
    {
        as_slice(&self.bytes)
    }
}

}
