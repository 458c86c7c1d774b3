//! A bytes-like value handed across the host boundary: read results are
//! wrapped in a buffer the host exposes through its own memory-view
//! mechanism, read-only.

use vstd::prelude::*;

verus! {

/// An immutable byte buffer.
#[derive(Clone, PartialEq, Eq, Debug)]
pub struct Buffer {
    inner: Vec<u8>,
}

impl Buffer {
    /// The bytes this buffer holds.
    pub closed spec fn view(&self) -> Seq<u8> {
        self.inner@
    }

    /// Wrap bytes in a buffer.
    pub fn new(inner: Vec<u8>) -> (r: Buffer)
        ensures
            r.view() == inner@,
    {
        Buffer { inner }
    }

    /// How many bytes the buffer holds.
    pub fn len(&self) -> (r: usize)
        ensures
            r == self.view().len(),
    {
        self.inner.len()
    }

    /// Borrow the bytes.
    pub fn as_bytes(&self) -> (r: &[u8])
        ensures
            r@ == self.view(),
    {
        self.inner.as_slice()
    }

    /// Take the bytes back out.
    pub fn into_vec(self) -> (r: Vec<u8>)
        ensures
            r@ == self.view(),
    {
        self.inner
    }
}

} // verus!
