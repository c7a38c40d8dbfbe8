use vstd::prelude::*;

verus! {

/// Read-only source of the bytes of a [`Stamp`](crate::Stamp).
///
/// It wraps a buffer that lives for the whole program and is never changed, so a
/// value of it may be copied and shared freely.
#[derive(Debug, Clone, Copy)]
pub struct Data {
    source: &'static [u8],
}

impl View for Data {
    type V = Seq<u8>;

    closed spec fn view(&self) -> Seq<u8> {
        self.source@
    }
}

impl Data {
    /// Wraps the bytes of `source`.
    pub fn from_raw(source: &'static [u8]) -> (r: Self)
        ensures
            r@ == source@,
    {
        Data { source }
    }

    /// Number of bytes that can be read.
    pub fn len(&self) -> (r: usize)
        ensures
            r == self@.len(),
    {
        self.source.len()
    }

    /// Returns the byte at `idx`, which must be in bounds.
    pub fn get_unchecked(&self, idx: usize) -> (r: u8)
        requires
            idx < self@.len(),
        ensures
            r == self@[idx as int],
    {
        self.source[idx]
    }
}

} // verus!
