use crate::base::Base;
use vstd::prelude::*;

verus! {

/// A validated address range of the image: the address of its first byte and
/// its length in bytes.
#[derive(Debug, Clone, Copy)]
pub struct Header {
    base: Base,
    len: usize,
}

impl Header {
    /// The address of the range's first byte.
    pub closed spec fn spec_base(&self) -> Base {
        self.base
    }

    /// The length of the range.
    pub closed spec fn spec_len(&self) -> usize {
        self.len
    }

    /// The range lies within the address space.
    pub open spec fn wf(&self) -> bool {
        self.spec_base()@ + self.spec_len() <= usize::MAX
    }

    /// Builds a header from a base address and a length that stay inside the
    /// address space.
    pub fn new(base: Base, len: usize) -> (r: Header)
        requires
            base@ + len <= usize::MAX,
        ensures
            r.wf(),
            r.spec_base() == base,
            r.spec_len() == len,
    {
        Header { base, len }
    }

    /// Returns a base pointer of this range.
    pub fn base(&self) -> (r: Base)
        ensures
            r == self.spec_base(),
    {
        self.base
    }

    /// Returns the length of this range.
    pub fn len(&self) -> (r: usize)
        ensures
            r == self.spec_len(),
    {
        self.len
    }
}

} // verus!
