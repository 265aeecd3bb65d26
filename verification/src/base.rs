use vstd::prelude::*;

verus! {

/// An immutable, validated non-null address inside the running image.
///
/// `Base` is the only form in which the crate hands out addresses: a value is
/// created from a known non-zero address and offers nothing but bounded
/// offset arithmetic, so a `Base` is never null and never wraps around the
/// address space.
#[derive(Clone, Copy, Debug, PartialEq, Eq, Structural)]
pub struct Base {
    addr: usize,
}

impl View for Base {
    type V = usize;

    closed spec fn view(&self) -> usize {
        self.addr
    }
}

impl Base {
    #[verifier::type_invariant]
    spec fn non_null(self) -> bool {
        self.addr != 0
    }

    /// Validates `addr`, returning a `Base` only when it is non-null.
    pub fn new(addr: usize) -> (r: Option<Base>)
        ensures
            match r {
                Some(b) => b@ == addr && addr != 0,
                None => addr == 0,
            },
    {
        if addr == 0 {
            None
        } else {
            Some(Base { addr })
        }
    }

    /// The address this handle stands for; never zero.
    pub fn addr(&self) -> (r: usize)
        ensures
            r == self@,
            r != 0,
    {
        proof {
            use_type_invariant(self);
        }
        self.addr
    }

    /// Moves the address forward by `count` bytes; the sum must stay inside
    /// the address space.
    pub fn add(&self, count: usize) -> (r: Base)
        requires
            self@ + count <= usize::MAX,
        ensures
            r@ == self@ + count,
    {
        proof {
            use_type_invariant(self);
        }
        Base { addr: self.addr + count }
    }
}

} // verus!
