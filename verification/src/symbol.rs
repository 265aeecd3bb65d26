use crate::base::Base;
use vstd::prelude::*;

verus! {

/// The name carries a mangling prefix that only a demangler could resolve.
pub open spec fn is_mangled(name: Seq<char>) -> bool {
    ||| name.len() >= 2 && name[0] == '_' && (name[1] == 'Z' || name[1] == 'R')
    ||| name.len() >= 1 && name[0] == '?'
}

/// A named address of the image: a best-effort name service around the
/// symbols the image exports.
#[derive(Debug)]
pub struct Symbol {
    name: String,
    base: Base,
}

impl Symbol {
    /// The symbol's raw name.
    pub closed spec fn spec_name(&self) -> Seq<char> {
        self.name@
    }

    /// The address the symbol names.
    pub closed spec fn spec_base(&self) -> Base {
        self.base
    }

    /// Builds a symbol from its raw name and address.
    pub fn new(name: String, base: Base) -> (r: Symbol)
        ensures
            r.spec_name() == name@,
            r.spec_base() == base,
    {
        Symbol { name, base }
    }

    /// The symbol's readable name. A name under a mangling scheme (prefixed
    /// `_Z`, `?` or `_R`) would need a demangler this crate does not carry,
    /// so such names are excluded; every other name is already readable and
    /// is returned as it is.
    pub fn demangle(&self) -> (r: String)
        requires
            !is_mangled(self.spec_name()),
        ensures
            r@ == self.spec_name(),
    {
        self.name.clone()
    }
}

/// The mangling scheme of a compiled-language name.
#[derive(Debug, Clone, Copy, PartialEq, Eq, Structural)]
pub enum Abi {
    Itanium,
    Msvc,
}

/// The language family a symbol name belongs to.
#[derive(Debug, Clone, Copy, PartialEq, Eq, Structural)]
pub enum Kind {
    Cpp(Abi),
    Rust,
    Swift,
    Unknown,
}

} // verus!
