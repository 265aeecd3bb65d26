use crate::base::Base;
use crate::find::{
    first_match, last_match, lemma_first_match_characterizes, lemma_last_match_characterizes,
    par_position_first, par_position_last, Find,
};
use vstd::prelude::*;

verus! {

/// A named, contiguous sub-range of the image: its name, the address of its
/// first byte, and a snapshot of its bytes.
#[derive(Debug)]
pub struct Section {
    name: String,
    base: Base,
    data: Vec<u8>,
}

impl Section {
    /// The section's name.
    pub closed spec fn spec_name(&self) -> Seq<char> {
        self.name@
    }

    /// The address of the section's first byte.
    pub closed spec fn spec_base(&self) -> Base {
        self.base
    }

    /// The section's bytes.
    pub closed spec fn spec_data(&self) -> Seq<u8> {
        self.data@
    }

    /// The section lies within the address space.
    pub open spec fn wf(&self) -> bool {
        self.spec_base()@ + self.spec_data().len() <= usize::MAX
    }

    /// Builds a section from its name, base address and bytes.
    pub fn new(name: String, base: Base, data: Vec<u8>) -> (r: Section)
        requires
            base@ + data@.len() <= usize::MAX,
        ensures
            r.wf(),
            r.spec_name() == name@,
            r.spec_base() == base,
            r.spec_data() == data@,
    {
        Section { name, base, data }
    }

    /// Returns the name of this section.
    pub fn name(&self) -> (r: &str)
        ensures
            r@ == self.spec_name(),
    {
        self.name.as_str()
    }

    /// Returns a base pointer of this section in memory.
    pub fn base(&self) -> (r: Base)
        ensures
            r == self.spec_base(),
    {
        self.base
    }

    /// Returns the length of this section in memory.
    pub fn len(&self) -> (r: usize)
        ensures
            r == self.spec_data().len(),
    {
        self.data.len()
    }

    /// Returns a slice containing the entire section.
    pub fn as_slice(&self) -> (r: &[u8])
        ensures
            r@ == self.spec_data(),
    {
        self.data.as_slice()
    }

    /// Returns `true` if the section contains the byte pattern.
    pub fn contains(&self, pattern: &[u8]) -> (r: bool)
        requires
            self.wf(),
            pattern@.len() >= 1,
        ensures
            r == (first_match(self.spec_data(), pattern@) is Some),
    {
        self.find(pattern).is_some()
    }
}

impl Find for Section {
    open spec fn haystack(&self) -> Seq<u8> {
        self.spec_data()
    }

    open spec fn base_addr(&self) -> int {
        self.spec_base()@ as int
    }

    open spec fn find_wf(&self) -> bool {
        self.wf()
    }

    fn find(&self, pattern: &[u8]) -> (r: Option<Base>) {
        match par_position_first(self.data.as_slice(), pattern) {
            Some(offset) => {
                proof {
                    lemma_first_match_characterizes(self.spec_data(), pattern@);
                }
                Some(self.base.add(offset))
            },
            None => None,
        }
    }

    fn rfind(&self, pattern: &[u8]) -> (r: Option<Base>) {
        match par_position_last(self.data.as_slice(), pattern) {
            Some(offset) => {
                proof {
                    lemma_last_match_characterizes(self.spec_data(), pattern@);
                }
                Some(self.base.add(offset))
            },
            None => None,
        }
    }
}

} // verus!
