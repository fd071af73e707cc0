use vstd::prelude::*;
use crate::shape::{checked_dims_product, copy_extents, dims_product};

verus! {

/// A list of extents that knows how many elements it spans.
#[derive(Debug, Clone)]
pub struct Size {
    s: Vec<usize>,
}

impl View for Size {
    type V = Seq<usize>;

    closed spec fn view(&self) -> Seq<usize> {
        self.s@
    }
}

impl Size {
    pub fn new(s: &[usize]) -> (r: Size)
        ensures
            r@ == s@,
    {
        Size { s: copy_extents(s) }
    }

    /// The product of the extents; one for no extents.
    pub fn num_elements(&self) -> (r: usize)
        requires
            dims_product(self@) <= usize::MAX,
        ensures
            r == dims_product(self@),
    {
        match checked_dims_product(self.s.as_slice()) {
            Some(n) => n,
            None => vstd::pervasive::unreached(),
        }
    }

    pub fn to_vec(&self) -> (r: &Vec<usize>)
        ensures
            r@ == self@,
    {
        &self.s
    }
}

} // verus!
