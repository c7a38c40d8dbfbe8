use vstd::prelude::*;

use super::traits;

verus! {

/// Size of a [`Stamp`](crate::Stamp) kept at run time: two stored integers.
#[derive(Debug, Clone, Copy, PartialEq, Eq, Structural)]
pub struct Size {
    pub(crate) width: usize,
    pub(crate) height: usize,
}

impl Size {
    /// Stores `width` and `height`.
    pub(crate) fn new(width: usize, height: usize) -> (r: Self)
        ensures
            traits::Size::spec_width(&r) == width,
            traits::Size::spec_height(&r) == height,
    {
        Size { width, height }
    }
}

impl traits::Size for Size {
    closed spec fn spec_width(&self) -> usize {
        self.width
    }

    closed spec fn spec_height(&self) -> usize {
        self.height
    }

    fn size(&self) -> (r: [usize; 2]) {
        [self.width, self.height]
    }
}

} // verus!
