use vstd::prelude::*;

use super::dynamic;
use super::traits;

verus! {

/// Size of a [`Stamp`](crate::Stamp) fixed at compile time: the width and the
/// height are part of the type, and a value of it stores nothing.
#[derive(Debug, Clone, Copy, PartialEq, Eq)]
#[non_exhaustive]
pub struct Size<const WIDTH: usize, const HEIGHT: usize>;

impl<const WIDTH: usize, const HEIGHT: usize> traits::Size for Size<WIDTH, HEIGHT> {
    open spec fn spec_width(&self) -> usize {
        WIDTH
    }

    open spec fn spec_height(&self) -> usize {
        HEIGHT
    }

    fn size(&self) -> (r: [usize; 2]) {
        [WIDTH, HEIGHT]
    }
}

impl<const WIDTH: usize, const HEIGHT: usize> Size<WIDTH, HEIGHT> {
    /// Moves the width and the height out of the type into stored fields.
    pub(crate) fn downgrade(self) -> (r: dynamic::Size)
        ensures
            traits::Size::spec_width(&r) == WIDTH,
            traits::Size::spec_height(&r) == HEIGHT,
    {
        dynamic::Size::new(WIDTH, HEIGHT)
    }
}

} // verus!
