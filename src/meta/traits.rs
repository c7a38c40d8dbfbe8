use vstd::prelude::*;

verus! {

/// A generalized size of a [`Stamp`](crate::Stamp).
pub trait Size {
    /// Width of the stamp in pixels, as seen by specifications.
    spec fn spec_width(&self) -> usize;

    /// Height of the stamp in pixels, as seen by specifications.
    spec fn spec_height(&self) -> usize;

    /// Size of the stamp in pixels: width and height, or columns and rows.
    fn size(&self) -> (r: [usize; 2])
        ensures
            r@ == seq![self.spec_width(), self.spec_height()],
    ;
}

} // verus!
