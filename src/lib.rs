//! Stockbook holds 1-bit raster images as packed bytes, for programs that keep
//! their images in read-only data and cannot afford an image decoder at run time.
//!
//! A [`Stamp`] pairs a [`Size`](traits::Size) with a buffer in which each pixel takes
//! one bit: pixels go in row-major order, most significant bit first, and a set bit
//! is white. The [`encoding`] module turns decoded colors into that buffer.
use vstd::prelude::*;

mod data;
pub mod encoding;
mod iter;
mod meta;

pub use data::Data;
pub use encoding::encoding_len;
pub use iter::{
    handed_out, lemma_interleaved_takes, lemma_row_major, take_run, take_step, Pixel, Pixels,
};
pub use meta::{dynamic, traits, Size};

use encoding::spec_encoding_len;

verus! {

/// Color of a pixel.
#[derive(Debug, Clone, Copy, PartialEq, Eq, Structural)]
pub enum Color {
    /// Black (`#000000ff` or `rgba(0, 0, 0, 255)`)
    Black,
    /// White (`#ffffffff` or `rgba(255, 255, 255, 255)`)
    White,
}

/// Whether the bit of pixel `idx` is set in `bytes`: it is bit `7 - idx % 8` of
/// byte `idx / 8`, counting from the least significant bit.
pub open spec fn bit_at(bytes: Seq<u8>, idx: nat) -> bool {
    (bytes[(idx / 8) as int] >> ((7 - idx % 8) as u8)) & 1u8 == 1u8
}

/// The color that a bit stands for: a set bit is white, a clear one black.
pub open spec fn color_of(bit: bool) -> Color {
    if bit {
        Color::White
    } else {
        Color::Black
    }
}

/// Rectangular, 1-bit, raster image.
///
/// A stamp is defined by its width, height, and the color of its pixels, of which
/// there are two: [`Black`](Color::Black) and [`White`](Color::White). Coordinate
/// _(0, 0)_ is the top-left corner of the stamp.
///
/// The colors are kept as bytes, one bit per pixel; the bytes past the last pixel
/// are never read.
#[derive(Debug)]
pub struct Stamp<S: traits::Size = dynamic::Size> {
    size: S,
    data: Data,
}

impl<S: traits::Size + Copy> Clone for Stamp<S> {
    fn clone(&self) -> Self {
        *self
    }
}

impl<S: traits::Size + Copy> Copy for Stamp<S> {

}

impl<S: traits::Size> Stamp<S> {
    /// The buffer holds every pixel, and the pixel count fits in a `usize`.
    #[verifier::type_invariant]
    spec fn inv(self) -> bool {
        &&& self.size.spec_width() * self.size.spec_height() <= usize::MAX
        &&& spec_encoding_len((self.size.spec_width() * self.size.spec_height()) as nat)
            <= self.data@.len()
    }

    /// Width in pixels.
    pub closed spec fn spec_width(&self) -> usize {
        self.size.spec_width()
    }

    /// Height in pixels.
    pub closed spec fn spec_height(&self) -> usize {
        self.size.spec_height()
    }

    /// The packed pixel bytes.
    pub closed spec fn bytes(&self) -> Seq<u8> {
        self.data@
    }

    /// Number of pixels.
    pub open spec fn spec_pixel_count(&self) -> nat {
        (self.spec_width() * self.spec_height()) as nat
    }

    /// Whether `(x, y)` lies inside the image.
    pub open spec fn spec_in_bounds(&self, x: int, y: int) -> bool {
        0 <= x < self.spec_width() && 0 <= y < self.spec_height()
    }

    /// Color of the pixel at `(x, y)`: bit `y * width + x` of the bytes.
    pub open spec fn spec_color(&self, x: int, y: int) -> Color {
        color_of(bit_at(self.bytes(), (y * self.spec_width() + x) as nat))
    }

    /// Every pixel as `(x, y, color)`, in row-major order: `x` runs first.
    pub open spec fn pixel_seq(&self) -> Seq<(usize, usize, Color)> {
        Seq::new(
            self.spec_pixel_count(),
            |i: int|
                (
                    (i % self.spec_width() as int) as usize,
                    (i / self.spec_width() as int) as usize,
                    self.spec_color(i % self.spec_width() as int, i / self.spec_width() as int),
                ),
        )
    }
}

impl<const WIDTH: usize, const HEIGHT: usize> Stamp<Size<WIDTH, HEIGHT>> {
    /// Constructs a stamp from `data`, which must hold at least one bit for each of
    /// the `WIDTH * HEIGHT` pixels.
    pub fn from_raw(data: &'static [u8]) -> (r: Self)
        requires
            WIDTH * HEIGHT <= usize::MAX,
            spec_encoding_len((WIDTH * HEIGHT) as nat) <= data@.len(),
        ensures
            r.spec_width() == WIDTH,
            r.spec_height() == HEIGHT,
            r.bytes() == data@,
    {
        Self::from_raw_unchecked(data)
    }

    /// Constructs a stamp from `data` if it holds at least one bit for each of the
    /// `WIDTH * HEIGHT` pixels, and returns `None` if it is too short.
    pub fn try_from_raw(data: &'static [u8]) -> (r: Option<Self>)
        ensures
            r is Some <==> (WIDTH * HEIGHT <= usize::MAX && spec_encoding_len(
                (WIDTH * HEIGHT) as nat,
            ) <= data@.len()),
            r matches Some(s) ==> s.spec_width() == WIDTH && s.spec_height() == HEIGHT
                && s.bytes() == data@,
    {
        match WIDTH.checked_mul(HEIGHT) {
            None => None,
            Some(pixel_count) => {
                if Self::bytes_count(pixel_count) > data.len() {
                    None
                } else {
                    Some(Self::from_raw_unchecked(data))
                }
            },
        }
    }

    /// Constructs a stamp from `data`; the caller establishes that it is long enough.
    pub fn from_raw_unchecked(data: &'static [u8]) -> (r: Self)
        requires
            WIDTH * HEIGHT <= usize::MAX,
            spec_encoding_len((WIDTH * HEIGHT) as nat) <= data@.len(),
        ensures
            r.spec_width() == WIDTH,
            r.spec_height() == HEIGHT,
            r.bytes() == data@,
    {
        Stamp { size: Size, data: Data::from_raw(data) }
    }

    /// Erases the size from the type, keeping the width and the height in the value
    /// instead.
    pub fn downgrade(self) -> (r: Stamp)
        ensures
            r.spec_width() == WIDTH,
            r.spec_height() == HEIGHT,
            r.bytes() == self.bytes(),
    {
        proof {
            use_type_invariant(&self);
        }
        Stamp { size: self.size.downgrade(), data: self.data }
    }
}

impl<S: traits::Size> Stamp<S> {
    /// Size of the stamp in pixels: width and height, or columns and rows.
    pub fn size(&self) -> (r: [usize; 2])
        ensures
            r@ == seq![self.spec_width(), self.spec_height()],
    {
        self.size.size()
    }

    /// Width of the stamp in pixels.
    pub fn width(&self) -> (r: usize)
        ensures
            r == self.spec_width(),
    {
        let s: [usize; 2] = self.size();
        s[0]
    }

    /// Height of the stamp in pixels.
    pub fn height(&self) -> (r: usize)
        ensures
            r == self.spec_height(),
    {
        let s: [usize; 2] = self.size();
        s[1]
    }

    /// Number of pixels in the stamp.
    pub fn pixel_count(&self) -> (r: usize)
        ensures
            r == self.spec_pixel_count(),
    {
        proof {
            use_type_invariant(self);
        }
        self.width() * self.height()
    }

    /// Checks if a given coordinate is within the bounds of the image.
    pub fn is_within_bounds(&self, x: usize, y: usize) -> (r: bool)
        ensures
            r == self.spec_in_bounds(x as int, y as int),
    {
        x < self.width() && y < self.height()
    }

    /// Returns an iterator over all pixels: `x` from 0 to the width, then `y` from 0
    /// to the height. A pixel is an `(x, y, color)` tuple.
    pub fn pixels(&self) -> (r: Pixels<'_, S>)
        ensures
            r.wf(),
            r@ == self.pixel_seq(),
    {
        Pixels::new(self)
    }

    /// Yields the color at `(x, y)`, which must lie inside the image.
    pub fn get_color(&self, x: usize, y: usize) -> (r: Color)
        requires
            self.spec_in_bounds(x as int, y as int),
        ensures
            r == self.spec_color(x as int, y as int),
    {
        self.get_color_checked(x, y).unwrap()
    }

    /// Yields the color at `(x, y)`, or `None` if the coordinate is out of bounds.
    pub fn get_color_checked(&self, x: usize, y: usize) -> (r: Option<Color>)
        ensures
            r == (if self.spec_in_bounds(x as int, y as int) {
                Some(self.spec_color(x as int, y as int))
            } else {
                None
            }),
    {
        if !self.is_within_bounds(x, y) {
            return None;
        }
        Some(self.get_color_unchecked(x, y))
    }

    /// Yields the color at `(x, y)` without checking the bounds: the caller
    /// establishes that the coordinate lies inside the image.
    pub fn get_color_unchecked(&self, x: usize, y: usize) -> (r: Color)
        requires
            self.spec_in_bounds(x as int, y as int),
        ensures
            r == self.spec_color(x as int, y as int),
    {
        proof {
            use_type_invariant(self);
        }
        let width: usize = self.width();
        proof {
            let h = self.spec_height() as int;
            assert(y * width + x < width * h) by (nonlinear_arith)
                requires
                    x < width,
                    y < h,
            ;
        }
        let idx: usize = y * width + x;
        let byte: u8 = self.data.get_unchecked(idx / 8);
        let shift: u8 = (idx % 8) as u8;
        let mask: u8 = 0b1000_0000u8 >> shift;
        proof {
            assert((byte & mask != 0) == ((byte >> (7 - shift) as u8) & 1u8 == 1u8)) by (bit_vector)
                requires
                    shift < 8,
                    mask == 0b1000_0000u8 >> shift,
            ;
        }
        if byte & mask != 0 {
            Color::White
        } else {
            Color::Black
        }
    }

    /// Number of bytes that hold `pixel_count` pixels.
    fn bytes_count(pixel_count: usize) -> (r: usize)
        ensures
            r == spec_encoding_len(pixel_count as nat),
    {
        encoding_len(pixel_count)
    }
}

} // verus!
