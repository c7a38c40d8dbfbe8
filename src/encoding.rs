use vstd::arithmetic::div_mod::lemma_fundamental_div_mod;
use vstd::prelude::*;

use crate::{bit_at, traits, Color, Stamp};

verus! {

/// Number of bytes needed to hold `pixel_count` bits: the count divided by eight,
/// rounded up.
pub open spec fn spec_encoding_len(pixel_count: nat) -> nat {
    (pixel_count + 7) / 8
}

/// Number of bytes that the packed form of `pixel_count` pixels takes.
pub fn encoding_len(pixel_count: usize) -> (r: usize)
    ensures
        r == spec_encoding_len(pixel_count as nat),
{
    let d: usize = pixel_count / 8;
    let r: usize = pixel_count % 8;
    if r > 0 {
        d + 1
    } else {
        d
    }
}

/// A pixel whose color is neither opaque black nor opaque white.
#[derive(Debug, Clone, Copy, PartialEq, Eq, Structural)]
pub struct InvalidPixel {
    /// Column of the pixel.
    pub x: usize,
    /// Row of the pixel.
    pub y: usize,
    /// Red channel.
    pub red: u8,
    /// Green channel.
    pub green: u8,
    /// Blue channel.
    pub blue: u8,
    /// Alpha channel.
    pub alpha: u8,
}

/// The color of pixel `i` of row-major RGBA bytes (four per pixel): black for
/// `(0, 0, 0, 255)`, white for `(255, 255, 255, 255)`, and none for anything else.
pub open spec fn rgba_color(rgba: Seq<u8>, i: int) -> Option<Color> {
    let (r, g, b, a) = (rgba[4 * i], rgba[4 * i + 1], rgba[4 * i + 2], rgba[4 * i + 3]);
    if r == 0 && g == 0 && b == 0 && a == 255 {
        Some(Color::Black)
    } else if r == 255 && g == 255 && b == 255 && a == 255 {
        Some(Color::White)
    } else {
        None
    }
}

/// Every one of the first `n` pixels of `rgba` is black or white.
pub open spec fn all_valid(rgba: Seq<u8>, n: nat) -> bool {
    forall|i: int| 0 <= i < n ==> (#[trigger] rgba_color(rgba, i)) is Some
}

/// `bytes` is the packed form of the first `n` pixels of `rgba`: just long enough,
/// bit `i` set exactly where pixel `i` is white, and every bit past the last pixel
/// clear.
pub open spec fn is_packing_of(bytes: Seq<u8>, rgba: Seq<u8>, n: nat) -> bool {
    &&& bytes.len() == spec_encoding_len(n)
    &&& forall|i: nat| i < n ==> #[trigger] bit_at(bytes, i) == (rgba_color(rgba, i as int) == Some(
        Color::White,
    ))
    &&& forall|i: nat| n <= i < 8 * bytes.len() ==> !#[trigger] bit_at(bytes, i)
}

/// `e` reports the first pixel of `rgba` that is neither black nor white, with
/// its coordinate in an image `width` pixels wide and its channels.
pub open spec fn reports_first_invalid(e: InvalidPixel, rgba: Seq<u8>, width: nat) -> bool {
    let i = e.y * width + e.x;
    &&& e.x < width
    &&& rgba_color(rgba, i) is None
    &&& all_valid(rgba, i as nat)
    &&& e.red == rgba[4 * i]
    &&& e.green == rgba[4 * i + 1]
    &&& e.blue == rgba[4 * i + 2]
    &&& e.alpha == rgba[4 * i + 3]
}

/// A stamp over the packed form of an image shows every pixel in the color that
/// the image gave it.
pub proof fn lemma_encoding_round_trip<S: traits::Size>(
    stamp: &Stamp<S>,
    rgba: Seq<u8>,
    x: int,
    y: int,
)
    requires
        all_valid(rgba, stamp.spec_pixel_count()),
        is_packing_of(stamp.bytes(), rgba, stamp.spec_pixel_count()),
        stamp.spec_in_bounds(x, y),
    ensures
        rgba_color(rgba, y * stamp.spec_width() + x) == Some(stamp.spec_color(x, y)),
{
    let w = stamp.spec_width() as int;
    let h = stamp.spec_height() as int;
    let i = y * w + x;
    assert(0 <= i < w * h) by (nonlinear_arith)
        requires
            i == y * w + x,
            0 <= x < w,
            0 <= y < h,
    ;
    assert(bit_at(stamp.bytes(), i as nat) == (rgba_color(rgba, i) == Some(Color::White)));
    assert(rgba_color(rgba, i) is Some);
}

/// Setting bit `k` (from the most significant end) of a byte sets that bit and
/// keeps the others.
proof fn lemma_or_mask(b: u8, k: u8, k2: u8)
    requires
        k < 8,
        k2 < 8,
    ensures
        ((b | (0x80u8 >> k)) >> ((7 - k2) as u8)) & 1u8 == 1u8 <==> (k2 == k || (b >> ((7 - k2) as u8))
            & 1u8 == 1u8),
{
    assert(((b | (0x80u8 >> k)) >> ((7 - k2) as u8)) & 1u8 == 1u8 <==> (k2 == k || (b >> ((7 - k2) as u8))
        & 1u8 == 1u8)) by (bit_vector)
        requires
            k < 8,
            k2 < 8,
    ;
}

/// Setting the bit of pixel `i` sets it and keeps every other pixel's bit.
proof fn lemma_set_pixel_bit(bytes: Seq<u8>, i: nat, next: Seq<u8>)
    requires
        i / 8 < bytes.len(),
        next == bytes.update((i / 8) as int, bytes[(i / 8) as int] | (0x80u8 >> ((i % 8) as u8))),
    ensures
        forall|j: nat| j < 8 * bytes.len() ==> #[trigger] bit_at(next, j) == (j == i || bit_at(bytes, j)),
{
    assert forall|j: nat| j < 8 * bytes.len() implies #[trigger] bit_at(next, j) == (j == i
        || bit_at(bytes, j)) by {
        if j / 8 == i / 8 {
            let k = (i % 8) as u8;
            let k2 = (j % 8) as u8;
            lemma_or_mask(bytes[(i / 8) as int], k, k2);
            assert(((7 - j % 8) as u8) == (7 - k2) as u8);
            lemma_fundamental_div_mod(i as int, 8);
            lemma_fundamental_div_mod(j as int, 8);
        } else {
            assert(j != i);
        }
    }
}

/// Whether the pixel at `idx` (four bytes from `4 * idx`) is black, white, or
/// neither.
fn pixel_color(rgba: &[u8], idx: usize) -> (r: Option<Color>)
    requires
        4 * idx + 3 < rgba@.len(),
    ensures
        r == rgba_color(rgba@, idx as int),
{
    let _len: usize = rgba.len();
    let base: usize = 4 * idx;
    let (r, g, b, a) = (rgba[base], rgba[base + 1], rgba[base + 2], rgba[base + 3]);
    if r == 0 && g == 0 && b == 0 && a == 255 {
        Some(Color::Black)
    } else if r == 255 && g == 255 && b == 255 && a == 255 {
        Some(Color::White)
    } else {
        None
    }
}

/// Packs a decoded image into the stamp format: `rgba` holds four bytes (red,
/// green, blue, alpha) for each of the `width * height` pixels in row-major order.
///
/// Every pixel must be opaque black or opaque white; otherwise the first pixel
/// that is not is reported.
pub fn encode(width: usize, height: usize, rgba: &[u8]) -> (r: Result<Vec<u8>, InvalidPixel>)
    requires
        rgba@.len() == 4 * width * height,
    ensures
        r is Ok <==> all_valid(rgba@, (width * height) as nat),
        r matches Ok(bytes) ==> is_packing_of(bytes@, rgba@, (width * height) as nat),
        r matches Err(e) ==> reports_first_invalid(e, rgba@, width as nat),
{
    let ghost n = (width * height) as nat;
    let total: usize = rgba.len();
    let pixel_count: usize = total / 4;
    assert(pixel_count == n && rgba@.len() == 4 * n) by (nonlinear_arith)
        requires
            rgba@.len() == 4 * width * height,
            pixel_count == rgba@.len() / 4,
            n == width * height,
    ;

    let mut i: usize = 0;
    while i < pixel_count
        invariant
            i <= pixel_count,
            pixel_count == n,
            rgba@.len() == 4 * n,
            total == rgba@.len(),
            n == width * height,
            all_valid(rgba@, i as nat),
        decreases pixel_count - i,
    {
        if pixel_color(rgba, i).is_none() {
            let x: usize = i % width;
            let y: usize = i / width;
            let base: usize = 4 * i;
            proof {
                assert(width > 0) by (nonlinear_arith)
                    requires
                        i < n,
                        n == width * height,
                ;
                lemma_fundamental_div_mod(i as int, width as int);
                assert(y * width + x == i) by (nonlinear_arith)
                    requires
                        i == width * (i / width) + i % width,
                        x == i % width,
                        y == i / width,
                ;
            }
            return Err(
                InvalidPixel {
                    x,
                    y,
                    red: rgba[base],
                    green: rgba[base + 1],
                    blue: rgba[base + 2],
                    alpha: rgba[base + 3],
                },
            );
        }
        i += 1;
    }

    let len: usize = encoding_len(pixel_count);
    let mut data: Vec<u8> = Vec::new();
    let mut j: usize = 0;
    while j < len
        invariant
            j <= len,
            data@.len() == j,
            forall|k: int| 0 <= k < j ==> data@[k] == 0u8,
        decreases len - j,
    {
        data.push(0u8);
        j += 1;
    }
    proof {
        assert forall|b: nat| b < 8 * data@.len() implies !#[trigger] bit_at(data@, b) by {
            let k2 = (b % 8) as u8;
            assert((0u8 >> ((7 - k2) as u8)) & 1u8 == 0u8) by (bit_vector)
                requires
                    k2 < 8,
            ;
            assert(((7 - b % 8) as u8) == (7 - k2) as u8);
        }
    }

    let mut i: usize = 0;
    while i < pixel_count
        invariant
            i <= pixel_count,
            pixel_count == n,
            rgba@.len() == 4 * n,
            all_valid(rgba@, n),
            data@.len() == len,
            len == spec_encoding_len(n),
            forall|b: nat| b < i ==> #[trigger] bit_at(data@, b) == (rgba_color(rgba@, b as int)
                == Some(Color::White)),
            forall|b: nat| i <= b < 8 * len ==> !#[trigger] bit_at(data@, b),
        decreases pixel_count - i,
    {
        let white: bool = match pixel_color(rgba, i) {
            Some(Color::White) => true,
            _ => false,
        };
        if white {
            let byte_index: usize = i / 8;
            let mask: u8 = 0b1000_0000u8 >> ((i % 8) as u8);
            let ghost before = data@;
            let updated: u8 = data[byte_index] | mask;
            data.set(byte_index, updated);
            proof {
                lemma_set_pixel_bit(before, i as nat, data@);
            }
        }
        proof {
            assert(rgba_color(rgba@, i as int) is Some);
        }
        i += 1;
    }
    Ok(data)
}

} // verus!
