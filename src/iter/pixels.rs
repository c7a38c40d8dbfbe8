use vstd::arithmetic::div_mod::{lemma_fundamental_div_mod, lemma_fundamental_div_mod_converse};
use vstd::prelude::*;

use crate::{dynamic, traits, Color, Stamp};

verus! {

/// A pixel as the enumerator yields it: `(x, y, color)`.
pub type Pixel = (usize, usize, Color);

/// What one call of [`Pixels::next`] (`from_back == false`) or
/// [`Pixels::next_back`] (`from_back == true`) hands out when `items` are left, and
/// what is left after it. Nothing is handed out, and nothing changes, once `items`
/// is empty.
pub open spec fn take_step(items: Seq<Pixel>, from_back: bool) -> (Option<Pixel>, Seq<Pixel>) {
    if items.len() == 0 {
        (None, items)
    } else if from_back {
        (Some(items.last()), items.drop_last())
    } else {
        (Some(items[0]), items.drop_first())
    }
}

/// What a run of calls hands out, one result per call, taking from the back where
/// `ends` holds `true` and from the front where it holds `false`.
pub open spec fn take_run(items: Seq<Pixel>, ends: Seq<bool>) -> Seq<Option<Pixel>>
    decreases ends.len(),
{
    if ends.len() == 0 {
        Seq::empty()
    } else {
        let (r, rest) = take_step(items, ends[0]);
        seq![r] + take_run(rest, ends.drop_first())
    }
}

/// The items among `results`, in order, without the `None`s.
pub open spec fn handed_out(results: Seq<Option<Pixel>>) -> Seq<Pixel>
    decreases results.len(),
{
    if results.len() == 0 {
        Seq::empty()
    } else {
        match results[0] {
            Some(p) => seq![p] + handed_out(results.drop_first()),
            None => handed_out(results.drop_first()),
        }
    }
}

/// Taking from either end, in any interleaving, hands out one item per call while
/// items are left and nothing after that; once as many calls were made as there
/// were items, what was handed out is exactly the items, each as often as it was
/// there.
pub proof fn lemma_interleaved_takes(items: Seq<Pixel>, ends: Seq<bool>)
    ensures
        take_run(items, ends).len() == ends.len(),
        forall|i: int|
            0 <= i < ends.len() ==> (#[trigger] take_run(items, ends)[i] is Some <==> i
                < items.len()),
        ends.len() >= items.len() ==> handed_out(take_run(items, ends)).to_multiset()
            == items.to_multiset(),
    decreases ends.len(),
{
    broadcast use vstd::seq_lib::group_to_multiset_ensures;

    if ends.len() > 0 {
        let (r, rest) = take_step(items, ends[0]);
        let tail = ends.drop_first();
        let run = take_run(items, ends);
        lemma_interleaved_takes(rest, tail);
        assert(run == seq![r] + take_run(rest, tail));
        assert(run.drop_first() =~= take_run(rest, tail));
        assert forall|i: int| 0 <= i < ends.len() implies (#[trigger] run[i] is Some <==> i
            < items.len()) by {
            if i > 0 {
                assert(run[i] == take_run(rest, tail)[i - 1]);
            }
        }
        if ends.len() >= items.len() {
            if items.len() == 0 {
                assert(rest == items);
                assert(r is None);
                assert(handed_out(run) == handed_out(take_run(rest, tail)));
            } else {
                let p = r->0;
                assert(handed_out(run) == seq![p] + handed_out(take_run(rest, tail)));
                let h = handed_out(take_run(rest, tail));
                assert(h.to_multiset() == rest.to_multiset());
                vstd::seq_lib::lemma_multiset_commutative(seq![p], h);
                vstd::seq_lib::lemma_multiset_commutative(seq![p], rest);
                if ends[0] {
                    assert(items =~= rest.push(p));
                    assert(seq![p] + rest =~= seq![p].add(rest));
                    vstd::seq_lib::lemma_multiset_commutative(rest, seq![p]);
                    assert(rest + seq![p] =~= rest.push(p));
                } else {
                    assert(items =~= seq![p] + rest);
                }
            }
        }
    }
}

/// An iterator that yields all pixels of a [`Stamp`], from the front in row-major
/// order and from the back in the reverse order.
///
/// This type is created by the [`pixels`](Stamp::pixels) method on [`Stamp`].
#[derive(Debug)]
pub struct Pixels<'a, S: traits::Size = dynamic::Size> {
    cursor: Cursor<'a, S>,
    cursor_back: CursorBack<'a, S>,
    remaining: usize,
}

/// Position of the next pixel from the front.
#[derive(Debug)]
struct Cursor<'a, S: traits::Size> {
    x: usize,
    y: usize,
    stamp: &'a Stamp<S>,
}

/// Position of the next pixel from the back.
#[derive(Debug)]
struct CursorBack<'a, S: traits::Size> {
    x: usize,
    y: usize,
    stamp: &'a Stamp<S>,
}

/// `(x, y)` lies inside `stamp`.
spec fn on_grid<S: traits::Size>(stamp: &Stamp<S>, x: usize, y: usize) -> bool {
    x < stamp.spec_width() && y < stamp.spec_height()
}

/// Row-major index of `(x, y)` in `stamp`.
spec fn index_of<S: traits::Size>(stamp: &Stamp<S>, x: usize, y: usize) -> int {
    y * stamp.spec_width() + x
}

/// The item at index `y * width + x` of the enumeration is `(x, y)` with its color.
proof fn lemma_pixel_at<S: traits::Size>(stamp: &Stamp<S>, x: usize, y: usize)
    requires
        on_grid(stamp, x, y),
    ensures
        0 <= index_of(stamp, x, y) < stamp.spec_pixel_count(),
        stamp.pixel_seq()[index_of(stamp, x, y)] == (x, y, stamp.spec_color(x as int, y as int)),
{
    let w = stamp.spec_width() as int;
    let h = stamp.spec_height() as int;
    let i = index_of(stamp, x, y);
    assert(0 <= i < w * h) by (nonlinear_arith)
        requires
            i == y * w + x,
            0 <= x < w,
            0 <= y < h,
    ;
    lemma_fundamental_div_mod_converse(i, w, y as int, x as int);
}

/// Enumerating a stamp from the front yields `width * height` pixels in row-major
/// order: the item at index `y * width + x` is `(x, y)` with its color, and no
/// coordinate comes twice.
pub proof fn lemma_row_major<S: traits::Size>(stamp: &Stamp<S>)
    ensures
        stamp.pixel_seq().len() == stamp.spec_width() * stamp.spec_height(),
        forall|x: usize, y: usize|
            x < stamp.spec_width() && y < stamp.spec_height() ==> #[trigger] stamp.pixel_seq()[y
                * stamp.spec_width() + x] == (x, y, stamp.spec_color(x as int, y as int)),
        forall|i: int, j: int|
            0 <= i < j < stamp.pixel_seq().len() ==> {
                let a = #[trigger] stamp.pixel_seq()[i];
                let b = #[trigger] stamp.pixel_seq()[j];
                a.0 != b.0 || a.1 != b.1
            },
{
    let w = stamp.spec_width() as int;
    let h = stamp.spec_height() as int;
    let s = stamp.pixel_seq();
    assert forall|x: usize, y: usize|
        x < stamp.spec_width() && y < stamp.spec_height() implies #[trigger] s[y * w + x] == (
            x,
            y,
            stamp.spec_color(x as int, y as int),
        ) by {
        lemma_pixel_at(stamp, x, y);
    }
    assert forall|i: int, j: int| 0 <= i < j < s.len() implies {
        let a = #[trigger] s[i];
        let b = #[trigger] s[j];
        a.0 != b.0 || a.1 != b.1
    } by {
        lemma_fundamental_div_mod(i, w);
        lemma_fundamental_div_mod(j, w);
        lemma_mod_bound(i, w);
        lemma_mod_bound(j, w);
        lemma_quotient_bound(i, w, h);
        lemma_quotient_bound(j, w, h);
    }
}

/// The row of pixel `i` lies inside the image.
proof fn lemma_quotient_bound(i: int, w: int, h: int)
    requires
        0 <= i < w * h,
        w > 0,
    ensures
        0 <= i / w < h,
{
    lemma_fundamental_div_mod(i, w);
    lemma_mod_bound(i, w);
    let q = i / w;
    let r = i % w;
    assert(0 <= q < h) by (nonlinear_arith)
        requires
            i == w * q + r,
            0 <= r < w,
            0 <= i < w * h,
    ;
}

/// Remainder bounds for a positive divisor.
proof fn lemma_mod_bound(i: int, w: int)
    requires
        w > 0,
    ensures
        0 <= i % w < w,
{
}

impl<'a, S: traits::Size> Cursor<'a, S> {
    fn new(stamp: &'a Stamp<S>) -> (r: Self)
        ensures
            r.x == 0,
            r.y == 0,
            r.stamp == stamp,
    {
        Cursor { x: 0, y: 0, stamp }
    }

    /// Yields the pixel under the cursor and moves one step forward, from the end of
    /// a row to the start of the next and from the last row to the first.
    fn next(&mut self) -> (r: Option<Pixel>)
        requires
            on_grid(old(self).stamp, old(self).x, old(self).y),
        ensures
            final(self).stamp == old(self).stamp,
            on_grid(final(self).stamp, final(self).x, final(self).y),
            r == Some(
                old(self).stamp.pixel_seq()[index_of(old(self).stamp, old(self).x, old(self).y)],
            ),
            index_of(final(self).stamp, final(self).x, final(self).y) == if index_of(
                old(self).stamp,
                old(self).x,
                old(self).y,
            ) + 1 == old(self).stamp.spec_pixel_count() {
                0
            } else {
                index_of(old(self).stamp, old(self).x, old(self).y) + 1
            },
    {
        proof {
            lemma_pixel_at(self.stamp, self.x, self.y);
        }
        let color = match self.stamp.get_color_checked(self.x, self.y) {
            Some(color) => color,
            None => return None,
        };
        let res: Pixel = (self.x, self.y, color);
        let ghost old_index = index_of(self.stamp, self.x, self.y);
        let ghost w = self.stamp.spec_width() as int;
        let ghost h = self.stamp.spec_height() as int;
        let ghost ox = self.x as int;
        let ghost oy = self.y as int;

        self.x += 1;
        if self.x == self.stamp.width() {
            self.x = 0;
            self.y += 1;
            proof {
                assert(old_index + 1 == (oy + 1) * w) by (nonlinear_arith)
                    requires
                        old_index == oy * w + ox,
                        ox + 1 == w,
                ;
            }
            if self.y == self.stamp.height() {
                proof {
                    assert(old_index + 1 == w * h) by (nonlinear_arith)
                        requires
                            old_index + 1 == (oy + 1) * w,
                            oy + 1 == h,
                    ;
                }
                self.y = 0;
                assert(index_of(self.stamp, self.x, self.y) == 0);
            } else {
                proof {
                    assert(old_index + 1 < w * h) by (nonlinear_arith)
                        requires
                            old_index + 1 == (oy + 1) * w,
                            oy + 1 < h,
                            w > 0,
                    ;
                }
                assert(index_of(self.stamp, self.x, self.y) == old_index + 1);
            }
        } else {
            proof {
                assert(oy * w + w <= w * h) by (nonlinear_arith)
                    requires
                        oy + 1 <= h,
                        w >= 0,
                ;
                assert(index_of(self.stamp, self.x, self.y) == old_index + 1);
            }
        }
        Some(res)
    }
}

impl<'a, S: traits::Size> CursorBack<'a, S> {
    fn new(stamp: &'a Stamp<S>) -> (r: Self)
        ensures
            r.stamp == stamp,
            stamp.spec_pixel_count() > 0 ==> on_grid(stamp, r.x, r.y) && index_of(
                stamp,
                r.x,
                r.y,
            ) == stamp.spec_pixel_count() - 1,
    {
        let r = CursorBack {
            x: stamp.width().saturating_sub(1),
            y: stamp.height().saturating_sub(1),
            stamp,
        };
        proof {
            let w = stamp.spec_width() as int;
            let h = stamp.spec_height() as int;
            if w * h > 0 {
                assert(w > 0 && h > 0) by (nonlinear_arith)
                    requires
                        w * h > 0,
                        w >= 0,
                        h >= 0,
                ;
                assert((h - 1) * w + (w - 1) == w * h - 1) by (nonlinear_arith);
            }
        }
        r
    }

    /// Yields the pixel under the cursor and moves one step backward, from the start
    /// of a row to the end of the previous and from the first row to the last.
    fn next(&mut self) -> (r: Option<Pixel>)
        requires
            on_grid(old(self).stamp, old(self).x, old(self).y),
        ensures
            final(self).stamp == old(self).stamp,
            on_grid(final(self).stamp, final(self).x, final(self).y),
            r == Some(
                old(self).stamp.pixel_seq()[index_of(old(self).stamp, old(self).x, old(self).y)],
            ),
            index_of(final(self).stamp, final(self).x, final(self).y) == if index_of(
                old(self).stamp,
                old(self).x,
                old(self).y,
            ) == 0 {
                old(self).stamp.spec_pixel_count() - 1
            } else {
                index_of(old(self).stamp, old(self).x, old(self).y) - 1
            },
    {
        proof {
            lemma_pixel_at(self.stamp, self.x, self.y);
        }
        let color = match self.stamp.get_color_checked(self.x, self.y) {
            Some(color) => color,
            None => return None,
        };
        let res: Pixel = (self.x, self.y, color);
        let ghost old_index = index_of(self.stamp, self.x, self.y);
        let ghost w = self.stamp.spec_width() as int;
        let ghost h = self.stamp.spec_height() as int;

        match self.x.checked_sub(1) {
            Some(x) => self.x = x,
            None => {
                self.x = self.stamp.width().saturating_sub(1);
                match self.y.checked_sub(1) {
                    Some(y) => {
                        self.y = y;
                        proof {
                            assert(old_index - 1 == y * w + (w - 1)) by (nonlinear_arith)
                                requires
                                    old_index == (y + 1) * w,
                            ;
                        }
                    },
                    None => {
                        self.y = self.stamp.height().saturating_sub(1);
                        proof {
                            assert((h - 1) * w + (w - 1) == w * h - 1) by (nonlinear_arith);
                        }
                    },
                }
            },
        }
        Some(res)
    }
}

impl<'a, S: traits::Size> Pixels<'a, S> {
    /// The enumerator's invariant: the pixels from the front cursor to the back
    /// cursor, `remaining` of them, are those still to be yielded.
    pub closed spec fn wf(&self) -> bool {
        let stamp = self.cursor.stamp;
        let front = index_of(stamp, self.cursor.x, self.cursor.y);
        let back = index_of(stamp, self.cursor_back.x, self.cursor_back.y);
        &&& self.cursor_back.stamp == stamp
        &&& 0 <= front
        &&& front + self.remaining <= stamp.spec_pixel_count()
        &&& self.remaining > 0 ==> {
            &&& on_grid(stamp, self.cursor.x, self.cursor.y)
            &&& on_grid(stamp, self.cursor_back.x, self.cursor_back.y)
            &&& back == front + self.remaining - 1
        }
    }

    pub(crate) fn new(stamp: &'a Stamp<S>) -> (r: Self)
        ensures
            r.wf(),
            r@ == stamp.pixel_seq(),
    {
        let r = Pixels {
            cursor: Cursor::new(stamp),
            cursor_back: CursorBack::new(stamp),
            remaining: stamp.pixel_count(),
        };
        assert(r@ =~= stamp.pixel_seq());
        r
    }
}

impl<'a, S: traits::Size> View for Pixels<'a, S> {
    type V = Seq<Pixel>;

    /// The pixels not yet yielded, in row-major order.
    closed spec fn view(&self) -> Seq<Pixel> {
        let stamp = self.cursor.stamp;
        let front = index_of(stamp, self.cursor.x, self.cursor.y);
        stamp.pixel_seq().subrange(front, front + self.remaining)
    }
}

impl<'a, S: traits::Size> Pixels<'a, S> {
    /// Yields the first pixel still left, or `None` once all are gone.
    pub fn next(&mut self) -> (r: Option<Pixel>)
        requires
            old(self).wf(),
        ensures
            final(self).wf(),
            (r, final(self)@) == take_step(old(self)@, false),
    {
        if self.remaining == 0 {
            return None;
        }
        let ghost before = self@;
        self.remaining = self.remaining - 1;
        let r = self.cursor.next();
        assert(self@ =~= before.drop_first());
        r
    }

    /// Yields the last pixel still left, or `None` once all are gone.
    pub fn next_back(&mut self) -> (r: Option<Pixel>)
        requires
            old(self).wf(),
        ensures
            final(self).wf(),
            (r, final(self)@) == take_step(old(self)@, true),
    {
        if self.remaining == 0 {
            return None;
        }
        let ghost before = self@;
        self.remaining = self.remaining - 1;
        let r = self.cursor_back.next();
        assert(self@ =~= before.drop_last());
        r
    }

    /// Number of pixels left.
    pub fn len(&self) -> (r: usize)
        requires
            self.wf(),
        ensures
            r == self@.len(),
    {
        self.remaining
    }

    /// Yields every pixel left, taking from the front: the items in their order.
    pub fn collect_vec(self) -> (r: Vec<Pixel>)
        requires
            self.wf(),
        ensures
            r@ == self@,
    {
        let mut rest = self;
        let mut out: Vec<Pixel> = Vec::new();
        while rest.len() > 0
            invariant
                rest.wf(),
                out@ + rest@ == self@,
            decreases rest@.len(),
        {
            let ghost before = rest@;
            if let Some(p) = rest.next() {
                out.push(p);
            }
            assert(out@ + rest@ =~= self@) by {
                assert(before =~= seq![before[0]] + rest@);
            }
        }
        assert(rest@ =~= Seq::<Pixel>::empty());
        assert(out@ =~= self@);
        out
    }

    /// Yields every pixel left, taking from the back: the items in reverse order.
    pub fn collect_rev(self) -> (r: Vec<Pixel>)
        requires
            self.wf(),
        ensures
            r@ == self@.reverse(),
    {
        let mut rest = self;
        let mut out: Vec<Pixel> = Vec::new();
        while rest.len() > 0
            invariant
                rest.wf(),
                out@ + rest@.reverse() == self@.reverse(),
            decreases rest@.len(),
        {
            let ghost before = rest@;
            if let Some(p) = rest.next_back() {
                out.push(p);
            }
            assert(out@ + rest@.reverse() =~= self@.reverse()) by {
                assert(before.reverse() =~= seq![before.last()] + rest@.reverse());
            }
        }
        assert(rest@.reverse() =~= Seq::<Pixel>::empty());
        assert(out@ =~= self@.reverse());
        out
    }

    /// Bounds on the number of pixels left, both exact.
    pub fn size_hint(&self) -> (r: (usize, Option<usize>))
        requires
            self.wf(),
        ensures
            r == (self@.len() as usize, Some(self@.len() as usize)),
    {
        (self.remaining, Some(self.remaining))
    }
}

} // verus!
