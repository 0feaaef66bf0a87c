//! The canvas: a fixed-resolution RGB framebuffer, the substrate that effects
//! render into and that every output pixel samples.
use vstd::prelude::*;

verus! {

/// An 8-bit RGB colour.
pub type Rgb = [u8; 3];

/// A `w` x `h` RGB framebuffer stored row by row: pixel `(x, y)` is
/// `px[y * w + x]`.
pub struct Canvas {
    pub w: usize,
    pub h: usize,
    pub px: Vec<Rgb>,
}

/// The colour black.
pub open spec fn black() -> Rgb {
    [0u8, 0u8, 0u8]
}

/// Index of pixel `(x, y)` in a row-major buffer `w` pixels wide.
pub open spec fn cell_index(w: int, x: int, y: int) -> int {
    y * w + x
}

impl Canvas {
    /// A black `w` x `h` canvas.
    pub fn new(w: usize, h: usize) -> (c: Canvas)
        requires
            w * h <= usize::MAX,
        ensures
            c.w == w,
            c.h == h,
            c.px@ == Seq::new((w * h) as nat, |i: int| black()),
    {
        let n: usize = w * h;
        let mut px: Vec<Rgb> = Vec::with_capacity(n);
        let mut i: usize = 0;
        while i < n
            invariant
                i <= n,
                px@ == Seq::new(i as nat, |k: int| black()),
            decreases n - i,
        {
            px.push([0u8, 0u8, 0u8]);
            assert(px@ =~= Seq::new((i + 1) as nat, |k: int| black()));
            i = i + 1;
        }
        Canvas { w, h, px }
    }

    /// Paint pixel `(x, y)` with colour `c`.
    pub fn set(&mut self, x: usize, y: usize, c: Rgb)
        requires
            cell_index(old(self).w as int, x as int, y as int) < old(self).px@.len(),
        ensures
            final(self).w == old(self).w,
            final(self).h == old(self).h,
            final(self).px@ == old(self).px@.update(
                cell_index(old(self).w as int, x as int, y as int),
                c,
            ),
    {
        proof {
            assert(0 <= y * self.w) by (nonlinear_arith);
            assert(self.px@.len() == self.px.len());
        }
        let i = y * self.w + x;
        self.px.set(i, c);
    }

    /// The colour of pixel `(x, y)`.
    pub fn at(&self, x: usize, y: usize) -> (c: Rgb)
        requires
            cell_index(self.w as int, x as int, y as int) < self.px@.len(),
        ensures
            c == self.px@[cell_index(self.w as int, x as int, y as int)],
    {
        proof {
            assert(0 <= y * self.w) by (nonlinear_arith);
            assert(self.px@.len() == self.px.len());
        }
        self.px[y * self.w + x]
    }
}


/// A read after a write gives back what was written: once pixel `(x, y)` of
/// a `w`-wide buffer `px` is painted with `c`, reading it yields `c`, and
/// every other pixel keeps its colour.
pub proof fn painted_pixel_reads_back(px: Seq<Rgb>, w: int, x: int, y: int, c: Rgb)
    requires
        0 <= cell_index(w, x, y) < px.len(),
    ensures
        px.update(cell_index(w, x, y), c)[cell_index(w, x, y)] == c,
        forall|i: int|
            0 <= i < px.len() && i != cell_index(w, x, y) ==> #[trigger] px.update(
                cell_index(w, x, y),
                c,
            )[i] == px[i],
{
}

} // verus!
