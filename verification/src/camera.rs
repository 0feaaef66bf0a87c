//! Camera-assisted pixel mapping: finding the one lit pixel in a webcam frame.
//!
//! With one LED driven white at a time, the frame differs from a dark
//! baseline frame in a single blob; its brightness-weighted centroid is where
//! the LED sits in camera space.
use vstd::prelude::*;

verus! {

/// A single-channel (luminance) camera frame, row by row.
pub struct Frame {
    pub w: usize,
    pub h: usize,
    pub lum: Vec<u8>,
}

/// How far a luminance `lum` stands above the `base` luminance, counted only
/// when it exceeds `threshold`.
pub open spec fn lit_weight(lum: u8, base: u8, threshold: u8) -> int {
    if lum > base && lum - base > threshold {
        lum - base
    } else {
        0
    }
}

/// The brightness moments of the first `n` cells of a frame `w` pixels wide:
/// the sums of weight * column, weight * row, and weight.
pub open spec fn moments(lum: Seq<u8>, base: Seq<u8>, w: int, threshold: u8, n: nat) -> (
    int,
    int,
    int,
)
    decreases n,
{
    if n == 0 {
        (0, 0, 0)
    } else {
        let m = moments(lum, base, w, threshold, (n - 1) as nat);
        let i = n - 1;
        let wt = lit_weight(lum[i], base[i], threshold);
        (m.0 + wt * (i % w), m.1 + wt * (i / w), m.2 + wt)
    }
}

/// Brightness-weighted sums over the pixels of a frame that stand above a
/// baseline by more than a threshold; the centroid is
/// (`sum_x` / `weight`, `sum_y` / `weight`).
pub struct Moments {
    pub sum_x: u128,
    pub sum_y: u128,
    pub weight: u128,
}

/// A pixel weighs its excess over the baseline when that excess is more
/// than the threshold, and nothing otherwise.
pub proof fn lit_weight_is_excess_over_baseline(lum: u8, base: u8, threshold: u8)
    ensures
        lum as int - base as int > threshold ==> lit_weight(lum, base, threshold) == lum as int
            - base as int,
        lum as int - base as int <= threshold ==> lit_weight(lum, base, threshold) == 0,
{
}

/// The total weight of the first `n` cells is zero exactly when none of them
/// exceeds its baseline by more than the threshold; then all moments are zero.
pub proof fn weight_counts_only_lit_cells(
    lum: Seq<u8>,
    base: Seq<u8>,
    w: int,
    threshold: u8,
    n: nat,
)
    requires
        n <= lum.len(),
        n <= base.len(),
    ensures
        moments(lum, base, w, threshold, n).2 == 0 <==> forall|i: int|
            0 <= i < n ==> #[trigger] lum[i] as int - base[i] as int <= threshold,
        (forall|i: int| 0 <= i < n ==> #[trigger] lum[i] as int - base[i] as int <= threshold)
            ==> moments(lum, base, w, threshold, n) == (0int, 0int, 0int),
        moments(lum, base, w, threshold, n).2 >= 0,
    decreases n,
{
    if n > 0 {
        weight_counts_only_lit_cells(lum, base, w, threshold, (n - 1) as nat);
        let i = n - 1;
        if lum[i] as int - base[i] as int > threshold {
            assert(!(forall|j: int| 0 <= j < n ==> #[trigger] lum[j] as int - base[j] as int
                <= threshold));
        }
        if forall|j: int| 0 <= j < n ==> #[trigger] lum[j] as int - base[j] as int <= threshold {
            assert(lum[i] as int - base[i] as int <= threshold);
            assert(forall|j: int| 0 <= j < n - 1 ==> #[trigger] lum[j] as int - base[j] as int
                <= threshold);
        }
        if moments(lum, base, w, threshold, n).2 == 0 {
            assert forall|j: int| 0 <= j < n implies #[trigger] lum[j] as int - base[j] as int
                <= threshold by {
                if j < n - 1 {
                }
            }
        }
    }
}

/// A frame with a single lit cell `k` (excess `e` over its baseline) has the
/// moments of that cell alone: `e` times its column, `e` times its row, `e`.
pub proof fn single_lit_cell_moments(
    lum: Seq<u8>,
    base: Seq<u8>,
    w: int,
    threshold: u8,
    k: int,
    n: nat,
)
    requires
        w > 0,
        0 <= k < n <= lum.len(),
        n <= base.len(),
        lum[k] as int - base[k] as int > threshold,
        forall|i: int| 0 <= i < n && i != k ==> #[trigger] lum[i] as int - base[i] as int <= threshold,
    ensures
        ({
            let e = lum[k] as int - base[k] as int;
            moments(lum, base, w, threshold, n) == (e * (k % w), e * (k / w), e)
        }),
    decreases n,
{
    if n - 1 == k {
        weight_counts_only_lit_cells(lum, base, w, threshold, (n - 1) as nat);
        assert(forall|i: int| 0 <= i < n - 1 ==> #[trigger] lum[i] as int - base[i] as int
            <= threshold);
    } else {
        single_lit_cell_moments(lum, base, w, threshold, k, (n - 1) as nat);
    }
}

proof fn lemma_moments_bound(lum: Seq<u8>, base: Seq<u8>, w: int, h: int, threshold: u8, n: nat)
    requires
        w > 0,
        n <= w * h,
    ensures
        0 <= moments(lum, base, w, threshold, n).0 <= 255 * w * n,
        0 <= moments(lum, base, w, threshold, n).1 <= 255 * h * n,
        0 <= moments(lum, base, w, threshold, n).2 <= 255 * n,
    decreases n,
{
    if n > 0 {
        lemma_moments_bound(lum, base, w, h, threshold, (n - 1) as nat);
        let i = n - 1;
        let wt = lit_weight(lum[i], base[i], threshold);
        assert(0 <= wt <= 255);
        assert(0 <= i % w < w);
        assert(i / w < h) by (nonlinear_arith)
            requires
                0 <= i < w * h,
                w > 0,
        ;
        assert(0 <= i / w) by (nonlinear_arith)
            requires
                0 <= i,
                w > 0,
        ;
        assert(0 <= wt * (i % w) <= 255 * w) by (nonlinear_arith)
            requires
                0 <= wt <= 255,
                0 <= i % w < w,
        ;
        assert(0 <= wt * (i / w) <= 255 * h) by (nonlinear_arith)
            requires
                0 <= wt <= 255,
                0 <= i / w < h,
        ;
        assert(255 * w * (n - 1) + 255 * w == 255 * w * n) by (nonlinear_arith);
        assert(255 * h * (n - 1) + 255 * h == 255 * h * n) by (nonlinear_arith);
    }
}

/// The brightness moments of the pixels of `frame` that exceed the matching
/// pixel of `baseline` by more than `threshold` (subtracting the dark
/// baseline rejects ambient light); `None` when no pixel is bright enough.
pub fn centroid_moments(frame: &Frame, baseline: &Frame, threshold: u8) -> (r: Option<Moments>)
    requires
        frame.w * frame.h <= frame.lum@.len(),
        frame.w * frame.h <= baseline.lum@.len(),
        frame.w <= u32::MAX,
        frame.h <= u32::MAX,
    ensures
        ({
            let m = moments(
                frame.lum@,
                baseline.lum@,
                frame.w as int,
                threshold,
                (frame.w * frame.h) as nat,
            );
            match r {
                None => m.2 == 0,
                Some(mo) => m.2 != 0 && mo.sum_x == m.0 && mo.sum_y == m.1 && mo.weight == m.2,
            }
        }),
        r is None <==> forall|i: int|
            0 <= i < frame.w * frame.h ==> #[trigger] frame.lum@[i] as int - baseline.lum@[i] as int
                <= threshold,
{
    let w = frame.w;
    let h = frame.h;
    if w == 0 {
        assert(w * h == 0) by (nonlinear_arith)
            requires
                w == 0,
        ;
        assert(moments(frame.lum@, baseline.lum@, w as int, threshold, 0).2 == 0);
        return None;
    }
    let ghost fl = frame.lum@;
    let ghost bl = baseline.lum@;
    let mut sx: u128 = 0;
    let mut sy: u128 = 0;
    let mut sw: u128 = 0;
    let mut y: usize = 0;
    while y < h
        invariant
            w == frame.w,
            h == frame.h,
            fl == frame.lum@,
            bl == baseline.lum@,
            w * h <= fl.len(),
            w * h <= bl.len(),
            w <= u32::MAX,
            h <= u32::MAX,
            y <= h,
            w > 0,
            (sx as int, sy as int, sw as int) == moments(fl, bl, w as int, threshold, (y * w) as nat),
        decreases h - y,
    {
        let mut x: usize = 0;
        while x < w
            invariant
                w == frame.w,
                h == frame.h,
                fl == frame.lum@,
                bl == baseline.lum@,
                w * h <= fl.len(),
                w * h <= bl.len(),
                w <= u32::MAX,
                h <= u32::MAX,
                y < h,
                x <= w,
                w > 0,
                (sx as int, sy as int, sw as int) == moments(fl, bl, w as int, threshold, (y * w + x) as nat),
            decreases w - x,
        {
            let ghost n = (y * w + x) as nat;
            proof {
                assert(0 <= y * w) by (nonlinear_arith);
                assert(frame.lum@.len() == frame.lum.len());
                assert(baseline.lum@.len() == baseline.lum.len());
                assert(y * w + x < w * h) by (nonlinear_arith)
                    requires
                        x < w,
                        y < h,
                ;
                assert((n as int) / (w as int) == y && (n as int) % (w as int) == x) by (nonlinear_arith)
                    requires
                        x < w,
                        n == y * w + x,
                ;
                lemma_moments_bound(fl, bl, w as int, h as int, threshold, n + 1);
                assert(255 * (w as int) * (n + 1) <= 255 * 0x1_0000_0000 * 0x1_0000_0000_0000_0000) by (nonlinear_arith)
                    requires
                        n + 1 <= w * h,
                        w <= 0x1_0000_0000,
                        h <= 0x1_0000_0000,
                ;
                assert(255 * (h as int) * (n + 1) <= 255 * 0x1_0000_0000 * 0x1_0000_0000_0000_0000) by (nonlinear_arith)
                    requires
                        n + 1 <= w * h,
                        w <= 0x1_0000_0000,
                        h <= 0x1_0000_0000,
                ;
            }
            let i = y * w + x;
            let a = frame.lum[i];
            let b = baseline.lum[i];
            let lit: u8 = if a > b {
                a - b
            } else {
                0
            };
            if lit > threshold {
                sx = sx + (lit as u128) * (x as u128);
                sy = sy + (lit as u128) * (y as u128);
                sw = sw + lit as u128;
            }
            x = x + 1;
        }
        proof {
            assert(y * w + w == (y + 1) * w) by (nonlinear_arith);
        }
        y = y + 1;
    }
    proof {
        assert(y * w == w * h) by (nonlinear_arith)
            requires
                y == h,
        ;
    }
    proof {
        weight_counts_only_lit_cells(fl, bl, w as int, threshold, (w * h) as nat);
    }
    if sw > 0 {
        Some(Moments { sum_x: sx, sum_y: sy, weight: sw })
    } else {
        None
    }
}

} // verus!
