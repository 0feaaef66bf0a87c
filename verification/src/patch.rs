//! The patch: Controller -> Output -> Strip -> Pixel.
//!
//! Each output is an ordered strip of pixels with one pixel format; the DMX
//! address of every pixel is derived by packing outputs contiguously from a
//! base universe, never authored by hand.
use vstd::prelude::*;
use vstd::arithmetic::div_mod::{lemma_fundamental_div_mod, lemma_fundamental_div_mod_converse};

verus! {

/// How a pixel's RGB sample is laid into DMX channels.
#[derive(Clone, Copy, Debug, PartialEq, Eq, Structural)]
pub enum PixelFormat {
    /// One channel: luminance (a dimmer or a single-colour lamp).
    Mono,
    /// Three channels, red first.
    Rgb,
    /// Three channels, green first (common on addressable strips).
    Grb,
    /// Four channels, with the common white part extracted.
    Rgbw,
}

/// Physical wiring order of a matrix output.
#[derive(Clone, Copy, Debug, PartialEq, Eq, Structural)]
pub enum Wiring {
    /// Every row runs left to right.
    Contiguous,
    /// Every other row runs right to left (boustrophedon).
    Serpentine,
}

/// Number of DMX channels one pixel of format `f` occupies.
pub open spec fn channel_count(f: PixelFormat) -> nat {
    match f {
        PixelFormat::Mono => 1,
        PixelFormat::Rgb => 3,
        PixelFormat::Grb => 3,
        PixelFormat::Rgbw => 4,
    }
}

/// Relative luminance of an 8-bit colour, with the Rec. 709 weights
/// 0.2126 / 0.7152 / 0.0722, rounded to the nearest integer (halves up).
pub open spec fn luma(c: [u8; 3]) -> int {
    (2126 * c[0] + 7152 * c[1] + 722 * c[2] + 5000) / 10000
}

/// The smallest of the three components.
pub open spec fn min3(c: [u8; 3]) -> u8 {
    if c[0] <= c[1] && c[0] <= c[2] {
        c[0]
    } else if c[1] <= c[2] {
        c[1]
    } else {
        c[2]
    }
}

/// The DMX channel values that encode colour `c` in format `f`.
pub open spec fn encoded(f: PixelFormat, c: [u8; 3]) -> Seq<u8> {
    match f {
        PixelFormat::Mono => seq![luma(c) as u8],
        PixelFormat::Rgb => seq![c[0], c[1], c[2]],
        PixelFormat::Grb => seq![c[1], c[0], c[2]],
        PixelFormat::Rgbw => {
            let w = min3(c);
            seq![(c[0] - w) as u8, (c[1] - w) as u8, (c[2] - w) as u8, w]
        },
    }
}

/// RGBW encoding moves the common part of the three components into the
/// white channel and loses no colour: white is at most each of red, green and
/// blue, each colour channel plus white gives back that component, and at
/// least one colour channel is left at zero (white is the smallest
/// component).
pub proof fn rgbw_splits_off_white(c: [u8; 3])
    ensures
        encoded(PixelFormat::Rgbw, c).len() == 4,
        forall|i: int| 0 <= i < 3 ==> encoded(PixelFormat::Rgbw, c)[3] <= c[i],
        forall|i: int|
            0 <= i < 3 ==> encoded(PixelFormat::Rgbw, c)[i] + encoded(PixelFormat::Rgbw, c)[3]
                == c[i],
        encoded(PixelFormat::Rgbw, c)[0] == 0 || encoded(PixelFormat::Rgbw, c)[1] == 0
            || encoded(PixelFormat::Rgbw, c)[2] == 0,
{
}

/// Luminance of `c` as one DMX value.
pub fn luma8(c: [u8; 3]) -> (l: u8)
    ensures
        l == luma(c),
{
    let s: u32 = 2126 * (c[0] as u32) + 7152 * (c[1] as u32) + 722 * (c[2] as u32) + 5000;
    assert(s / 10000 <= 255) by (nonlinear_arith)
        requires
            s <= 2126 * 255 + 7152 * 255 + 722 * 255 + 5000,
    ;
    (s / 10000) as u8
}

impl PixelFormat {
    /// Number of DMX channels one pixel of this format occupies.
    pub fn channels(self) -> (n: usize)
        ensures
            n == channel_count(self),
    {
        match self {
            PixelFormat::Mono => 1,
            PixelFormat::Rgb | PixelFormat::Grb => 3,
            PixelFormat::Rgbw => 4,
        }
    }

    /// Encode an RGB sample into the first `channels()` slots of `out`;
    /// the rest of `out` is left as it was.
    pub fn encode(self, c: [u8; 3], out: &mut [u8])
        requires
            old(out)@.len() >= channel_count(self),
        ensures
            final(out)@ == encoded(self, c) + old(out)@.skip(channel_count(self) as int),
            self == PixelFormat::Rgbw ==> {
                &&& forall|i: int| 0 <= i < 3 ==> final(out)@[3] <= c[i]
                &&& forall|i: int| 0 <= i < 3 ==> final(out)@[i] + final(out)@[3] == c[i]
                &&& (final(out)@[0] == 0 || final(out)@[1] == 0 || final(out)@[2] == 0)
            },
    {
        proof {
            rgbw_splits_off_white(c);
        }
        match self {
            PixelFormat::Mono => {
                out[0] = luma8(c);
            },
            PixelFormat::Rgb => {
                out[0] = c[0];
                out[1] = c[1];
                out[2] = c[2];
            },
            PixelFormat::Grb => {
                out[0] = c[1];
                out[1] = c[0];
                out[2] = c[2];
            },
            PixelFormat::Rgbw => {
                let w = if c[0] <= c[1] && c[0] <= c[2] {
                    c[0]
                } else if c[1] <= c[2] {
                    c[1]
                } else {
                    c[2]
                };
                out[0] = c[0] - w;
                out[1] = c[1] - w;
                out[2] = c[2] - w;
                out[3] = w;
            },
        }
        assert(out@ =~= encoded(self, c) + old(out)@.skip(channel_count(self) as int));
    }
}


/// An ordered strip of pixels on one physical port: one pixel format, and
/// one canvas-space position `(u, v)` per pixel, in wire order.
///
/// The position type is left open: the library only carries positions
/// through, it never computes with them.
pub struct Output<P> {
    pub format: PixelFormat,
    pub positions: Vec<(P, P)>,
}

/// One addressed output point: where it samples the canvas, and the DMX
/// universe and first channel (0-based) it occupies.
pub struct Pixel<P> {
    pub u: P,
    pub v: P,
    pub universe: u16,
    pub channel: usize,
    pub format: PixelFormat,
}

/// Number of DMX channels in one universe.
pub open spec fn universe_size() -> int {
    512
}

/// The formats of one output's pixels, one entry per pixel.
pub open spec fn block_formats<P>(o: Output<P>) -> Seq<PixelFormat> {
    Seq::new(o.positions@.len(), |i: int| o.format)
}

/// The formats of all pixels of `outputs`, output after output, in wire order.
pub open spec fn pixel_formats<P>(outputs: Seq<Output<P>>) -> Seq<PixelFormat>
    decreases outputs.len(),
{
    if outputs.len() == 0 {
        Seq::empty()
    } else {
        pixel_formats(outputs.drop_last()) + block_formats(outputs.last())
    }
}

/// The positions of all pixels of `outputs`, output after output, in wire order.
pub open spec fn pixel_positions<P>(outputs: Seq<Output<P>>) -> Seq<(P, P)>
    decreases outputs.len(),
{
    if outputs.len() == 0 {
        Seq::empty()
    } else {
        pixel_positions(outputs.drop_last()) + outputs.last().positions@
    }
}

/// Where a pixel `width` channels wide goes when the next free address is
/// `at` = (universe, channel): at `at` if it fits in that universe, else at
/// channel 0 of the next universe.
pub open spec fn slot(at: (int, int), width: int) -> (int, int) {
    if at.1 + width > universe_size() {
        (at.0 + 1, 0)
    } else {
        at
    }
}

/// The next free address after packing pixels of formats `fmts` from
/// channel 0 of universe `base`.
pub open spec fn cursor(fmts: Seq<PixelFormat>, base: int) -> (int, int)
    decreases fmts.len(),
{
    if fmts.len() == 0 {
        (base, 0)
    } else {
        let w = channel_count(fmts.last()) as int;
        let s = slot(cursor(fmts.drop_last(), base), w);
        (s.0, s.1 + w)
    }
}

/// The (universe, channel) of the `k`-th pixel when pixels of formats `fmts`
/// are packed from channel 0 of universe `base`.
pub open spec fn address(fmts: Seq<PixelFormat>, base: int, k: int) -> (int, int) {
    slot(cursor(fmts.take(k), base), channel_count(fmts[k]) as int)
}

/// Whether packing `outputs` from `base` stays within the 16-bit universe range.
pub open spec fn fits_universes<P>(base: u16, outputs: Seq<Output<P>>) -> bool {
    cursor(pixel_formats(outputs), base as int).0 <= u16::MAX
}

/// `pixels` is the list that packing `outputs` from `base` yields.
pub open spec fn derived_from<P>(pixels: Seq<Pixel<P>>, base: u16, outputs: Seq<Output<P>>) -> bool {
    let fmts = pixel_formats(outputs);
    let pos = pixel_positions(outputs);
    &&& pixels.len() == fmts.len()
    &&& forall|k: int|
        0 <= k < pixels.len() ==> {
            let p = #[trigger] pixels[k];
            let a = address(fmts, base as int, k);
            &&& p.format == fmts[k]
            &&& (p.u, p.v) == pos[k]
            &&& p.universe == a.0
            &&& p.channel == a.1
        }
}

proof fn lemma_cursor_bounds(fmts: Seq<PixelFormat>, base: int)
    ensures
        base <= cursor(fmts, base).0,
        0 <= cursor(fmts, base).1 <= universe_size(),
    decreases fmts.len(),
{
    if fmts.len() > 0 {
        lemma_cursor_bounds(fmts.drop_last(), base);
    }
}

proof fn lemma_cursor_monotone(fmts: Seq<PixelFormat>, base: int, i: int)
    requires
        0 <= i <= fmts.len(),
    ensures
        cursor(fmts.take(i), base).0 <= cursor(fmts, base).0,
    decreases fmts.len(),
{
    if i == fmts.len() {
        assert(fmts.take(i) =~= fmts);
    } else {
        assert(fmts.take(i) =~= fmts.drop_last().take(i));
        lemma_cursor_monotone(fmts.drop_last(), base, i);
    }
}

proof fn lemma_cursor_step(fmts: Seq<PixelFormat>, base: int, k: int)
    requires
        0 <= k < fmts.len(),
    ensures
        cursor(fmts.take(k + 1), base) == ({
            let a = address(fmts, base, k);
            (a.0, a.1 + channel_count(fmts[k]))
        }),
{
    assert(fmts.take(k + 1).drop_last() =~= fmts.take(k));
}

proof fn lemma_flatten_len<P>(outputs: Seq<Output<P>>)
    ensures
        pixel_formats(outputs).len() == pixel_positions(outputs).len(),
    decreases outputs.len(),
{
    if outputs.len() > 0 {
        lemma_flatten_len(outputs.drop_last());
    }
}

proof fn lemma_flatten_prefix<P>(outputs: Seq<Output<P>>, i: int)
    requires
        0 <= i <= outputs.len(),
    ensures
        pixel_formats(outputs.take(i)).len() == pixel_positions(outputs.take(i)).len(),
        pixel_formats(outputs.take(i)).len() <= pixel_formats(outputs).len(),
        pixel_formats(outputs.take(i)) =~= pixel_formats(outputs).take(
            pixel_formats(outputs.take(i)).len() as int,
        ),
        pixel_positions(outputs.take(i)) =~= pixel_positions(outputs).take(
            pixel_positions(outputs.take(i)).len() as int,
        ),
    decreases outputs.len(),
{
    lemma_flatten_len(outputs.take(i));
    lemma_flatten_len(outputs);
    if i == outputs.len() {
        assert(outputs.take(i) =~= outputs);
    } else {
        let d = outputs.drop_last();
        assert(outputs.take(i) =~= d.take(i));
        lemma_flatten_prefix(d, i);
        lemma_flatten_len(d);
        let m = pixel_formats(outputs.take(i)).len() as int;
        assert(pixel_formats(outputs).take(m) =~= pixel_formats(d).take(m));
        assert(pixel_positions(outputs).take(m) =~= pixel_positions(d).take(m));
    }
}

proof fn lemma_flatten_grow<P>(outputs: Seq<Output<P>>, i: int)
    requires
        0 <= i < outputs.len(),
    ensures
        pixel_formats(outputs.take(i + 1)) == pixel_formats(outputs.take(i)) + block_formats(
            outputs[i],
        ),
        pixel_positions(outputs.take(i + 1)) == pixel_positions(outputs.take(i))
            + outputs[i].positions@,
{
    assert(outputs.take(i + 1).drop_last() =~= outputs.take(i));
}

/// Derive per-pixel addresses by packing `outputs` contiguously from channel
/// 0 of `base_universe`, rolling to the next universe whenever a pixel would
/// not fit in the 512 channels left; `None` when that runs past universe
/// 65535.
pub fn derive_checked<P: Copy>(base_universe: u16, outputs: &[Output<P>]) -> (r: Option<
    Vec<Pixel<P>>,
>)
    ensures
        r is None <==> !fits_universes(base_universe, outputs@),
        r matches Some(pixels) ==> derived_from(pixels@, base_universe, outputs@),
{
    let ghost os = outputs@;
    let ghost fmts = pixel_formats(os);
    let ghost pos = pixel_positions(os);
    let ghost base = base_universe as int;
    let mut pixels: Vec<Pixel<P>> = Vec::new();
    let mut universe: u16 = base_universe;
    let mut channel: usize = 0;
    let mut oi: usize = 0;
    proof {
        lemma_flatten_len(os);
        assert(os.take(0) =~= Seq::<Output<P>>::empty());
        assert(fmts.take(0) =~= Seq::<PixelFormat>::empty());
    }
    while oi < outputs.len()
        invariant
            os == outputs@,
            fmts == pixel_formats(os),
            pos == pixel_positions(os),
            pos.len() == fmts.len(),
            base == base_universe as int,
            0 <= oi <= os.len(),
            pixels@.len() == pixel_formats(os.take(oi as int)).len(),
            pixels@.len() <= fmts.len(),
            (universe as int, channel as int) == cursor(fmts.take(pixels@.len() as int), base),
            forall|k: int|
                0 <= k < pixels@.len() ==> {
                    let p = #[trigger] pixels@[k];
                    let a = address(fmts, base, k);
                    &&& p.format == fmts[k]
                    &&& (p.u, p.v) == pos[k]
                    &&& p.universe == a.0
                    &&& p.channel == a.1
                },
        decreases os.len() - oi,
    {
        let o = &outputs[oi];
        let fmt = o.format;
        let w = fmt.channels();
        let n = o.positions.len();
        let ghost start = pixels@.len() as int;
        proof {
            lemma_flatten_grow(os, oi as int);
            lemma_flatten_prefix(os, oi as int + 1);
            lemma_flatten_len(os.take(oi as int));
        }
        assert(start + n <= fmts.len());
        let mut j: usize = 0;
        while j < n
            invariant
                os == outputs@,
                fmts == pixel_formats(os),
                pos == pixel_positions(os),
                pos.len() == fmts.len(),
                base == base_universe as int,
                0 <= oi < os.len(),
                o == &os[oi as int],
                fmt == o.format,
                w == channel_count(fmt),
                n == o.positions@.len(),
                0 <= j <= n,
                start + n <= fmts.len(),
                pixel_positions(os.take(oi as int)).len() == start,
                start == pixel_formats(os.take(oi as int)).len(),
                pixel_formats(os.take(oi as int + 1)) == pixel_formats(os.take(oi as int))
                    + block_formats(os[oi as int]),
                pixel_positions(os.take(oi as int + 1)) == pixel_positions(os.take(oi as int))
                    + os[oi as int].positions@,
                pixel_formats(os.take(oi as int + 1)).len() == pixel_positions(
                    os.take(oi as int + 1),
                ).len(),
                pixel_formats(os.take(oi as int + 1)) =~= fmts.take(
                    pixel_formats(os.take(oi as int + 1)).len() as int,
                ),
                pixel_positions(os.take(oi as int + 1)) =~= pos.take(
                    pixel_positions(os.take(oi as int + 1)).len() as int,
                ),
                pixels@.len() == start + j,
                (universe as int, channel as int) == cursor(fmts.take(pixels@.len() as int), base),
                forall|k: int|
                    0 <= k < pixels@.len() ==> {
                        let p = #[trigger] pixels@[k];
                        let a = address(fmts, base, k);
                        &&& p.format == fmts[k]
                        &&& (p.u, p.v) == pos[k]
                        &&& p.universe == a.0
                        &&& p.channel == a.1
                    },
            decreases n - j,
        {
            let ghost k = pixels@.len() as int;
            proof {
                lemma_cursor_bounds(fmts.take(k), base);
                assert(pixel_formats(os.take(oi as int + 1))[k] == fmt);
                assert(fmts[k] == fmt);
                assert(pixel_positions(os.take(oi as int + 1))[k] == o.positions@[j as int]);
                assert(pixel_positions(os.take(oi as int + 1)).len() == start + n);
                assert(pos.take(start + n)[k] == pos[k]);
                assert(pos[k] == o.positions@[j as int]);
                lemma_cursor_step(fmts, base, k);
            }
            if channel + w > 512 {
                if universe == u16::MAX {
                    proof {
                        lemma_cursor_monotone(fmts, base, k + 1);
                    }
                    return None;
                }
                universe = universe + 1;
                channel = 0;
            }
            let (u, v) = o.positions[j];
            pixels.push(Pixel { u, v, universe, channel, format: fmt });
            channel = channel + w;
            j = j + 1;
        }
        oi = oi + 1;
    }
    proof {
        assert(os.take(os.len() as int) =~= os);
        assert(fmts.take(fmts.len() as int) =~= fmts);
    }
    Some(pixels)
}

/// Derive per-pixel addresses by packing `outputs` contiguously from channel
/// 0 of `base_universe`, rolling to the next universe whenever a pixel would
/// not fit in the 512 channels left.
pub fn derive<P: Copy>(base_universe: u16, outputs: &[Output<P>]) -> (pixels: Vec<Pixel<P>>)
    requires
        fits_universes(base_universe, outputs@),
    ensures
        derived_from(pixels@, base_universe, outputs@),
{
    match derive_checked(base_universe, outputs) {
        Some(pixels) => pixels,
        None => Vec::new(),
    }
}


/// Packing law of derived addresses. For pixels of formats `fmts` packed from
/// universe `base`: the first pixel sits at channel 0 of `base`; every pixel
/// lies wholly inside its universe's 512 channels; and each next pixel starts
/// right after the previous one in the same universe when it fits there, and
/// at channel 0 of the next universe exactly when it does not.
pub proof fn derive_packs_contiguously(fmts: Seq<PixelFormat>, base: int)
    ensures
        fmts.len() > 0 ==> address(fmts, base, 0) == (base, 0int),
        forall|k: int|
            0 <= k < fmts.len() ==> 0 <= (#[trigger] address(fmts, base, k)).1 && address(
                fmts,
                base,
                k,
            ).1 + channel_count(fmts[k]) <= universe_size(),
        forall|k: int|
            0 <= k < fmts.len() - 1 ==> {
                let a = #[trigger] address(fmts, base, k);
                let b = address(fmts, base, k + 1);
                let end = a.1 + channel_count(fmts[k]);
                ||| end + channel_count(fmts[k + 1]) <= universe_size() && b == (a.0, end)
                ||| end + channel_count(fmts[k + 1]) > universe_size() && b == (a.0 + 1, 0int)
            },
{
    if fmts.len() > 0 {
        assert(fmts.take(0) =~= Seq::<PixelFormat>::empty());
    }
    assert forall|k: int| 0 <= k < fmts.len() implies 0 <= (#[trigger] address(
        fmts,
        base,
        k,
    )).1 && address(fmts, base, k).1 + channel_count(fmts[k]) <= universe_size() by {
        lemma_cursor_bounds(fmts.take(k), base);
    }
    assert forall|k: int| 0 <= k < fmts.len() - 1 implies {
        let a = #[trigger] address(fmts, base, k);
        let b = address(fmts, base, k + 1);
        let end = a.1 + channel_count(fmts[k]);
        ||| end + channel_count(fmts[k + 1]) <= universe_size() && b == (a.0, end)
        ||| end + channel_count(fmts[k + 1]) > universe_size() && b == (a.0 + 1, 0int)
    } by {
        lemma_cursor_step(fmts, base, k);
    }
}

/// The grid cell `(column, row)` that wire index `i` of a `w`-wide matrix
/// drives; serpentine wiring runs every odd row right to left.
pub open spec fn matrix_cell(w: int, wiring: Wiring, i: int) -> (int, int) {
    let row = i / w;
    let col = i % w;
    if wiring == Wiring::Serpentine && row % 2 == 1 {
        (w - 1 - col, row)
    } else {
        (col, row)
    }
}

/// The grid cells of a `w` x `h` matrix in wire order: row by row from the
/// top, each row left to right, except that serpentine wiring reverses every
/// odd row.
pub fn matrix_cells(w: usize, h: usize, wiring: Wiring) -> (cells: Vec<(usize, usize)>)
    requires
        w * h <= usize::MAX,
    ensures
        cells@.len() == w * h,
        forall|i: int|
            0 <= i < w * h ==> (#[trigger] cells@[i].0 as int, cells@[i].1 as int) == matrix_cell(
                w as int,
                wiring,
                i,
            ),
        forall|i: int|
            0 <= i < w * h ==> #[trigger] cells@[i].1 as int == i / (w as int) && (wiring
                == Wiring::Contiguous ==> cells@[i].0 as int == i % (w as int)),
        wiring == Wiring::Serpentine ==> forall|i: int|
            0 <= i < w * h ==> (#[trigger] cells@[i].0 as int == if (i / (w as int)) % 2 == 0 {
                i % (w as int)
            } else {
                w - 1 - i % (w as int)
            }),
        wiring == Wiring::Serpentine ==> forall|i: int|
            0 <= i && i + 1 < w * h ==> neighbours(
                (#[trigger] cells@[i].0 as int, cells@[i].1 as int),
                (cells@[i + 1].0 as int, cells@[i + 1].1 as int),
            ),
{
    let cells = matrix_cells_in_order(w, h, wiring);
    proof {
        if w > 0 {
            assert forall|i: int| 0 <= i < w * h implies #[trigger] cells@[i].1 as int == i / (
            w as int) && (wiring == Wiring::Contiguous ==> cells@[i].0 as int == i % (
            w as int)) by {
                assert((cells@[i].0 as int, cells@[i].1 as int) == matrix_cell(w as int, wiring, i));
                matrix_rows_in_order(w as int, wiring, i);
            }
            if wiring == Wiring::Serpentine {
                assert forall|i: int| 0 <= i < w * h implies (#[trigger] cells@[i].0 as int
                    == if (i / (w as int)) % 2 == 0 {
                    i % (w as int)
                } else {
                    w - 1 - i % (w as int)
                }) by {
                    assert((cells@[i].0 as int, cells@[i].1 as int) == matrix_cell(
                        w as int,
                        wiring,
                        i,
                    ));
                    matrix_rows_in_order(w as int, wiring, i);
                }
                assert forall|i: int| 0 <= i && i + 1 < w * h implies neighbours(
                    (#[trigger] cells@[i].0 as int, cells@[i].1 as int),
                    (cells@[i + 1].0 as int, cells@[i + 1].1 as int),
                ) by {
                    serpentine_steps_to_neighbours(w as int, h as int, i);
                }
            }
        } else {
            assert(w * h == 0) by (nonlinear_arith)
                requires
                    w == 0,
            ;
        }
    }
    cells
}

fn matrix_cells_in_order(w: usize, h: usize, wiring: Wiring) -> (cells: Vec<(usize, usize)>)
    requires
        w * h <= usize::MAX,
    ensures
        cells@.len() == w * h,
        forall|i: int|
            0 <= i < w * h ==> (#[trigger] cells@[i].0 as int, cells@[i].1 as int) == matrix_cell(
                w as int,
                wiring,
                i,
            ),
{
    let mut cells: Vec<(usize, usize)> = Vec::with_capacity(w * h);
    let mut y: usize = 0;
    while y < h
        invariant
            w * h <= usize::MAX,
            y <= h,
            cells@.len() == y * w,
            forall|i: int|
                0 <= i < y * w ==> (#[trigger] cells@[i].0 as int, cells@[i].1 as int)
                    == matrix_cell(w as int, wiring, i),
        decreases h - y,
    {
        let mut x: usize = 0;
        while x < w
            invariant
                w * h <= usize::MAX,
                y < h,
                x <= w,
                cells@.len() == y * w + x,
                forall|i: int|
                    0 <= i < y * w + x ==> (#[trigger] cells@[i].0 as int, cells@[i].1 as int)
                        == matrix_cell(w as int, wiring, i),
            decreases w - x,
        {
            proof {
                let i = y * w + x;
                assert((y * w + x) / (w as int) == y && (y * w + x) % (w as int) == x) by (nonlinear_arith)
                    requires
                        x < w,
                ;
                assert(y * w + x < w * h) by (nonlinear_arith)
                    requires
                        x < w,
                        y < h,
                ;
            }
            let px = if wiring == Wiring::Serpentine && y % 2 == 1 {
                w - 1 - x
            } else {
                x
            };
            cells.push((px, y));
            x = x + 1;
        }
        proof {
            assert(y * w + w == (y + 1) * w) by (nonlinear_arith);
        }
        y = y + 1;
    }
    proof {
        assert(y * w == w * h) by (nonlinear_arith)
            requires
                y == h,
        ;
    }
    cells
}


/// Whether pixel `p`'s channels lie wholly inside its universe.
pub open spec fn in_universe<P>(p: Pixel<P>) -> bool {
    p.channel + channel_count(p.format) <= universe_size()
}

/// `frame` with `bytes` written from index `at` on.
pub open spec fn overwrite(frame: Seq<u8>, at: int, bytes: Seq<u8>) -> Seq<u8> {
    frame.take(at) + bytes + frame.skip(at + bytes.len())
}

/// The DMX frame of universe `u` after the first `n` pixels have been encoded
/// into it, starting from all zeros; pixels of other universes, and pixels
/// that would run past the end of the universe, leave it unchanged.
pub open spec fn frame_after<P>(pixels: Seq<Pixel<P>>, colors: Seq<[u8; 3]>, u: u16, n: nat) -> Seq<
    u8,
>
    decreases n,
{
    if n == 0 {
        Seq::new(universe_size() as nat, |i: int| 0u8)
    } else {
        let f = frame_after(pixels, colors, u, (n - 1) as nat);
        let p = pixels[n - 1];
        if p.universe == u && in_universe(p) {
            overwrite(f, p.channel as int, encoded(p.format, colors[n - 1]))
        } else {
            f
        }
    }
}

/// The DMX frame of universe `u` once every pixel has its colour encoded.
pub open spec fn frame_of<P>(pixels: Seq<Pixel<P>>, colors: Seq<[u8; 3]>, u: u16) -> Seq<u8> {
    frame_after(pixels, colors, u, pixels.len())
}

/// Whether some pixel that fits its universe lies in universe `u`.
pub open spec fn universe_used<P>(pixels: Seq<Pixel<P>>, u: u16) -> bool {
    exists|k: int| 0 <= k < pixels.len() && #[trigger] pixels[k].universe == u && in_universe(pixels[k])
}

proof fn lemma_frame_len<P>(pixels: Seq<Pixel<P>>, colors: Seq<[u8; 3]>, u: u16, n: nat)
    requires
        n <= pixels.len(),
        n <= colors.len(),
    ensures
        frame_after(pixels, colors, u, n).len() == universe_size(),
    decreases n,
{
    if n > 0 {
        lemma_frame_len(pixels, colors, u, (n - 1) as nat);
        let p = pixels[n - 1];
        if p.universe == u && in_universe(p) {
            let f = frame_after(pixels, colors, u, (n - 1) as nat);
            assert(encoded(p.format, colors[n - 1]).len() == channel_count(p.format));
        }
    }
}

fn write_pixel(frame: &mut Vec<u8>, at: usize, fmt: PixelFormat, c: [u8; 3])
    requires
        at + channel_count(fmt) <= old(frame)@.len(),
    ensures
        final(frame)@ == overwrite(old(frame)@, at as int, encoded(fmt, c)),
{
    let mut tmp: Vec<u8> = Vec::new();
    tmp.push(0);
    tmp.push(0);
    tmp.push(0);
    tmp.push(0);
    fmt.encode(c, tmp.as_mut_slice());
    let w = fmt.channels();
    let ghost bytes = encoded(fmt, c);
    assert(tmp@.take(w as int) =~= bytes);
    let mut i: usize = 0;
    while i < w
        invariant
            w == channel_count(fmt),
            bytes == encoded(fmt, c),
            bytes.len() == w,
            tmp@.take(w as int) == bytes,
            tmp@.len() == 4,
            w <= 4,
            i <= w,
            at + w <= old(frame)@.len(),
            frame@.len() == old(frame)@.len(),
            frame@ == old(frame)@.take(at as int) + bytes.take(i as int) + old(frame)@.skip(
                at + i,
            ),
        decreases w - i,
    {
        assert(tmp@[i as int] == bytes[i as int]);
        assert(frame@.len() == frame.len());
        assert(at + i < frame.len());
        frame.set(at + i, tmp[i]);
        assert(frame@ =~= old(frame)@.take(at as int) + bytes.take(i + 1) + old(frame)@.skip(
            at + i + 1,
        ));
        i = i + 1;
    }
    assert(bytes.take(w as int) =~= bytes);
}

/// The DMX frame of universe `u`: every pixel of `u` that fits inside the
/// universe, in order, encodes its colour at its channel.
fn frame_for<P>(pixels: &[Pixel<P>], colors: &[[u8; 3]], u: u16) -> (frame: Vec<u8>)
    requires
        pixels@.len() == colors@.len(),
    ensures
        frame@ == frame_of(pixels@, colors@, u),
{
    let mut frame: Vec<u8> = Vec::with_capacity(512);
    let mut i: usize = 0;
    while i < 512
        invariant
            i <= 512,
            frame@ == Seq::new(i as nat, |k: int| 0u8),
        decreases 512 - i,
    {
        frame.push(0);
        assert(frame@ =~= Seq::new((i + 1) as nat, |k: int| 0u8));
        i = i + 1;
    }
    let mut k: usize = 0;
    while k < pixels.len()
        invariant
            pixels@.len() == colors@.len(),
            k <= pixels@.len(),
            frame@ == frame_after(pixels@, colors@, u, k as nat),
        decreases pixels@.len() - k,
    {
        proof {
            lemma_frame_len(pixels@, colors@, u, k as nat);
        }
        let p = &pixels[k];
        let w = p.format.channels();
        if p.universe == u && p.channel <= 512 && w <= 512 - p.channel {
            write_pixel(&mut frame, p.channel, p.format, colors[k]);
        }
        k = k + 1;
    }
    frame
}

/// Whether `s` is strictly increasing.
pub open spec fn strictly_increasing(s: Seq<u16>) -> bool {
    forall|a: int, b: int| 0 <= a < b < s.len() ==> s[a] < s[b]
}

fn insert_sorted(unis: &mut Vec<u16>, u: u16)
    requires
        strictly_increasing(old(unis)@),
    ensures
        strictly_increasing(final(unis)@),
        forall|x: u16| final(unis)@.contains(x) <==> (old(unis)@.contains(x) || x == u),
{
    let ghost before = unis@;
    let mut i: usize = 0;
    while i < unis.len() && unis[i] < u
        invariant
            unis@ == before,
            i <= unis@.len(),
            forall|a: int| 0 <= a < i ==> unis@[a] < u,
        decreases unis@.len() - i,
    {
        i = i + 1;
    }
    if i < unis.len() && unis[i] == u {
        assert(unis@[i as int] == u);
    } else {
        unis.insert(i, u);
        proof {
            before.insert_ensures(i as int, u);
            assert forall|x: u16| unis@.contains(x) <==> (before.contains(x) || x == u) by {
                if unis@.contains(x) {
                    let a = choose|a: int| 0 <= a < unis@.len() && unis@[a] == x;
                    if a < i {
                        assert(before[a] == x);
                    } else if a > i {
                        assert(before[a - 1] == x);
                    }
                }
                if before.contains(x) {
                    let a = choose|a: int| 0 <= a < before.len() && before[a] == x;
                    if a < i {
                        assert(unis@[a] == x);
                    } else {
                        assert(unis@[a + 1] == x);
                    }
                }
                if x == u {
                    assert(unis@[i as int] == u);
                }
            }
        }
    }
}

/// The universes that receive a frame, strictly increasing: those of the
/// pixels that fit inside their universe.
fn used_universes<P>(pixels: &[Pixel<P>]) -> (unis: Vec<u16>)
    ensures
        strictly_increasing(unis@),
        forall|u: u16| unis@.contains(u) <==> universe_used(pixels@, u),
{
    let mut unis: Vec<u16> = Vec::new();
    let mut k: usize = 0;
    while k < pixels.len()
        invariant
            k <= pixels@.len(),
            strictly_increasing(unis@),
            forall|u: u16| unis@.contains(u) <==> universe_used(pixels@.take(k as int), u),
        decreases pixels@.len() - k,
    {
        let p = &pixels[k];
        let w = p.format.channels();
        let ghost before = unis@;
        let fits = p.channel <= 512 && w <= 512 - p.channel;
        if fits {
            insert_sorted(&mut unis, p.universe);
        }
        proof {
            let pk = pixels@.take(k + 1);
            let pk0 = pixels@.take(k as int);
            assert(pk.drop_last() =~= pk0);
            assert forall|u: u16| unis@.contains(u) <==> universe_used(pk, u) by {
                if universe_used(pk, u) {
                    let j = choose|j: int|
                        0 <= j < pk.len() && #[trigger] pk[j].universe == u && in_universe(pk[j]);
                    if j < k {
                        assert(pk0[j] == pk[j]);
                        assert(universe_used(pk0, u));
                    }
                }
                if unis@.contains(u) && !(fits && u == p.universe) {
                    assert(before.contains(u));
                    let j = choose|j: int|
                        0 <= j < pk0.len() && #[trigger] pk0[j].universe == u && in_universe(pk0[j]);
                    assert(pk[j] == pk0[j]);
                }
                if fits && u == p.universe {
                    assert(pk[k as int] == pixels@[k as int]);
                }
            }
        }
        k = k + 1;
    }
    assert(pixels@.take(pixels@.len() as int) =~= pixels@);
    unis
}

/// The per-universe DMX frames for `pixels` showing `colors` (colour `k` for
/// pixel `k`): one frame per universe that holds a pixel fitting inside it,
/// in increasing universe order; in each frame, every such pixel encodes its
/// colour at its channel, later pixels over earlier ones, and channels that
/// no pixel covers are 0.
pub fn universe_frames<P>(pixels: &[Pixel<P>], colors: &[[u8; 3]]) -> (frames: Vec<(u16, Vec<u8>)>)
    requires
        pixels@.len() == colors@.len(),
    ensures
        forall|a: int, b: int| 0 <= a < b < frames@.len() ==> frames@[a].0 < frames@[b].0,
        forall|u: u16|
            universe_used(pixels@, u) <==> exists|a: int|
                0 <= a < frames@.len() && #[trigger] frames@[a].0 == u,
        forall|a: int|
            0 <= a < frames@.len() ==> (#[trigger] frames@[a]).1@ == frame_of(
                pixels@,
                colors@,
                frames@[a].0,
            ),
        forall|a: int| 0 <= a < frames@.len() ==> (#[trigger] frames@[a]).1@.len() == universe_size(),
{
    let unis = used_universes(pixels);
    let mut frames: Vec<(u16, Vec<u8>)> = Vec::new();
    let mut i: usize = 0;
    while i < unis.len()
        invariant
            pixels@.len() == colors@.len(),
            strictly_increasing(unis@),
            forall|u: u16| unis@.contains(u) <==> universe_used(pixels@, u),
            i <= unis@.len(),
            frames@.len() == i,
            forall|a: int| 0 <= a < i ==> (#[trigger] frames@[a]).0 == unis@[a],
            forall|a: int| 0 <= a < i ==> (#[trigger] frames@[a]).1@.len() == universe_size(),
            forall|a: int|
                0 <= a < i ==> (#[trigger] frames@[a]).1@ == frame_of(
                    pixels@,
                    colors@,
                    frames@[a].0,
                ),
        decreases unis@.len() - i,
    {
        let u = unis[i];
        let f = frame_for(pixels, colors, u);
        proof {
            lemma_frame_len(pixels@, colors@, u, pixels@.len());
        }
        frames.push((u, f));
        i = i + 1;
    }
    assert forall|u: u16| universe_used(pixels@, u) implies exists|a: int|
        0 <= a < frames@.len() && #[trigger] frames@[a].0 == u by {
        assert(unis@.contains(u));
        let a = choose|a: int| 0 <= a < unis@.len() && unis@[a] == u;
        assert(frames@[a].0 == u);
    }
    assert forall|u: u16|
        (exists|a: int| 0 <= a < frames@.len() && #[trigger] frames@[a].0 == u) implies universe_used(
        pixels@,
        u,
    ) by {
        let a = choose|a: int| 0 <= a < frames@.len() && #[trigger] frames@[a].0 == u;
        assert(unis@[a] == u);
        assert(unis@.contains(u));
    }
    frames
}


proof fn lemma_address_order(fmts: Seq<PixelFormat>, base: int, k: int, m: int)
    requires
        0 <= k < m < fmts.len(),
    ensures
        address(fmts, base, m).0 > address(fmts, base, k).0 || (address(fmts, base, m).0
            == address(fmts, base, k).0 && address(fmts, base, m).1 >= address(fmts, base, k).1
            + channel_count(fmts[k])),
    decreases m - k,
{
    lemma_cursor_step(fmts, base, m - 1);
    lemma_cursor_bounds(fmts.take(m - 1), base);
    if m - 1 > k {
        lemma_address_order(fmts, base, k, m - 1);
    }
}

proof fn lemma_frame_keeps<P>(pixels: Seq<Pixel<P>>, colors: Seq<[u8; 3]>, k: int, n: nat)
    requires
        0 <= k < n <= pixels.len(),
        n <= colors.len(),
        in_universe(pixels[k]),
        forall|j: int|
            k < j < n && (#[trigger] pixels[j]).universe == pixels[k].universe ==> pixels[j].channel
                >= pixels[k].channel + channel_count(pixels[k].format),
    ensures
        ({
            let p = pixels[k];
            frame_after(pixels, colors, p.universe, n).subrange(
                p.channel as int,
                p.channel + channel_count(p.format),
            ) == encoded(p.format, colors[k])
        }),
    decreases n,
{
    let p = pixels[k];
    let u = p.universe;
    let lo = p.channel as int;
    let hi = p.channel + channel_count(p.format);
    let f = frame_after(pixels, colors, u, (n - 1) as nat);
    lemma_frame_len(pixels, colors, u, (n - 1) as nat);
    if n - 1 == k {
        let e = encoded(p.format, colors[k]);
        assert(overwrite(f, lo, e).subrange(lo, hi) =~= e);
    } else {
        lemma_frame_keeps(pixels, colors, k, (n - 1) as nat);
        let q = pixels[n - 1];
        if q.universe == u && in_universe(q) {
            let e = encoded(q.format, colors[n - 1]);
            assert(q.channel >= hi);
            assert(overwrite(f, q.channel as int, e).subrange(lo, hi) =~= f.subrange(lo, hi));
        }
    }
}

/// A read of a frame gives back what each pixel wrote: when `pixels` are
/// derived from `outputs`, no two of them share a channel, so in the frame of
/// each pixel's universe the channels at its derived address hold its colour
/// encoded in its format.
pub proof fn derived_frames_show_every_pixel<P>(
    base: u16,
    outputs: Seq<Output<P>>,
    pixels: Seq<Pixel<P>>,
    colors: Seq<[u8; 3]>,
)
    requires
        derived_from(pixels, base, outputs),
        colors.len() == pixels.len(),
    ensures
        forall|k: int|
            0 <= k < pixels.len() ==> {
                let p = #[trigger] pixels[k];
                &&& in_universe(p)
                &&& frame_of(pixels, colors, p.universe).subrange(
                    p.channel as int,
                    p.channel + channel_count(p.format),
                ) == encoded(p.format, colors[k])
            },
{
    let fmts = pixel_formats(outputs);
    let b = base as int;
    derive_packs_contiguously(fmts, b);
    assert forall|k: int| 0 <= k < pixels.len() implies {
        let p = #[trigger] pixels[k];
        &&& in_universe(p)
        &&& frame_of(pixels, colors, p.universe).subrange(
            p.channel as int,
            p.channel + channel_count(p.format),
        ) == encoded(p.format, colors[k])
    } by {
        let p = pixels[k];
        assert(address(fmts, b, k).1 + channel_count(fmts[k]) <= universe_size());
        assert forall|j: int|
            k < j < pixels.len() && (#[trigger] pixels[j]).universe == pixels[k].universe implies pixels[j].channel
            >= pixels[k].channel + channel_count(pixels[k].format) by {
            lemma_address_order(fmts, b, k, j);
        }
        lemma_frame_keeps(pixels, colors, k, pixels.len());
    }
}


proof fn lemma_cell_in_grid(w: int, h: int, wiring: Wiring, i: int)
    requires
        w > 0,
        0 <= i < w * h,
    ensures
        0 <= matrix_cell(w, wiring, i).0 < w,
        0 <= matrix_cell(w, wiring, i).1 < h,
        i == w * (i / w) + i % w,
{
    lemma_fundamental_div_mod(i, w);
    assert(0 <= i % w < w);
    assert(0 <= i / w < h) by (nonlinear_arith)
        requires
            w > 0,
            0 <= i < w * h,
            i == w * (i / w) + i % w,
            0 <= i % w < w,
    ;
}

/// Whether some wire index of a `w` x `h` matrix drives cell `(x, y)`.
pub open spec fn drives_cell(w: int, h: int, wiring: Wiring, x: int, y: int) -> bool {
    exists|i: int| 0 <= i < w * h && #[trigger] matrix_cell(w, wiring, i) == (x, y)
}

/// Every cell of a `w` x `h` matrix is driven by exactly one wire index:
/// `matrix_cell` maps the indices 0..w*h one to one onto the grid, for both
/// wirings.
pub proof fn matrix_cells_cover_grid(w: int, h: int, wiring: Wiring)
    requires
        w > 0,
        h >= 0,
    ensures
        forall|i: int|
            0 <= i < w * h ==> 0 <= (#[trigger] matrix_cell(w, wiring, i)).0 < w && 0
                <= matrix_cell(w, wiring, i).1 < h,
        forall|i: int, j: int|
            0 <= i < w * h && 0 <= j < w * h && i != j ==> #[trigger] matrix_cell(w, wiring, i)
                != #[trigger] matrix_cell(w, wiring, j),
        forall|x: int, y: int| 0 <= x < w && 0 <= y < h ==> #[trigger] drives_cell(w, h, wiring, x, y),
{
    assert forall|i: int| 0 <= i < w * h implies 0 <= (#[trigger] matrix_cell(w, wiring, i)).0 < w
        && 0 <= matrix_cell(w, wiring, i).1 < h by {
        lemma_cell_in_grid(w, h, wiring, i);
    }
    assert forall|i: int, j: int|
        0 <= i < w * h && 0 <= j < w * h && i != j implies #[trigger] matrix_cell(w, wiring, i)
        != #[trigger] matrix_cell(w, wiring, j) by {
        lemma_cell_in_grid(w, h, wiring, i);
        lemma_cell_in_grid(w, h, wiring, j);
        if matrix_cell(w, wiring, i) == matrix_cell(w, wiring, j) {
            assert(i / w == j / w);
            assert(i % w == j % w);
        }
    }
    assert forall|x: int, y: int| 0 <= x < w && 0 <= y < h implies #[trigger] drives_cell(
        w,
        h,
        wiring,
        x,
        y,
    ) by {
        let col = if wiring == Wiring::Serpentine && y % 2 == 1 {
            w - 1 - x
        } else {
            x
        };
        let i = y * w + col;
        assert(0 <= i < w * h) by (nonlinear_arith)
            requires
                0 <= col < w,
                0 <= y < h,
                i == y * w + col,
        ;
        lemma_fundamental_div_mod_converse(i, w, y, col);
        assert(matrix_cell(w, wiring, i) == (x, y));
    }
}


/// Whether grid cells `a` and `b` are side by side (one step apart in one
/// direction).
pub open spec fn neighbours(a: (int, int), b: (int, int)) -> bool {
    (a.1 == b.1 && (a.0 - b.0 == 1 || b.0 - a.0 == 1)) || (a.0 == b.0 && (a.1 - b.1 == 1 || b.1
        - a.1 == 1))
}

/// Matrix wiring fills rows in order: wire index `i` lies in row `i / w`; the
/// first row runs left to right for both wirings; contiguous wiring runs
/// every row left to right, so index `i` drives column `i % w`; serpentine
/// wiring runs the even rows (0, 2, 4, ...) left to right and only the odd
/// rows right to left.
pub proof fn matrix_rows_in_order(w: int, wiring: Wiring, i: int)
    requires
        w > 0,
        0 <= i,
    ensures
        matrix_cell(w, wiring, i).1 == i / w,
        i < w ==> matrix_cell(w, wiring, i) == (i, 0int),
        wiring == Wiring::Contiguous ==> matrix_cell(w, wiring, i) == (i % w, i / w),
        wiring == Wiring::Serpentine && (i / w) % 2 == 0 ==> matrix_cell(w, wiring, i) == (
            i % w,
            i / w,
        ),
        wiring == Wiring::Serpentine && (i / w) % 2 == 1 ==> matrix_cell(w, wiring, i) == (
            w - 1 - i % w,
            i / w,
        ),
{
    if i < w {
        lemma_fundamental_div_mod_converse(i, w, 0, i);
    }
}

/// Serpentine wiring is one unbroken snake: consecutive wire indices always
/// drive neighbouring cells, so each row ends right above where the next one
/// starts.
pub proof fn serpentine_steps_to_neighbours(w: int, h: int, i: int)
    requires
        w > 0,
        0 <= i,
        i + 1 < w * h,
    ensures
        neighbours(matrix_cell(w, Wiring::Serpentine, i), matrix_cell(w, Wiring::Serpentine, i + 1)),
{
    lemma_fundamental_div_mod(i, w);
    let r = i / w;
    let x = i % w;
    assert(0 <= x < w);
    if x < w - 1 {
        assert(i + 1 == r * w + (x + 1)) by (nonlinear_arith)
            requires
                i == w * r + x,
        ;
        lemma_fundamental_div_mod_converse(i + 1, w, r, x + 1);
    } else {
        assert(i + 1 == (r + 1) * w + 0) by (nonlinear_arith)
            requires
                i == w * r + x,
                x == w - 1,
        ;
        lemma_fundamental_div_mod_converse(i + 1, w, r + 1, 0);
        assert(r % 2 == 0 ==> (r + 1) % 2 == 1);
        assert(r % 2 == 1 ==> (r + 1) % 2 == 0);
    }
}

} // verus!
