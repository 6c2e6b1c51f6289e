//! The model of a raster: pixels in row-major order, top-left first, and what
//! writing a run of colors into it does.
use vstd::prelude::*;

verus! {

/// An 8-bit-per-channel RGB color.
#[derive(Debug, Clone, Copy, PartialEq, Eq, Structural)]
pub struct Color {
    pub r: u8,
    pub g: u8,
    pub b: u8,
}

/// Black, the color of a pixel that nothing has written yet.
pub open spec fn black() -> Color {
    Color { r: 0, g: 0, b: 0 }
}

/// The row-major slot of pixel `(x, y)` in a raster `width` pixels wide.
pub open spec fn slot(width: nat, x: nat, y: nat) -> nat {
    y * width + x
}

/// Channel `k` (0 red, 1 green, 2 blue) of a color.
pub open spec fn channel(c: Color, k: int) -> u8 {
    if k == 0 {
        c.r
    } else if k == 1 {
        c.g
    } else {
        c.b
    }
}

/// The bytes of a raster: three per pixel, red, green and blue, in pixel order.
pub open spec fn rgb_bytes(p: Seq<Color>) -> Seq<u8> {
    Seq::new(3 * p.len(), |j: int| channel(p[j / 3], j % 3))
}

/// The raster `p` after the colors `c` are written into the slots from
/// `start` on; every other slot keeps its color.
pub open spec fn painted(p: Seq<Color>, start: int, c: Seq<Color>) -> Seq<Color> {
    Seq::new(p.len(), |i: int| if start <= i < start + c.len() { c[i - start] } else { p[i] })
}

/// Writing two adjacent runs one after the other gives the raster that writing
/// their concatenation at once gives.
pub proof fn lemma_adjacent_runs_join(p: Seq<Color>, start: int, c1: Seq<Color>, c2: Seq<Color>)
    requires
        0 <= start,
        start + c1.len() + c2.len() <= p.len(),
    ensures
        painted(painted(p, start, c1), start + c1.len(), c2) == painted(p, start, c1 + c2),
{
    assert(painted(painted(p, start, c1), start + c1.len(), c2) =~= painted(p, start, c1 + c2));
}

/// Runs that do not overlap can be written in either order: no write depends
/// on another.
pub proof fn lemma_disjoint_runs_commute(
    p: Seq<Color>,
    s1: int,
    c1: Seq<Color>,
    s2: int,
    c2: Seq<Color>,
)
    requires
        s1 + c1.len() <= s2 || s2 + c2.len() <= s1,
    ensures
        painted(painted(p, s1, c1), s2, c2) == painted(painted(p, s2, c2), s1, c1),
{
    assert(painted(painted(p, s1, c1), s2, c2) =~= painted(painted(p, s2, c2), s1, c1));
}

/// Writing the same run twice leaves what writing it once leaves.
pub proof fn lemma_repaint_idempotent(p: Seq<Color>, start: int, c: Seq<Color>)
    ensures
        painted(painted(p, start, c), start, c) == painted(p, start, c),
{
    assert(painted(painted(p, start, c), start, c) =~= painted(p, start, c));
}

/// A run that covers the whole raster decides it alone: the result is the run,
/// whatever the raster held before.
pub proof fn lemma_full_run_decides(p: Seq<Color>, q: Seq<Color>, c: Seq<Color>)
    requires
        p.len() == c.len(),
        q.len() == c.len(),
    ensures
        painted(p, 0, c) == c,
        painted(p, 0, c) == painted(q, 0, c),
{
    assert(painted(p, 0, c) =~= c);
    assert(painted(q, 0, c) =~= c);
}

/// A full grid of colors written as two bands, the rows before `k` and the rows
/// from `k` on, in either order, gives the grid itself: the same raster as
/// writing it at once, whoever writes which band first.
pub proof fn lemma_two_bands_any_order(p: Seq<Color>, c: Seq<Color>, k: int)
    requires
        p.len() == c.len(),
        0 <= k <= c.len(),
    ensures
        painted(painted(p, 0, c.subrange(0, k)), k, c.subrange(k, c.len() as int)) == c,
        painted(painted(p, k, c.subrange(k, c.len() as int)), 0, c.subrange(0, k)) == c,
{
    let lo = c.subrange(0, k);
    let hi = c.subrange(k, c.len() as int);
    lemma_adjacent_runs_join(p, 0, lo, hi);
    assert(lo + hi =~= c);
    lemma_full_run_decides(p, p, c);
    lemma_disjoint_runs_commute(p, 0, lo, k, hi);
}

/// The colors of rows `b.0 .. b.1` of a full grid `c` of rows `w` pixels wide.
pub open spec fn band_run(c: Seq<Color>, w: nat, b: (u32, u32)) -> Seq<Color> {
    c.subrange(b.0 as int * w as int, b.1 as int * w as int)
}

/// Whether band `b`, rows `b.0 .. b.1` of a raster `w` pixels wide, holds slot
/// `i`.
pub open spec fn band_covers(w: nat, b: (u32, u32), i: int) -> bool {
    b.0 as int * w as int <= i < b.1 as int * w as int
}

/// The raster `p` after each band of `bs`, in the order given, is written with
/// its rows of the grid `c`.
pub open spec fn paint_bands(p: Seq<Color>, w: nat, c: Seq<Color>, bs: Seq<(u32, u32)>) -> Seq<
    Color,
>
    decreases bs.len(),
{
    if bs.len() == 0 {
        p
    } else {
        let b = bs.last();
        painted(paint_bands(p, w, c, bs.drop_last()), b.0 as int * w as int, band_run(c, w, b))
    }
}

/// Writing bands of a grid, in any order, leaves every slot that some band
/// holds with the grid's color, and keeps its length.
pub proof fn lemma_paint_bands_covered(
    p: Seq<Color>,
    w: nat,
    h: nat,
    c: Seq<Color>,
    bs: Seq<(u32, u32)>,
)
    requires
        p.len() == w * h,
        c.len() == w * h,
        forall|j: int| 0 <= j < bs.len() ==> bs[j].0 <= bs[j].1 && bs[j].1 as nat <= h,
    ensures
        paint_bands(p, w, c, bs).len() == p.len(),
        forall|i: int, j: int|
            0 <= i < p.len() && 0 <= j < bs.len() && band_covers(w, bs[j], i)
                ==> paint_bands(p, w, c, bs)[i] == c[i],
    decreases bs.len(),
{
    if bs.len() > 0 {
        let rest = bs.drop_last();
        lemma_paint_bands_covered(p, w, h, c, rest);
        let b = bs.last();
        assert(b.0 as nat * w <= b.1 as nat * w) by (nonlinear_arith)
            requires
                b.0 <= b.1,
        ;
        assert(b.1 as nat * w <= w * h) by (nonlinear_arith)
            requires
                b.1 as nat <= h,
        ;
        assert forall|i: int, j: int|
            0 <= i < p.len() && 0 <= j < bs.len() && band_covers(w, bs[j], i) implies
                paint_bands(p, w, c, bs)[i] == c[i] by {
            if j < bs.len() - 1 {
                assert(rest[j] == bs[j]);
            }
        }
    }
}

} // verus!
