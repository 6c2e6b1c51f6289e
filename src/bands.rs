//! The split of a canvas's rows into bands, one unit of work each: the bands
//! are disjoint, in order, and together hold every row once.
use vstd::prelude::*;
use vstd::arithmetic::div_mod::lemma_fundamental_div_mod;
use crate::raster::{band_covers, lemma_paint_bands_covered, paint_bands, Color};

verus! {

/// The number of workers the rows are shared among: at least one.
pub open spec fn worker_count(workers: u32) -> nat {
    if workers == 0 {
        1
    } else {
        workers as nat
    }
}

/// The rows in each band but perhaps the last: `height` over the workers,
/// rounded up.
pub open spec fn band_height(height: u32, workers: u32) -> nat {
    ((height as nat + worker_count(workers) - 1) as nat / worker_count(workers)) as nat
}

/// Band `i`, as its first row and the row after its last.
pub open spec fn band(height: u32, workers: u32, i: int) -> (u32, u32) {
    let c = band_height(height, workers) as int;
    let end = if i * c + c <= height { i * c + c } else { height as int };
    ((i * c) as u32, end as u32)
}

/// What a split of rows `0..height` among `workers` workers is: bands of
/// `band_height` rows, the last one perhaps shorter, no more bands than
/// workers, and enough of them to reach the last row.
pub open spec fn is_row_split(height: u32, workers: u32, bands: Seq<(u32, u32)>) -> bool {
    &&& height == 0 ==> bands.len() == 0
    &&& height > 0 ==> {
        &&& bands.len() > 0
        &&& (bands.len() - 1) * band_height(height, workers) < height
        &&& bands.len() * band_height(height, workers) >= height
    }
    &&& bands.len() <= worker_count(workers)
    &&& forall|i: int| 0 <= i < bands.len() ==> bands[i] == band(height, workers, i)
}

/// Every band of a row split lies inside rows `0..height`.
pub proof fn lemma_row_split_in_range(height: u32, workers: u32, bands: Seq<(u32, u32)>)
    requires
        is_row_split(height, workers, bands),
    ensures
        forall|i: int|
            0 <= i < bands.len() ==> bands[i].0 <= bands[i].1 && bands[i].1 <= height,
{
    let c = band_height(height, workers);
    assert forall|i: int| 0 <= i < bands.len() implies bands[i].0 <= bands[i].1 && bands[i].1
        <= height by {
        assert(i * c <= (bands.len() - 1) * c) by (nonlinear_arith)
            requires
                0 <= i <= bands.len() - 1,
        ;
        assert(0 <= i * c) by (nonlinear_arith)
            requires
                0 <= i,
        ;
    }
}

/// Each row below `height` lies in some band of a row split.
pub proof fn lemma_row_split_holds_row(height: u32, workers: u32, bands: Seq<(u32, u32)>, y: int) -> (i: int)
    requires
        is_row_split(height, workers, bands),
        0 <= y < height,
    ensures
        0 <= i < bands.len(),
        bands[i].0 <= y < bands[i].1,
{
    let k = worker_count(workers);
    let c = band_height(height, workers);
    assert(c >= 1) by (nonlinear_arith)
        requires
            c == (height as nat + k - 1) as nat / k,
            height >= 1,
            k >= 1,
    ;
    let i = y / (c as int);
    lemma_fundamental_div_mod(y, c as int);
    assert(0 <= i) by (nonlinear_arith)
        requires
            i == y / (c as int),
            y >= 0,
            c >= 1,
    ;
    assert(i * c <= y < i * c + c) by (nonlinear_arith)
        requires
            y == c * i + y % (c as int),
            0 <= y % (c as int) < c,
    ;
    if i >= bands.len() {
        assert(i * c >= bands.len() * c) by (nonlinear_arith)
            requires
                i >= bands.len(),
        ;
    }
    i
}

/// Rendering in bands is rendering in one pass. Whatever order the bands of a
/// row split are written in, one worker or many, and whatever the raster held
/// before, the result is the full grid of colors: the same pixels every time.
pub proof fn lemma_banded_render_is_single_pass(
    p: Seq<Color>,
    c: Seq<Color>,
    w: u32,
    height: u32,
    workers: u32,
    bands: Seq<(u32, u32)>,
    order: Seq<(u32, u32)>,
)
    requires
        p.len() == w as nat * height as nat,
        c.len() == w as nat * height as nat,
        is_row_split(height, workers, bands),
        forall|i: int|
            0 <= i < bands.len() ==> exists|j: int| 0 <= j < order.len() && order[j] == #[trigger] bands[i],
        forall|j: int|
            0 <= j < order.len() ==> exists|i: int| 0 <= i < bands.len() && #[trigger] order[j] == bands[i],
    ensures
        paint_bands(p, w as nat, c, order) == c,
{
    lemma_row_split_in_range(height, workers, bands);
    assert forall|j: int| 0 <= j < order.len() implies order[j].0 <= order[j].1 && order[j].1 as nat
        <= height as nat by {
        let i = choose|i: int| 0 <= i < bands.len() && order[j] == bands[i];
    }
    lemma_paint_bands_covered(p, w as nat, height as nat, c, order);
    let r = paint_bands(p, w as nat, c, order);
    assert forall|s: int| 0 <= s < c.len() implies r[s] == c[s] by {
        let y = s / (w as int);
        assert(w > 0) by (nonlinear_arith)
            requires
                0 <= s < w as nat * height as nat,
        ;
        lemma_fundamental_div_mod(s, w as int);
        assert(0 <= y < height) by (nonlinear_arith)
            requires
                y == s / (w as int),
                0 <= s < w as nat * height as nat,
                w > 0,
                s == w * y + s % (w as int),
                0 <= s % (w as int) < w,
        ;
        let i = lemma_row_split_holds_row(height, workers, bands, y);
        let j = choose|j: int| 0 <= j < order.len() && order[j] == bands[i];
        let b = order[j];
        assert(band_covers(w as nat, b, s)) by (nonlinear_arith)
            requires
                b.0 <= y < b.1,
                s == w * y + s % (w as int),
                0 <= s % (w as int) < w,
        ;
    }
    assert(r =~= c);
}

/// Splits rows `0..height` into bands of `band_height` rows, the last one
/// perhaps shorter, so that there are no more bands than workers. Each band is
/// given as its first row and the row after its last.
pub fn row_bands(height: u32, workers: u32) -> (r: Vec<(u32, u32)>)
    ensures
        is_row_split(height, workers, r@),
{
    let k: u64 = if workers == 0 { 1 } else { workers as u64 };
    let chunk: u64 = (height as u64 + k - 1) / k;
    let mut r: Vec<(u32, u32)> = Vec::new();
    if height == 0 {
        return r;
    }
    proof {
        assert(chunk >= 1) by (nonlinear_arith)
            requires
                chunk as int == (height as int + k as int - 1) / k as int,
                height >= 1,
                k >= 1,
        ;
        assert(chunk * k >= height) by (nonlinear_arith)
            requires
                chunk as int == (height as int + k as int - 1) / k as int,
                k >= 1,
        ;
        assert(chunk <= height) by (nonlinear_arith)
            requires
                chunk as int == (height as int + k as int - 1) / k as int,
                height >= 1,
                k >= 1,
        ;
    }
    let mut i: u64 = 0;
    let mut first: u64 = 0;
    while first < height as u64
        invariant
            k == worker_count(workers),
            chunk == band_height(height, workers),
            1 <= chunk <= height,
            chunk * k >= height,
            first == i * chunk,
            i > 0 ==> (i - 1) * chunk < height,
            first <= height as u64 + chunk,
            r@.len() == i,
            i <= k,
            forall|j: int| 0 <= j < r@.len() ==> r@[j] == band(height, workers, j),
        decreases height as u64 + chunk - first,
    {
        let end: u64 = if first + chunk <= height as u64 { first + chunk } else { height as u64 };
        r.push((first as u32, end as u32));
        proof {
            if i + 1 > k {
                assert(i * chunk >= k * chunk) by (nonlinear_arith)
                    requires
                        i >= k,
                ;
            }
            assert((i + 1) * chunk == first + chunk) by (nonlinear_arith)
                requires
                    first == i * chunk,
            ;
        }
        i = i + 1;
        first = first + chunk;
    }
    r
}

} // verus!
