//! Image measurements that drive the compression policy. Ratios are fixed
//! point: `RATIO_ONE` stands for 1.

use crate::raster::{lemma_grid_index, sample_at, sobel_sq_at, OptimizedImageBuffer, RasterView};
use vstd::prelude::*;

verus! {

/// The fixed-point value of the ratio 1.
pub const RATIO_ONE: u32 = 10000;

/// `num / den` in fixed point, rounded down and clamped to `[0, 1]`; zero when
/// `den` is zero.
pub open spec fn ratio_of(num: int, den: int) -> int {
    if den <= 0 {
        0
    } else if num * 10000 / den > 10000 {
        10000
    } else {
        num * 10000 / den
    }
}

/// Fixed-point ratio of two counts.
pub fn ratio(num: u128, den: u128) -> (r: u32)
    requires
        num <= 0xffff_ffff_ffff_ffff_ffffu128,
    ensures
        r as int == ratio_of(num as int, den as int),
        r <= RATIO_ONE,
{
    if den == 0 {
        0
    } else {
        let q = num * 10000 / den;
        if q > 10000 {
            10000
        } else {
            q as u32
        }
    }
}

/// Column of flat index `j`.
pub open spec fn col(g: RasterView, j: int) -> int {
    j % (g.width as int)
}

/// Row of flat index `j`.
pub open spec fn row(g: RasterView, j: int) -> int {
    j / (g.width as int)
}

/// Whether flat index `j` is an interior pixel whose Sobel magnitude exceeds 50.
pub open spec fn is_edge(g: RasterView, j: int) -> bool {
    g.interior(col(g, j), row(g, j)) && g.sobel_sq(col(g, j), row(g, j)) > 2500
}

/// Number of edge pixels among the first `n` flat indices.
pub open spec fn edge_count(g: RasterView, n: int) -> int
    decreases n,
{
    if n <= 0 {
        0
    } else {
        edge_count(g, n - 1) + if is_edge(g, n - 1) { 1int } else { 0int }
    }
}

/// Number of interior pixels of a grid.
pub open spec fn interior_count(g: RasterView) -> int {
    if g.width < 3 || g.height < 3 {
        0
    } else {
        (g.width - 2) * (g.height - 2)
    }
}

/// Edge density: the share of interior pixels that are edge pixels.
pub open spec fn edge_density_of(g: RasterView) -> int {
    ratio_of(edge_count(g, g.data.len() as int), interior_count(g))
}

/// Sum of the horizontal and vertical central differences at `(x, y)`:
/// twice the mean gradient magnitude there.
pub open spec fn gradient2(g: RasterView, x: int, y: int) -> int {
    let h = g.at(x + 1, y) - g.at(x - 1, y);
    let v = g.at(x, y + 1) - g.at(x, y - 1);
    (if h < 0 { -h } else { h }) + (if v < 0 { -v } else { v })
}

/// Gradient energy of flat index `j`; zero off the interior.
pub open spec fn energy_at(g: RasterView, j: int) -> int {
    if g.interior(col(g, j), row(g, j)) {
        gradient2(g, col(g, j), row(g, j))
    } else {
        0
    }
}

/// Total gradient energy of the first `n` flat indices.
pub open spec fn total_energy(g: RasterView, n: int) -> int
    decreases n,
{
    if n <= 0 {
        0
    } else {
        total_energy(g, n - 1) + energy_at(g, n - 1)
    }
}

/// Energy of the first `n` flat indices from pixels whose mean gradient
/// exceeds 20.
pub open spec fn high_energy(g: RasterView, n: int) -> int
    decreases n,
{
    if n <= 0 {
        0
    } else {
        high_energy(g, n - 1) + if energy_at(g, n - 1) > 40 { energy_at(g, n - 1) } else { 0 }
    }
}

/// Share of the gradient energy held by high-frequency pixels.
pub open spec fn high_frequency_ratio_of(g: RasterView) -> int {
    ratio_of(high_energy(g, g.data.len() as int), total_energy(g, g.data.len() as int))
}

/// A one-channel grid that is well formed.
pub open spec fn is_gray(g: RasterView) -> bool {
    g.wf() && g.channels == 1
}

proof fn lemma_width_positive(i: int, n: int, w: int, h: int)
    requires
        0 <= i < n,
        n == w * h,
        w >= 0,
        h >= 0,
    ensures
        w > 0,
{
    assert(w > 0) by (nonlinear_arith)
        requires
            0 <= i < n,
            n == w * h,
            w >= 0,
            h >= 0,
    ;
}

/// Share of interior pixels whose Sobel gradient magnitude exceeds 50. A grid
/// narrower or shorter than 3 has no interior and gives 0.
pub fn calculate_edge_density(gray: &OptimizedImageBuffer) -> (r: u32)
    requires
        is_gray(gray@),
    ensures
        r as int == edge_density_of(gray@),
{
    let (w32, h32) = gray.dimensions();
    let w = w32 as usize;
    let h = h32 as usize;
    let n = gray.data().len();
    let mut count: u64 = 0;
    let mut i: usize = 0;
    while i < n
        invariant
            is_gray(gray@),
            n == gray@.data.len(),
            n == w * h,
            w == gray@.width,
            h == gray@.height,
            i <= n,
            count == edge_count(gray@, i as int),
            count <= i,
        decreases n - i,
    {
        proof {
            lemma_width_positive(i as int, n as int, w as int, h as int);
        }
        let x = i % w;
        let y = i / w;
        if 1 <= x && x + 1 < w && 1 <= y && y + 1 < h {
            if sobel_sq_at(gray, x, y) > 2500 {
                count = count + 1;
            }
        }
        i = i + 1;
    }
    proof {
        assert(w * h <= usize::MAX);
        if w >= 3 && h >= 3 {
            assert((w - 2) * (h - 2) <= w * h) by (nonlinear_arith)
                requires
                    w >= 3,
                    h >= 3,
            ;
        }
    }
    let interior: u128 = if w < 3 || h < 3 {
        0
    } else {
        (w as u128 - 2) * (h as u128 - 2)
    };
    ratio(count as u128, interior)
}

/// Gradient energy of a grid: the total over interior pixels of
/// `|right - left| + |below - above|` (twice the mean gradient magnitude),
/// and the part of it from pixels where that sum exceeds 40.
pub fn gradient_energy(gray: &OptimizedImageBuffer) -> (r: (u128, u128))
    requires
        is_gray(gray@),
    ensures
        r.0 == total_energy(gray@, gray@.data.len() as int),
        r.1 == high_energy(gray@, gray@.data.len() as int),
        r.1 <= r.0,
        r.0 <= 0xffff_ffff_ffff_ffff_ffffu128,
{
    let (w32, h32) = gray.dimensions();
    let w = w32 as usize;
    let h = h32 as usize;
    let n = gray.data().len();
    let mut total: u128 = 0;
    let mut high: u128 = 0;
    let mut i: usize = 0;
    while i < n
        invariant
            is_gray(gray@),
            n == gray@.data.len(),
            n == w * h,
            w == gray@.width,
            h == gray@.height,
            i <= n,
            total == total_energy(gray@, i as int),
            high == high_energy(gray@, i as int),
            high <= total,
            total <= 510 * i,
        decreases n - i,
    {
        proof {
            lemma_width_positive(i as int, n as int, w as int, h as int);
        }
        let x = i % w;
        let y = i / w;
        if 1 <= x && x + 1 < w && 1 <= y && y + 1 < h {
            let l = sample_at(gray, x - 1, y) as i32;
            let rt = sample_at(gray, x + 1, y) as i32;
            let t = sample_at(gray, x, y - 1) as i32;
            let b = sample_at(gray, x, y + 1) as i32;
            let dh = if rt >= l { rt - l } else { l - rt };
            let dv = if b >= t { b - t } else { t - b };
            let e = (dh + dv) as u128;
            total = total + e;
            if e > 40 {
                high = high + e;
            }
        }
        i = i + 1;
    }
    (total, high)
}

/// Share of gradient energy that comes from pixels whose mean central
/// difference exceeds 20; 0 when the grid has no gradient energy.
pub fn calculate_high_frequency_ratio(gray: &OptimizedImageBuffer) -> (r: u32)
    requires
        is_gray(gray@),
    ensures
        r as int == high_frequency_ratio_of(gray@),
{
    let (total, high) = gradient_energy(gray);
    ratio(high, total)
}

/// 1 when the neighbour sample `nb` is at least the centre sample `c`.
pub open spec fn lbp_bit(nb: int, c: int) -> int {
    if nb >= c { 1 } else { 0 }
}

/// Local binary pattern code of interior pixel `(x, y)`: bit `i` is set when
/// the `i`-th neighbour is at least the centre, neighbours taken clockwise on
/// screen from the top-left: top-left, top, top-right, right, bottom-right,
/// bottom, bottom-left, left.
pub open spec fn lbp_code(g: RasterView, x: int, y: int) -> int {
    let c = g.at(x, y);
    lbp_bit(g.at(x - 1, y - 1), c) + 2 * lbp_bit(g.at(x, y - 1), c) + 4 * lbp_bit(g.at(x + 1, y - 1), c)
        + 8 * lbp_bit(g.at(x + 1, y), c) + 16 * lbp_bit(g.at(x + 1, y + 1), c) + 32 * lbp_bit(
        g.at(x, y + 1),
        c,
    ) + 64 * lbp_bit(g.at(x - 1, y + 1), c) + 128 * lbp_bit(g.at(x - 1, y), c)
}

/// Number of interior pixels among the first `n` flat indices whose pattern
/// code is `code`.
pub open spec fn lbp_count(g: RasterView, n: int, code: int) -> int
    decreases n,
{
    if n <= 0 {
        0
    } else {
        lbp_count(g, n - 1, code) + if g.interior(col(g, n - 1), row(g, n - 1)) && lbp_code(
            g,
            col(g, n - 1),
            row(g, n - 1),
        ) == code {
            1int
        } else {
            0int
        }
    }
}

fn lbp_at(g: &OptimizedImageBuffer, x: usize, y: usize) -> (r: usize)
    requires
        is_gray(g@),
        g@.interior(x as int, y as int),
    ensures
        r as int == lbp_code(g@, x as int, y as int),
        r < 256,
{
    let _dims = g.dimensions();
    let c = sample_at(g, x, y);
    let mut code: usize = 0;
    if sample_at(g, x - 1, y - 1) >= c {
        code = code + 1;
    }
    if sample_at(g, x, y - 1) >= c {
        code = code + 2;
    }
    if sample_at(g, x + 1, y - 1) >= c {
        code = code + 4;
    }
    if sample_at(g, x + 1, y) >= c {
        code = code + 8;
    }
    if sample_at(g, x + 1, y + 1) >= c {
        code = code + 16;
    }
    if sample_at(g, x, y + 1) >= c {
        code = code + 32;
    }
    if sample_at(g, x - 1, y + 1) >= c {
        code = code + 64;
    }
    if sample_at(g, x - 1, y) >= c {
        code = code + 128;
    }
    code
}

/// Histogram of the 256 local binary pattern codes over the interior pixels.
/// Texture complexity is the Shannon entropy of this histogram divided by 8.
pub fn lbp_histogram(gray: &OptimizedImageBuffer) -> (hist: Vec<u64>)
    requires
        is_gray(gray@),
    ensures
        hist@.len() == 256,
        forall|c: int| 0 <= c < 256 ==> hist@[c] == lbp_count(gray@, gray@.data.len() as int, c),
{
    let (w32, h32) = gray.dimensions();
    let w = w32 as usize;
    let h = h32 as usize;
    let n = gray.data().len();
    let mut hist: Vec<u64> = vec![0u64; 256];
    let mut i: usize = 0;
    while i < n
        invariant
            is_gray(gray@),
            n == gray@.data.len(),
            n == w * h,
            w == gray@.width,
            h == gray@.height,
            i <= n,
            hist@.len() == 256,
            forall|c: int| 0 <= c < 256 ==> #[trigger] hist@[c] == lbp_count(gray@, i as int, c),
            forall|c: int| 0 <= c < 256 ==> #[trigger] hist@[c] <= i,
        decreases n - i,
    {
        proof {
            lemma_width_positive(i as int, n as int, w as int, h as int);
        }
        let x = i % w;
        let y = i / w;
        if 1 <= x && x + 1 < w && 1 <= y && y + 1 < h {
            let code = lbp_at(gray, x, y);
            let v = hist[code];
            hist.set(code, v + 1);
        }
        i = i + 1;
    }
    hist
}

/// Perceptual quality requirement from resolution (above 2M pixels 1.0, above
/// 1M 0.9, above 500K 0.8, else 0.7), times 0.9 when the aspect ratio
/// `width / height` lies outside `[0.33, 3.0]`.
pub open spec fn perceptual_score_of(width: int, height: int) -> int {
    let pixels = width * height;
    let base = if pixels > 2_000_000 {
        10000int
    } else if pixels > 1_000_000 {
        9000int
    } else if pixels > 500_000 {
        8000int
    } else {
        7000int
    };
    if height == 0 || 100 * width < 33 * height || width > 3 * height {
        base * 9 / 10
    } else {
        base
    }
}

/// Perceptual quality requirement of an image of the given dimensions.
pub fn calculate_perceptual_quality_score(width: u32, height: u32) -> (r: u32)
    ensures
        r as int == perceptual_score_of(width as int, height as int),
        r <= RATIO_ONE,
{
    proof {
        assert(width * height <= 0xffff_ffff_ffff_ffffu64) by (nonlinear_arith)
            requires
                width <= 0xffff_ffffu32,
                height <= 0xffff_ffffu32,
        ;
    }
    let pixels = width as u64 * height as u64;
    let base: u32 = if pixels > 2_000_000 {
        10000
    } else if pixels > 1_000_000 {
        9000
    } else if pixels > 500_000 {
        8000
    } else {
        7000
    };
    let (w, h) = (width as u64, height as u64);
    if h == 0 || 100 * w < 33 * h || w > 3 * h {
        base * 9 / 10
    } else {
        base
    }
}

proof fn lemma_lbp_count_zero(g: RasterView, n: int, code: int)
    requires
        g.width < 3 || g.height < 3,
    ensures
        lbp_count(g, n, code) == 0,
    decreases n,
{
    if n > 0 {
        lemma_lbp_count_zero(g, n - 1, code);
    }
}

/// A grid narrower or shorter than 3 has edge density 0 and an empty pattern
/// histogram, hence texture complexity 0.
pub proof fn lemma_small_grid_measures(g: RasterView)
    requires
        is_gray(g),
        g.width < 3 || g.height < 3,
    ensures
        edge_density_of(g) == 0,
        forall|c: int| 0 <= c < 256 ==> lbp_count(g, g.data.len() as int, c) == 0,
{
    assert forall|c: int| 0 <= c < 256 implies lbp_count(g, g.data.len() as int, c) == 0 by {
        lemma_lbp_count_zero(g, g.data.len() as int, c);
    }
}

/// A perceptual score scaled for a recommendation by
/// `0.8 + 0.2 * min(unique_colors, 65536) / 65536`, rounded down and capped at 1.
pub open spec fn color_scaled_score(score: int, unique_colors: int) -> int {
    let u = if unique_colors > 65536 { 65536int } else { unique_colors };
    let p = score * (262144 + u) / 327680;
    if p > 10000 {
        10000
    } else {
        p
    }
}

/// Perceptual quality requirement of an image for a format recommendation:
/// the resolution score scaled by the image's colour count.
pub fn calculate_color_scaled_perceptual_score(width: u32, height: u32, unique_colors: u32) -> (r: u32)
    ensures
        r as int == color_scaled_score(perceptual_score_of(width as int, height as int), unique_colors as int),
        r <= RATIO_ONE,
{
    let score = calculate_perceptual_quality_score(width, height) as u64;
    let u: u64 = if unique_colors > 65536 {
        65536
    } else {
        unique_colors as u64
    };
    proof {
        assert(score * (262144 + u) <= 10000 * 327680) by (nonlinear_arith)
            requires
                score <= 10000,
                u <= 65536,
        ;
    }
    let p = score * (262144 + u) / 327680;
    if p > 10000 {
        10000
    } else {
        p as u32
    }
}

/// Every sample of the grid equals `v`.
pub open spec fn is_flat(g: RasterView, v: u8) -> bool {
    forall|i: int| 0 <= i < g.data.len() ==> g.data[i] == v
}

proof fn lemma_flat_at(g: RasterView, v: u8, x: int, y: int)
    requires
        is_gray(g),
        is_flat(g, v),
        0 <= x < g.width,
        0 <= y < g.height,
    ensures
        g.at(x, y) == v as int,
{
    lemma_grid_index(x, y, g.width as int, g.height as int);
}

proof fn lemma_flat_pixel(g: RasterView, v: u8, j: int)
    requires
        is_gray(g),
        is_flat(g, v),
        0 <= j < g.data.len(),
    ensures
        energy_at(g, j) == 0,
        !is_edge(g, j),
{
    let (x, y) = (col(g, j), row(g, j));
    if g.interior(x, y) {
        lemma_flat_at(g, v, x - 1, y - 1);
        lemma_flat_at(g, v, x, y - 1);
        lemma_flat_at(g, v, x + 1, y - 1);
        lemma_flat_at(g, v, x - 1, y);
        lemma_flat_at(g, v, x + 1, y);
        lemma_flat_at(g, v, x - 1, y + 1);
        lemma_flat_at(g, v, x, y + 1);
        lemma_flat_at(g, v, x + 1, y + 1);
        assert(g.sobel_x(x, y) == 0 && g.sobel_y(x, y) == 0);
    }
}

proof fn lemma_flat_sums(g: RasterView, v: u8, n: int)
    requires
        is_gray(g),
        is_flat(g, v),
        n <= g.data.len(),
    ensures
        total_energy(g, n) == 0,
        high_energy(g, n) == 0,
        edge_count(g, n) == 0,
    decreases n,
{
    if n > 0 {
        lemma_flat_sums(g, v, n - 1);
        lemma_flat_pixel(g, v, n - 1);
    }
}

/// A grid whose samples are all equal has edge density 0 and
/// high-frequency ratio 0.
pub proof fn lemma_flat_grid_measures(g: RasterView, v: u8)
    requires
        is_gray(g),
        is_flat(g, v),
    ensures
        edge_density_of(g) == 0,
        high_frequency_ratio_of(g) == 0,
{
    lemma_flat_sums(g, v, g.data.len() as int);
}

} // verus!
