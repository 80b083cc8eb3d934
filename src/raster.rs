//! Decoded pixel grids and the Sobel edge kernel over grayscale grids.

use vstd::arithmetic::div_mod::{lemma_fundamental_div_mod, lemma_fundamental_div_mod_converse};
use crate::error::CompressionError;
use crate::kernels::{quantize_of, rgb_of, yuv_of, SimdProcessor};
use crate::policy::ImageFormat;
use vstd::prelude::*;

verus! {

/// A pixel grid of `width * height` pixels with `channels` 8-bit samples
/// each, stored row by row.
pub struct OptimizedImageBuffer {
    data: Vec<u8>,
    width: u32,
    height: u32,
    channels: u8,
}

/// What a pixel grid holds, as plain values.
pub struct RasterView {
    pub width: nat,
    pub height: nat,
    pub channels: nat,
    pub data: Seq<u8>,
}

impl View for OptimizedImageBuffer {
    type V = RasterView;

    closed spec fn view(&self) -> RasterView {
        RasterView {
            width: self.width as nat,
            height: self.height as nat,
            channels: self.channels as nat,
            data: self.data@,
        }
    }
}

impl RasterView {
    /// The sample array holds exactly one sample per channel per pixel.
    pub open spec fn wf(self) -> bool {
        self.data.len() == self.width * self.height * self.channels
    }

    /// Sample of pixel `(x, y)` in a one-channel grid.
    pub open spec fn at(self, x: int, y: int) -> int {
        self.data[y * self.width + x] as int
    }

    /// Whether pixel `(x, y)` has all eight neighbours inside the grid.
    pub open spec fn interior(self, x: int, y: int) -> bool {
        1 <= x < self.width - 1 && 1 <= y < self.height - 1
    }

    /// Horizontal Sobel response at `(x, y)`.
    pub open spec fn sobel_x(self, x: int, y: int) -> int {
        -self.at(x - 1, y - 1) + self.at(x + 1, y - 1) - 2 * self.at(x - 1, y) + 2 * self.at(x + 1, y)
            - self.at(x - 1, y + 1) + self.at(x + 1, y + 1)
    }

    /// Vertical Sobel response at `(x, y)`.
    pub open spec fn sobel_y(self, x: int, y: int) -> int {
        -self.at(x - 1, y - 1) - 2 * self.at(x, y - 1) - self.at(x + 1, y - 1) + self.at(x - 1, y + 1)
            + 2 * self.at(x, y + 1) + self.at(x + 1, y + 1)
    }

    /// Squared Sobel gradient magnitude at `(x, y)`.
    pub open spec fn sobel_sq(self, x: int, y: int) -> int {
        self.sobel_x(x, y) * self.sobel_x(x, y) + self.sobel_y(x, y) * self.sobel_y(x, y)
    }
}

/// `r` is the integer square root of `n`, capped at 255.
pub open spec fn is_capped_sqrt(r: int, n: int) -> bool {
    0 <= r <= 255 && r * r <= n && (r == 255 || n < (r + 1) * (r + 1))
}

/// `out` is the Sobel edge map of the one-channel grid `g`: the capped
/// gradient magnitude at interior pixels, zero on the border.
pub open spec fn is_sobel_of(out: RasterView, g: RasterView) -> bool {
    &&& out.width == g.width
    &&& out.height == g.height
    &&& out.channels == 1
    &&& out.data.len() == g.width * g.height
    &&& forall|x: int, y: int|
        0 <= x < g.width && 0 <= y < g.height ==> {
            if g.interior(x, y) {
                is_capped_sqrt(#[trigger] out.at(x, y), g.sobel_sq(x, y))
            } else {
                out.at(x, y) == 0
            }
        }
}

/// Pixel `(x, y)` of a `w` by `h` grid lies at flat index `y * w + x`,
/// inside the grid.
pub proof fn lemma_grid_index(x: int, y: int, w: int, h: int)
    requires
        0 <= x < w,
        0 <= y < h,
    ensures
        0 <= y * w + x < w * h,
        y * w <= w * h,
{
    assert(0 <= y * w + x < w * h && y * w <= w * h) by (nonlinear_arith)
        requires
            0 <= x < w,
            0 <= y < h,
    ;
}

fn grid_len(width: u32, height: u32, channels: u8) -> (r: u128)
    ensures
        r == width * height * channels,
{
    proof {
        assert(width * height <= 0xffff_ffff_ffff_ffffu128) by (nonlinear_arith)
            requires
                width <= 0xffff_ffffu32,
                height <= 0xffff_ffffu32,
        ;
        assert(width * height * channels <= 0xffff_ffff_ffff_ffffu128 * 255) by (nonlinear_arith)
            requires
                width * height <= 0xffff_ffff_ffff_ffffu128,
                channels <= 255,
        ;
    }
    (width as u128 * height as u128) * channels as u128
}

impl OptimizedImageBuffer {
    /// A zero-filled grid.
    pub fn new(width: u32, height: u32, channels: u8) -> (r: Self)
        requires
            width * height * channels <= usize::MAX,
        ensures
            r@.width == width,
            r@.height == height,
            r@.channels == channels,
            r@.data == Seq::new((width * height * channels) as nat, |i: int| 0u8),
    {
        let size = grid_len(width, height, channels) as usize;
        let data = vec![0u8; size];
        proof {
            assert(data@ =~= Seq::new((width * height * channels) as nat, |i: int| 0u8));
        }
        OptimizedImageBuffer { data, width, height, channels }
    }

    /// Takes ownership of `data` as a grid; fails when its length is not
    /// `width * height * channels`.
    pub fn from_vec(data: Vec<u8>, width: u32, height: u32, channels: u8) -> (r: Result<Self, CompressionError>)
        ensures
            data@.len() == width * height * channels ==> (r matches Ok(b) && b@ == (RasterView {
                width: width as nat,
                height: height as nat,
                channels: channels as nat,
                data: data@,
            })),
            data@.len() != width * height * channels ==> (r matches Err(CompressionError::MemoryError(_))),
    {
        let expected = grid_len(width, height, channels);
        if data.len() as u128 != expected {
            return Err(CompressionError::MemoryError(String::from_str("data size does not match dimensions")));
        }
        Ok(OptimizedImageBuffer { data, width, height, channels })
    }

    /// The samples, row by row.
    pub fn data(&self) -> (r: &Vec<u8>)
        ensures
            r@ == self@.data,
    {
        &self.data
    }

    /// Width and height in pixels.
    pub fn dimensions(&self) -> (r: (u32, u32))
        ensures
            r.0 == self@.width,
            r.1 == self@.height,
    {
        (self.width, self.height)
    }

    /// Samples per pixel.
    pub fn channels(&self) -> (r: u8)
        ensures
            r == self@.channels,
    {
        self.channels
    }

    /// A second grid with the same dimensions and samples.
    pub fn clone_shared(&self) -> (r: Self)
        ensures
            r@ == self@,
    {
        OptimizedImageBuffer { data: self.data.clone(), width: self.width, height: self.height, channels: self.channels }
    }
}

fn capped_sqrt(n: u32) -> (r: u8)
    ensures
        is_capped_sqrt(r as int, n as int),
{
    let mut lo: u32 = 0;
    let mut hi: u32 = 256;
    while hi - lo > 1
        invariant
            lo < hi <= 256,
            lo * lo <= n,
            hi == 256 || hi * hi > n,
        decreases hi - lo,
    {
        let mid = lo + (hi - lo) / 2;
        proof {
            assert(mid * mid <= 65536) by (nonlinear_arith)
                requires
                    mid < 256,
            ;
        }
        if mid * mid <= n {
            lo = mid;
        } else {
            hi = mid;
        }
    }
    lo as u8
}

/// Sobel condition on the sample `v` at flat index `j` of a one-channel grid.
pub open spec fn sobel_flat(g: RasterView, v: int, j: int) -> bool {
    let x = j % (g.width as int);
    let y = j / (g.width as int);
    if g.interior(x, y) {
        is_capped_sqrt(v, g.sobel_sq(x, y))
    } else {
        v == 0
    }
}

/// Sample of pixel `(x, y)` of a one-channel grid.
pub fn sample_at(g: &OptimizedImageBuffer, x: usize, y: usize) -> (r: u8)
    requires
        g@.wf(),
        g@.channels == 1,
        x < g@.width,
        y < g@.height,
    ensures
        r as int == g@.at(x as int, y as int),
{
    let n = g.data.len();
    proof {
        lemma_grid_index(x as int, y as int, g@.width as int, g@.height as int);
        assert(n == g@.width * g@.height);
    }
    g.data[y * (g.width as usize) + x]
}

pub fn sobel_sq_at(g: &OptimizedImageBuffer, x: usize, y: usize) -> (r: u32)
    requires
        g@.wf(),
        g@.channels == 1,
        g@.interior(x as int, y as int),
    ensures
        r as int == g@.sobel_sq(x as int, y as int),
{
    let a = sample_at(g, x - 1, y - 1) as i32;
    let b = sample_at(g, x, y - 1) as i32;
    let c = sample_at(g, x + 1, y - 1) as i32;
    let d = sample_at(g, x - 1, y) as i32;
    let f = sample_at(g, x + 1, y) as i32;
    let p = sample_at(g, x - 1, y + 1) as i32;
    let q = sample_at(g, x, y + 1) as i32;
    let s = sample_at(g, x + 1, y + 1) as i32;
    let gx: i32 = -a + c - 2 * d + 2 * f - p + s;
    let gy: i32 = -a - 2 * b - c + p + 2 * q + s;
    proof {
        assert(gx * gx <= 1040400 && gy * gy <= 1040400 && gx * gx >= 0 && gy * gy >= 0) by (nonlinear_arith)
            requires
                -1020 <= gx <= 1020,
                -1020 <= gy <= 1020,
        ;
    }
    (gx * gx + gy * gy) as u32
}

impl SimdProcessor {
    /// Sobel edge map of a one-channel grid: at each interior pixel the
    /// gradient magnitude `sqrt(gx^2 + gy^2)` rounded down and capped at 255,
    /// zero on the border. A grid narrower or shorter than 3 maps to zeros.
    pub fn sobel_edge_detection_simd(gray: &OptimizedImageBuffer) -> (out: OptimizedImageBuffer)
        requires
            gray@.wf(),
            gray@.channels == 1,
        ensures
            out@.wf(),
            is_sobel_of(out@, gray@),
    {
        let w = gray.width as usize;
        let h = gray.height as usize;
        let n = gray.data.len();
        let mut out: Vec<u8> = Vec::with_capacity(n);
        let mut i: usize = 0;
        while i < n
            invariant
                n == gray@.data.len(),
                n == w * h,
                w == gray@.width,
                h == gray@.height,
                gray@.wf(),
                gray@.channels == 1,
                i <= n,
                out@.len() == i,
                forall|j: int| 0 <= j < i ==> sobel_flat(gray@, #[trigger] out@[j] as int, j),
            decreases n - i,
        {
            proof {
                assert(w > 0) by (nonlinear_arith)
                    requires
                        i < n,
                        n == w * h,
                ;
            }
            let x = i % w;
            let y = i / w;
            let v: u8 = if 1 <= x && x + 1 < w && 1 <= y && y + 1 < h {
                capped_sqrt(sobel_sq_at(gray, x, y))
            } else {
                0
            };
            out.push(v);
            i = i + 1;
        }
        let r = OptimizedImageBuffer { data: out, width: gray.width, height: gray.height, channels: 1 };
        proof {
            assert forall|x: int, y: int| 0 <= x < gray@.width && 0 <= y < gray@.height implies {
                if gray@.interior(x, y) {
                    is_capped_sqrt(#[trigger] r@.at(x, y), gray@.sobel_sq(x, y))
                } else {
                    r@.at(x, y) == 0
                }
            } by {
                lemma_grid_index(x, y, w as int, h as int);
                let j = y * w + x;
                lemma_fundamental_div_mod_converse(j, w as int, y, x);
                assert(sobel_flat(gray@, out@[j] as int, j));
            }
        }
        r
    }
}

/// On a grid narrower or shorter than 3 the Sobel edge map is all zeros.
pub proof fn lemma_sobel_small_is_zero(out: RasterView, g: RasterView)
    requires
        g.wf(),
        g.channels == 1,
        g.width < 3 || g.height < 3,
        is_sobel_of(out, g),
    ensures
        forall|i: int| 0 <= i < out.data.len() ==> out.data[i] == 0,
{
    assert forall|i: int| 0 <= i < out.data.len() implies out.data[i] == 0 by {
        let w = g.width as int;
        assert(w > 0) by (nonlinear_arith)
            requires
                0 <= i < g.width * g.height,
                w == g.width,
                g.height >= 0,
        ;
        lemma_fundamental_div_mod(i, w);
        let x = i % w;
        let y = i / w;
        assert(0 <= x < w);
        assert(0 <= y < g.height) by (nonlinear_arith)
            requires
                i == w * y + x,
                0 <= x < w,
                0 <= i < w * g.height,
        ;
        assert(out.at(x, y) == 0);
        assert(y * w + x == i) by (nonlinear_arith)
            requires
                i == w * y + x,
        ;
    }
}

/// Pixel preprocessing before an encode: for an image of at least 100000
/// pixels, JPEG output gets its RGB samples quantized to 64 levels, and WebP
/// or AVIF output of an RGB image gets a luma/chroma round trip. Anything else
/// is left as it is.
pub open spec fn color_optimized(img: RasterView, format: ImageFormat) -> Seq<u8> {
    if img.width * img.height < 100_000 {
        img.data
    } else if format == ImageFormat::Jpeg {
        quantize_of(img.data, 64)
    } else if (format == ImageFormat::WebP || format == ImageFormat::Avif) && img.channels == 3 {
        rgb_of(yuv_of(img.data))
    } else {
        img.data
    }
}

/// Applies the preprocessing of `color_optimized` to a grid; JPEG output
/// expects an RGB grid.
pub fn apply_simd_color_optimization(img: OptimizedImageBuffer, format: ImageFormat) -> (r: OptimizedImageBuffer)
    requires
        img@.wf(),
        img@.channels == 3 || img@.channels == 4,
        format == ImageFormat::Jpeg ==> img@.channels == 3,
    ensures
        r@.width == img@.width,
        r@.height == img@.height,
        r@.channels == img@.channels,
        r@.data == color_optimized(img@, format),
        r@.wf(),
{
    proof {
        assert(img.width * img.height <= 0xffff_ffff_ffff_ffffu64) by (nonlinear_arith)
            requires
                img.width <= 0xffff_ffffu32,
                img.height <= 0xffff_ffffu32,
        ;
    }
    let pixels = img.width as u64 * img.height as u64;
    if pixels < 100_000 {
        return img;
    }
    let OptimizedImageBuffer { data, width, height, channels } = img;
    proof {
        assert(data@.len() % 3 == 0 || channels != 3) by (nonlinear_arith)
            requires
                data@.len() == width * height * channels,
        ;
    }
    match format {
        ImageFormat::Jpeg => {
            let mut data = data;
            SimdProcessor::quantize_colors_simd(&mut data, 64);
            OptimizedImageBuffer { data, width, height, channels }
        },
        ImageFormat::WebP | ImageFormat::Avif => {
            if channels == 3 {
                let yuv = SimdProcessor::rgb_to_yuv_simd(&data);
                let back = SimdProcessor::yuv_to_rgb_simd(&yuv);
                OptimizedImageBuffer { data: back, width, height, channels }
            } else {
                OptimizedImageBuffer { data, width, height, channels }
            }
        },
        ImageFormat::Png => OptimizedImageBuffer { data, width, height, channels },
    }
}

} // verus!
