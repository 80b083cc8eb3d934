//! Numeric kernels over flat arrays of 8-bit pixel samples.

use vstd::arithmetic::div_mod::{lemma_fundamental_div_mod, lemma_fundamental_div_mod_converse, lemma_mod_bound};
use vstd::prelude::*;

verus! {

/// Clamps an exact value to the byte range.
pub open spec fn clamp_byte(n: int) -> int {
    if n < 0 {
        0
    } else if n > 255 {
        255
    } else {
        n
    }
}

/// Luma of one pixel, in the standard weights scaled by 1000.
pub open spec fn luma_of(r: int, g: int, b: int) -> int {
    clamp_byte((299 * r + 587 * g + 114 * b) / 1000)
}

/// Blue-difference chroma of one pixel, offset by 128.
pub open spec fn chroma_u_of(r: int, g: int, b: int) -> int {
    clamp_byte((-169 * r - 331 * g + 500 * b + 128000) / 1000)
}

/// Red-difference chroma of one pixel, offset by 128.
pub open spec fn chroma_v_of(r: int, g: int, b: int) -> int {
    clamp_byte((500 * r - 419 * g - 81 * b + 128000) / 1000)
}

/// Red sample recovered from luma and chroma.
pub open spec fn red_of(y: int, u: int, v: int) -> int {
    clamp_byte((1000 * y + 1402 * (v - 128)) / 1000)
}

/// Green sample recovered from luma and chroma.
pub open spec fn green_of(y: int, u: int, v: int) -> int {
    clamp_byte((1000 * y - 344 * (u - 128) - 714 * (v - 128)) / 1000)
}

/// Blue sample recovered from luma and chroma.
pub open spec fn blue_of(y: int, u: int, v: int) -> int {
    clamp_byte((1000 * y + 1772 * (u - 128)) / 1000)
}

/// Sample `j` of the luma/chroma image of the interleaved RGB samples `s`.
pub open spec fn yuv_sample(s: Seq<u8>, j: int) -> int {
    let p = j / 3;
    let (r, g, b) = (s[3 * p] as int, s[3 * p + 1] as int, s[3 * p + 2] as int);
    if j % 3 == 0 {
        luma_of(r, g, b)
    } else if j % 3 == 1 {
        chroma_u_of(r, g, b)
    } else {
        chroma_v_of(r, g, b)
    }
}

/// Sample `j` of the RGB image of the interleaved luma/chroma samples `s`.
pub open spec fn rgb_sample(s: Seq<u8>, j: int) -> int {
    let p = j / 3;
    let (y, u, v) = (s[3 * p] as int, s[3 * p + 1] as int, s[3 * p + 2] as int);
    if j % 3 == 0 {
        red_of(y, u, v)
    } else if j % 3 == 1 {
        green_of(y, u, v)
    } else {
        blue_of(y, u, v)
    }
}

/// The whole luma/chroma conversion of an RGB sample array.
pub open spec fn yuv_of(s: Seq<u8>) -> Seq<u8> {
    Seq::new(s.len(), |j: int| yuv_sample(s, j) as u8)
}

/// The whole RGB conversion of a luma/chroma sample array.
pub open spec fn rgb_of(s: Seq<u8>) -> Seq<u8> {
    Seq::new(s.len(), |j: int| rgb_sample(s, j) as u8)
}

/// Number of pixels in a conversion block when none is given.
pub const DEFAULT_BLOCK_PIXELS: usize = 4096;

fn byte_of_thousandths(num: i32) -> (r: u8)
    ensures
        r as int == clamp_byte(num as int / 1000),
{
    if num < 0 {
        0
    } else if num / 1000 > 255 {
        255
    } else {
        (num / 1000) as u8
    }
}

/// Converts pixels `start..end` of an RGB array to luma/chroma samples.
/// Blocks share nothing, so they may be converted on separate workers.
pub fn rgb_to_yuv_block(rgb: &Vec<u8>, start: usize, end: usize) -> (out: Vec<u8>)
    requires
        rgb@.len() % 3 == 0,
        start <= end,
        3 * end <= rgb@.len(),
    ensures
        out@ == yuv_of(rgb@).subrange(3 * start as int, 3 * end as int),
{
    let n = rgb.len();
    let mut out: Vec<u8> = Vec::with_capacity(3 * (end - start));
    let mut i: usize = start;
    while i < end
        invariant
            start <= i <= end,
            n == rgb@.len(),
            3 * end <= rgb@.len(),
            out@.len() == 3 * (i - start),
            forall|j: int|
                0 <= j < out@.len() ==> out@[j] as int == yuv_sample(rgb@, 3 * start + j),
        decreases end - i,
    {
        let r = rgb[3 * i] as i32;
        let g = rgb[3 * i + 1] as i32;
        let b = rgb[3 * i + 2] as i32;
        out.push(byte_of_thousandths(299 * r + 587 * g + 114 * b));
        out.push(byte_of_thousandths(-169 * r - 331 * g + 500 * b + 128000));
        out.push(byte_of_thousandths(500 * r - 419 * g - 81 * b + 128000));
        proof {
            let k = 3 * i as int;
            assert(k / 3 == i && (k + 1) / 3 == i && (k + 2) / 3 == i);
            assert(k % 3 == 0 && (k + 1) % 3 == 1 && (k + 2) % 3 == 2);
        }
        i = i + 1;
    }
    proof {
        assert(out@ =~= yuv_of(rgb@).subrange(3 * start as int, 3 * end as int));
    }
    out
}

/// Converts pixels `start..end` of a luma/chroma array back to RGB samples.
pub fn yuv_to_rgb_block(yuv: &Vec<u8>, start: usize, end: usize) -> (out: Vec<u8>)
    requires
        yuv@.len() % 3 == 0,
        start <= end,
        3 * end <= yuv@.len(),
    ensures
        out@ == rgb_of(yuv@).subrange(3 * start as int, 3 * end as int),
{
    let n = yuv.len();
    let mut out: Vec<u8> = Vec::with_capacity(3 * (end - start));
    let mut i: usize = start;
    while i < end
        invariant
            start <= i <= end,
            n == yuv@.len(),
            3 * end <= yuv@.len(),
            out@.len() == 3 * (i - start),
            forall|j: int|
                0 <= j < out@.len() ==> out@[j] as int == rgb_sample(yuv@, 3 * start + j),
        decreases end - i,
    {
        let y = yuv[3 * i] as i32;
        let u = yuv[3 * i + 1] as i32;
        let v = yuv[3 * i + 2] as i32;
        out.push(byte_of_thousandths(1000 * y + 1402 * (v - 128)));
        out.push(byte_of_thousandths(1000 * y - 344 * (u - 128) - 714 * (v - 128)));
        out.push(byte_of_thousandths(1000 * y + 1772 * (u - 128)));
        proof {
            let k = 3 * i as int;
            assert(k / 3 == i && (k + 1) / 3 == i && (k + 2) / 3 == i);
            assert(k % 3 == 0 && (k + 1) % 3 == 1 && (k + 2) % 3 == 2);
        }
        i = i + 1;
    }
    proof {
        assert(out@ =~= rgb_of(yuv@).subrange(3 * start as int, 3 * end as int));
    }
    out
}

/// Converts interleaved RGB samples to luma/chroma samples, block by block.
/// The result is the same for every block size.
pub fn rgb_to_yuv_blocked(rgb: &Vec<u8>, block_pixels: usize) -> (out: Vec<u8>)
    requires
        rgb@.len() % 3 == 0,
        block_pixels > 0,
    ensures
        out@ == yuv_of(rgb@),
{
    let pixels = rgb.len() / 3;
    let mut out: Vec<u8> = Vec::with_capacity(rgb.len());
    let mut start: usize = 0;
    while start < pixels
        invariant
            pixels == rgb@.len() / 3,
            rgb@.len() % 3 == 0,
            block_pixels > 0,
            start <= pixels,
            out@ == yuv_of(rgb@).subrange(0, 3 * start as int),
        decreases pixels - start,
    {
        let end = if pixels - start < block_pixels { pixels } else { start + block_pixels };
        let mut part = rgb_to_yuv_block(rgb, start, end);
        out.append(&mut part);
        proof {
            assert(out@ =~= yuv_of(rgb@).subrange(0, 3 * end as int));
        }
        start = end;
    }
    proof {
        assert(out@ =~= yuv_of(rgb@));
    }
    out
}

/// Converts interleaved luma/chroma samples back to RGB, block by block.
/// The result is the same for every block size.
pub fn yuv_to_rgb_blocked(yuv: &Vec<u8>, block_pixels: usize) -> (out: Vec<u8>)
    requires
        yuv@.len() % 3 == 0,
        block_pixels > 0,
    ensures
        out@ == rgb_of(yuv@),
{
    let pixels = yuv.len() / 3;
    let mut out: Vec<u8> = Vec::with_capacity(yuv.len());
    let mut start: usize = 0;
    while start < pixels
        invariant
            pixels == yuv@.len() / 3,
            yuv@.len() % 3 == 0,
            block_pixels > 0,
            start <= pixels,
            out@ == rgb_of(yuv@).subrange(0, 3 * start as int),
        decreases pixels - start,
    {
        let end = if pixels - start < block_pixels { pixels } else { start + block_pixels };
        let mut part = yuv_to_rgb_block(yuv, start, end);
        out.append(&mut part);
        proof {
            assert(out@ =~= rgb_of(yuv@).subrange(0, 3 * end as int));
        }
        start = end;
    }
    proof {
        assert(out@ =~= rgb_of(yuv@));
    }
    out
}

/// Parallel-friendly kernels over flat pixel arrays.
pub struct SimdProcessor;

impl SimdProcessor {
    /// Converts interleaved RGB samples to luma/chroma samples in blocks of
    /// the default size.
    pub fn rgb_to_yuv_simd(rgb: &Vec<u8>) -> (out: Vec<u8>)
        requires
            rgb@.len() % 3 == 0,
        ensures
            out@ == yuv_of(rgb@),
    {
        rgb_to_yuv_blocked(rgb, DEFAULT_BLOCK_PIXELS)
    }

    /// Converts interleaved luma/chroma samples to RGB in blocks of the
    /// default size.
    pub fn yuv_to_rgb_simd(yuv: &Vec<u8>) -> (out: Vec<u8>)
        requires
            yuv@.len() % 3 == 0,
        ensures
            out@ == rgb_of(yuv@),
    {
        yuv_to_rgb_blocked(yuv, DEFAULT_BLOCK_PIXELS)
    }
}

/// Index, rounded to nearest, of the quantization step closest to `x`
/// among `levels` evenly spaced values.
pub open spec fn quant_step(x: int, levels: int) -> int {
    (2 * x * (levels - 1) + 255) / 510
}

/// The value of `x` quantized to `levels` evenly spaced values in `0..=255`:
/// `round(round(x * (levels - 1) / 255) * 255 / (levels - 1))`.
pub open spec fn quantize_sample(x: int, levels: int) -> int {
    clamp_byte((510 * quant_step(x, levels) + (levels - 1)) / (2 * (levels - 1)))
}

/// The quantization of every sample of `s`.
pub open spec fn quantize_of(s: Seq<u8>, levels: int) -> Seq<u8> {
    Seq::new(s.len(), |j: int| quantize_sample(s[j] as int, levels) as u8)
}

proof fn lemma_quantize_bounds(x: int, levels: int)
    requires
        0 <= x <= 255,
        2 <= levels <= 255,
    ensures
        0 <= quant_step(x, levels) <= levels - 1,
        0 <= (510 * quant_step(x, levels) + (levels - 1)) / (2 * (levels - 1)) <= 255,
        2 * (levels - 1) * ((510 * quant_step(x, levels) + (levels - 1)) / (2 * (levels - 1)))
            <= 510 * quant_step(x, levels) + (levels - 1),
        510 * quant_step(x, levels) + (levels - 1) < 2 * (levels - 1) * (
        (510 * quant_step(x, levels) + (levels - 1)) / (2 * (levels - 1))) + 2 * (levels - 1),
{
    let m = levels - 1;
    let a = 2 * x * m + 255;
    let k = quant_step(x, levels);
    lemma_fundamental_div_mod(a, 510);
    lemma_mod_bound(a, 510);
    assert(x * m <= 255 * m) by (nonlinear_arith)
        requires
            0 <= x <= 255,
            m >= 1,
    ;
    assert(0 <= k <= m) by (nonlinear_arith)
        requires
            a == 510 * k + a % 510,
            0 <= a % 510 < 510,
            a == 2 * x * m + 255,
            x * m <= 255 * m,
            x >= 0,
            m >= 1,
    ;
    let b = 510 * k + m;
    let y = b / (2 * m);
    lemma_fundamental_div_mod(b, 2 * m);
    lemma_mod_bound(b, 2 * m);
    assert(0 <= y <= 255) by (nonlinear_arith)
        requires
            b == 2 * m * y + b % (2 * m),
            0 <= b % (2 * m) < 2 * m,
            b == 510 * k + m,
            0 <= k <= m,
            m >= 1,
    ;
}

/// Quantizing twice to the same number of levels gives the same samples as
/// quantizing once.
pub proof fn lemma_quantize_idempotent(x: u8, levels: u8)
    requires
        levels >= 2,
    ensures
        quantize_sample(quantize_sample(x as int, levels as int), levels as int)
            == quantize_sample(x as int, levels as int),
{
    let m = levels - 1;
    let k = quant_step(x as int, levels as int);
    lemma_quantize_bounds(x as int, levels as int);
    let y = quantize_sample(x as int, levels as int);
    let a2 = 2 * y * m + 255;
    assert(510 * k <= a2 < 510 * k + 510) by (nonlinear_arith)
        requires
            2 * m * y <= 510 * k + m,
            510 * k + m < 2 * m * y + 2 * m,
            a2 == 2 * y * m + 255,
            1 <= m <= 254,
    ;
    lemma_fundamental_div_mod_converse(a2, 510, k, a2 - 510 * k);
    assert(quant_step(y, levels as int) == k);
}

/// Quantizing an array twice gives the same array as quantizing it once.
pub proof fn lemma_quantize_of_idempotent(s: Seq<u8>, levels: u8)
    requires
        levels >= 2,
    ensures
        quantize_of(quantize_of(s, levels as int), levels as int) == quantize_of(s, levels as int),
{
    assert forall|j: int| 0 <= j < s.len() implies quantize_of(quantize_of(s, levels as int), levels as int)[j]
        == quantize_of(s, levels as int)[j] by {
        lemma_quantize_bounds(s[j] as int, levels as int);
        lemma_quantize_idempotent(s[j], levels);
    }
    assert(quantize_of(quantize_of(s, levels as int), levels as int) =~= quantize_of(s, levels as int));
}

fn quantize_one(x: u8, levels: u8) -> (r: u8)
    requires
        levels >= 2,
    ensures
        r as int == quantize_sample(x as int, levels as int),
{
    proof {
        lemma_quantize_bounds(x as int, levels as int);
    }
    let m = (levels - 1) as u32;
    let k = (2 * (x as u32) * m + 255) / 510;
    let y = (510 * k + m) / (2 * m);
    y as u8
}

impl SimdProcessor {
    /// Maps every sample, in place, to the nearest of `levels` evenly spaced
    /// values in `0..=255`.
    pub fn quantize_colors_simd(pixels: &mut Vec<u8>, levels: u8)
        requires
            levels >= 2,
        ensures
            final(pixels)@ == quantize_of(old(pixels)@, levels as int),
    {
        let n = pixels.len();
        let mut i: usize = 0;
        while i < n
            invariant
                n == pixels@.len(),
                n == old(pixels)@.len(),
                levels >= 2,
                i <= n,
                forall|j: int| 0 <= j < i ==> pixels@[j] as int == quantize_sample(old(pixels)@[j] as int, levels as int),
                forall|j: int| i <= j < n ==> pixels@[j] == old(pixels)@[j],
            decreases n - i,
        {
            let q = quantize_one(pixels[i], levels);
            pixels.set(i, q);
            i = i + 1;
        }
        proof {
            assert(pixels@ =~= quantize_of(old(pixels)@, levels as int));
        }
    }
}

/// Composite alpha, in units of 1/65025, of an overlay alpha `oa` over a base
/// alpha `ba` (both in `0..=255`).
pub open spec fn blend_alpha(ba: int, oa: int) -> int {
    255 * oa + ba * (255 - oa)
}

/// Sample `j` of the "over" composite of the RGBA arrays `base` and `overlay`.
pub open spec fn blend_sample(base: Seq<u8>, overlay: Seq<u8>, j: int) -> int {
    let p = j / 4;
    let ba = base[4 * p + 3] as int;
    let oa = overlay[4 * p + 3] as int;
    let a = blend_alpha(ba, oa);
    if a == 0 {
        0
    } else if j % 4 == 3 {
        clamp_byte(a / 255)
    } else {
        clamp_byte((255 * (overlay[j] as int) * oa + (base[j] as int) * ba * (255 - oa)) / a)
    }
}

/// The "over" composite of two RGBA arrays of equal length.
pub open spec fn blend_of(base: Seq<u8>, overlay: Seq<u8>) -> Seq<u8> {
    Seq::new(base.len(), |j: int| blend_sample(base, overlay, j) as u8)
}

fn blend_channel(bc: u8, oc: u8, ba: u8, oa: u8, a: u32) -> (r: u8)
    requires
        a > 0,
        a == blend_alpha(ba as int, oa as int),
    ensures
        r as int == clamp_byte(
            (255 * (oc as int) * (oa as int) + (bc as int) * (ba as int) * (255 - oa as int)) / (a as int),
        ),
{
    let inv = 255 - oa as u32;
    proof {
        assert((bc as u32) * (ba as u32) <= 65025) by (nonlinear_arith)
            requires
                bc <= 255,
                ba <= 255,
        ;
        assert((bc as u32) * (ba as u32) * inv <= 65025 * 255) by (nonlinear_arith)
            requires
                (bc as u32) * (ba as u32) <= 65025,
                inv <= 255,
        ;
        assert(255 * (oc as u32) * (oa as u32) <= 255 * 65025) by (nonlinear_arith)
            requires
                oc <= 255,
                oa <= 255,
        ;
    }
    let num = 255 * (oc as u32) * (oa as u32) + (bc as u32) * (ba as u32) * inv;
    let q = num / a;
    if q > 255 {
        255
    } else {
        q as u8
    }
}

impl SimdProcessor {
    /// Composites `overlay` over `base` ("over" operator) into `output`, pixel by
    /// pixel. A pixel whose composite alpha is zero comes out as four zeros.
    pub fn alpha_blend_simd(base: &Vec<u8>, overlay: &Vec<u8>, output: &mut Vec<u8>)
        requires
            base@.len() == overlay@.len(),
            base@.len() == old(output)@.len(),
            base@.len() % 4 == 0,
        ensures
            final(output)@ == blend_of(base@, overlay@),
    {
        let n = base.len();
        let mut i: usize = 0;
        while i < n
            invariant
                n == base@.len(),
                n == overlay@.len(),
                n == output@.len(),
                n % 4 == 0,
                i % 4 == 0,
                i <= n,
                forall|j: int| 0 <= j < i ==> output@[j] as int == blend_sample(base@, overlay@, j),
            decreases n - i,
        {
            let ba = base[i + 3];
            let oa = overlay[i + 3];
            proof {
                assert((ba as u32) * (255 - oa as u32) <= 65025) by (nonlinear_arith)
                    requires
                        ba <= 255,
                        oa <= 255,
                ;
            }
            let a: u32 = 255 * (oa as u32) + (ba as u32) * (255 - oa as u32);
            proof {
                assert((ba as u32) * (255 - oa as u32) <= 255 * (255 - oa as u32)) by (nonlinear_arith)
                    requires
                        ba <= 255,
                        oa <= 255,
                ;
            }
            let mut c: usize = 0;
            while c < 4
                invariant
                    n == base@.len(),
                    n == overlay@.len(),
                    n == output@.len(),
                    i % 4 == 0,
                    i + 4 <= n,
                    c <= 4,
                    ba == base@[i + 3],
                    oa == overlay@[i + 3],
                    a == blend_alpha(ba as int, oa as int),
                    a <= 65025,
                    forall|j: int| 0 <= j < i + c ==> output@[j] as int == blend_sample(base@, overlay@, j),
                decreases 4 - c,
            {
                proof {
                    let j = (i + c) as int;
                    assert(j / 4 == i / 4 && 4 * (j / 4) == i);
                    assert(j % 4 == c);
                }
                let v = if a == 0 {
                    0
                } else if c == 3 {
                    (a / 255) as u8
                } else {
                    blend_channel(base[i + c], overlay[i + c], ba, oa, a)
                };
                output.set(i + c, v);
                c = c + 1;
            }
            i = i + 4;
        }
        proof {
            assert(output@ =~= blend_of(base@, overlay@));
        }
    }
}

/// Every pixel of `s` has equal red, green and blue samples.
pub open spec fn all_gray(s: Seq<u8>) -> bool {
    forall|p: int| 0 <= p < s.len() / 3 ==> #[trigger] s[3 * p] == s[3 * p + 1] && s[3 * p] == s[3 * p + 2]
}

/// Gray pixels come back unchanged from a conversion to luma/chroma and back.
pub proof fn lemma_gray_round_trip(s: Seq<u8>)
    requires
        s.len() % 3 == 0,
        all_gray(s),
    ensures
        rgb_of(yuv_of(s)) == s,
{
    let y = yuv_of(s);
    assert forall|p: int| 0 <= p < s.len() / 3 implies #[trigger] y[3 * p] == s[3 * p] && y[3 * p + 1] == 128u8
        && y[3 * p + 2] == 128u8 by {
        let k = 3 * p;
        assert(k / 3 == p && (k + 1) / 3 == p && (k + 2) / 3 == p);
        assert(k % 3 == 0 && (k + 1) % 3 == 1 && (k + 2) % 3 == 2);
        assert(s[3 * p] == s[3 * p + 1] && s[3 * p] == s[3 * p + 2]);
        let g = s[k] as int;
        assert((299 * g + 587 * g + 114 * g) / 1000 == g);
        assert((-169 * g - 331 * g + 500 * g + 128000) / 1000 == 128);
        assert((500 * g - 419 * g - 81 * g + 128000) / 1000 == 128);
    }
    assert forall|j: int| 0 <= j < s.len() implies rgb_of(y)[j] == s[j] by {
        let p = j / 3;
        assert(0 <= p < s.len() / 3);
        assert(j == 3 * p || j == 3 * p + 1 || j == 3 * p + 2);
        let g = s[3 * p] as int;
        assert(y[3 * p] == s[3 * p] && y[3 * p + 1] == 128u8 && y[3 * p + 2] == 128u8);
        assert((1000 * g + 1402 * (128 - 128)) / 1000 == g);
        assert((1000 * g - 344 * (128 - 128) - 714 * (128 - 128)) / 1000 == g);
        assert((1000 * g + 1772 * (128 - 128)) / 1000 == g);
    }
    assert(rgb_of(y) =~= s);
}

/// One pixel comes back from a conversion to luma/chroma and back within 3 of
/// itself in every channel.
pub proof fn lemma_pixel_round_trip(r: int, g: int, b: int)
    requires
        0 <= r <= 255,
        0 <= g <= 255,
        0 <= b <= 255,
    ensures
        ({
            let (y, u, v) = (luma_of(r, g, b), chroma_u_of(r, g, b), chroma_v_of(r, g, b));
            &&& -3 <= red_of(y, u, v) - r <= 3
            &&& -3 <= green_of(y, u, v) - g <= 3
            &&& -3 <= blue_of(y, u, v) - b <= 3
        }),
{
    let ny = 299 * r + 587 * g + 114 * b;
    let nu = -169 * r - 331 * g + 500 * b + 128000;
    let nv = 500 * r - 419 * g - 81 * b + 128000;
    let y = luma_of(r, g, b);
    let u = chroma_u_of(r, g, b);
    let v = chroma_v_of(r, g, b);
    assert(0 <= ny <= 255000 && 500 <= nu <= 255500 && 500 <= nv <= 255500);
    assert(1000 * y <= ny < 1000 * y + 1000);
    assert(u <= 255 && 1000 * u <= nu && nu < 1000 * u + 1000 + 500);
    assert(v <= 255 && 1000 * v <= nv && nv < 1000 * v + 1000 + 500);
    assert(u == 255 ==> nu >= 255000);
    assert(v == 255 ==> nv >= 255000);
    let nr = 1000 * y + 1402 * (v - 128);
    let ng = 1000 * y - 344 * (u - 128) - 714 * (v - 128);
    let nb = 1000 * y + 1772 * (u - 128);
    assert(1000 * (nr / 1000) <= nr < 1000 * (nr / 1000) + 1000);
    assert(1000 * (ng / 1000) <= ng < 1000 * (ng / 1000) + 1000);
    assert(1000 * (nb / 1000) <= nb < 1000 * (nb / 1000) + 1000);
}

/// Converting interleaved RGB samples to luma/chroma and back changes no
/// sample by more than 3.
pub proof fn lemma_round_trip_within_three(s: Seq<u8>)
    requires
        s.len() % 3 == 0,
    ensures
        rgb_of(yuv_of(s)).len() == s.len(),
        forall|j: int| 0 <= j < s.len() ==> -3 <= #[trigger] rgb_of(yuv_of(s))[j] - s[j] <= 3,
{
    let y = yuv_of(s);
    assert forall|j: int| 0 <= j < s.len() implies -3 <= #[trigger] rgb_of(y)[j] - s[j] <= 3 by {
        let p = j / 3;
        let k = 3 * p;
        assert(k / 3 == p && (k + 1) / 3 == p && (k + 2) / 3 == p);
        assert(k % 3 == 0 && (k + 1) % 3 == 1 && (k + 2) % 3 == 2);
        assert(k + 2 < s.len());
        let (r, g, b) = (s[k] as int, s[k + 1] as int, s[k + 2] as int);
        lemma_pixel_round_trip(r, g, b);
        assert(y[k] as int == luma_of(r, g, b));
        assert(y[k + 1] as int == chroma_u_of(r, g, b));
        assert(y[k + 2] as int == chroma_v_of(r, g, b));
        assert(j == k || j == k + 1 || j == k + 2);
    }
}

} // verus!
