//! The format and quality decision, a pure function of the measurements,
//! the image's shape and the caller's constraints. Ratios are fixed point
//! with 10000 standing for 1.

use crate::colors::{
    calculate_color_variance, color_variance_of, dominant_colors, estimate_color_count, is_dominant_of, seen_colors,
};
use crate::features::{
    calculate_edge_density, calculate_perceptual_quality_score, color_scaled_score, edge_density_of,
    gradient_energy, high_frequency_ratio_of, is_gray, perceptual_score_of, ratio, ratio_of, total_energy,
};
use crate::raster::OptimizedImageBuffer;
use vstd::prelude::*;
use vstd::string::StrSliceExecFns;

verus! {

/// Output formats the policy chooses among.
#[derive(Debug, Clone, Copy, PartialEq, Eq, Structural)]
pub enum ImageFormat {
    Png,
    Jpeg,
    WebP,
    Avif,
}

/// Colour statistics of an image.
#[derive(Debug, Clone)]
pub struct ColorAnalysis {
    pub unique_colors: u32,
    pub color_diversity: u32,
    pub color_variance: u32,
    pub dominant_colors: Vec<(u8, u8, u8)>,
}

/// Gradient-energy statistics of an image.
#[derive(Debug, Clone)]
pub struct FrequencyAnalysis {
    pub high_frequency_ratio: u32,
    pub low_frequency_ratio: u32,
    /// Twice the summed mean gradient magnitude over interior pixels.
    pub total_energy: u128,
}

/// All measurements of one image.
#[derive(Debug, Clone)]
pub struct AdvancedImageAnalysis {
    pub edge_density: u32,
    pub texture_complexity: u32,
    pub color_analysis: ColorAnalysis,
    pub frequency_analysis: FrequencyAnalysis,
    pub overall_complexity: u32,
    pub perceptual_quality_score: u32,
}

/// Encoder settings chosen for one attempt.
#[derive(Debug, Clone, Copy, PartialEq, Eq, Structural)]
pub struct CompressionPlan {
    pub format: ImageFormat,
    pub quality: u8,
    pub reduce_colors: bool,
    pub progressive: bool,
    pub lossless: bool,
}

/// Weighted blend of the four complexity measures (0.3, 0.25, 0.25, 0.2),
/// capped at 1.
pub open spec fn overall_complexity_of(e: int, t: int, c: int, h: int) -> int {
    let s = (3000 * e + 2500 * t + 2500 * c + 2000 * h) / 10000;
    if s > 10000 {
        10000
    } else {
        s
    }
}

/// Weighted blend of the four complexity measures, capped at 1.
pub fn calculate_overall_complexity(
    edge_density: u32,
    texture_complexity: u32,
    color_variance: u32,
    high_frequency_ratio: u32,
) -> (r: u32)
    ensures
        r as int == overall_complexity_of(
            edge_density as int,
            texture_complexity as int,
            color_variance as int,
            high_frequency_ratio as int,
        ),
        r <= 10000,
{
    let s = (3000 * edge_density as u64 + 2500 * texture_complexity as u64 + 2500 * color_variance as u64
        + 2000 * high_frequency_ratio as u64) / 10000;
    if s > 10000 {
        10000
    } else {
        s as u32
    }
}

/// The measurements the policy reads, as plain values.
pub open spec fn unique_of(a: AdvancedImageAnalysis) -> int {
    a.color_analysis.unique_colors as int
}

pub open spec fn high_freq_of(a: AdvancedImageAnalysis) -> int {
    a.frequency_analysis.high_frequency_ratio as int
}

/// Format chosen by the threshold rules, first match winning; `c` is the
/// overall complexity, `t` the texture complexity.
pub open spec fn rule_format(a: AdvancedImageAnalysis, has_alpha: bool, pixels: int) -> ImageFormat {
    let c = a.overall_complexity;
    let t = a.texture_complexity;
    if has_alpha {
        if c > 7000 && t > 6000 && pixels > 1_000_000 {
            ImageFormat::Avif
        } else if c > 4000 && pixels > 500_000 {
            ImageFormat::WebP
        } else if unique_of(a) < 256 {
            ImageFormat::Png
        } else if t > 5000 {
            ImageFormat::WebP
        } else {
            ImageFormat::Png
        }
    } else {
        if c > 8000 && pixels > 2_000_000 {
            ImageFormat::Avif
        } else if t > 7000 && c > 6000 {
            ImageFormat::Jpeg
        } else if unique_of(a) < 256 && c < 3000 {
            ImageFormat::Png
        } else if c > 5000 && pixels > 1_000_000 {
            ImageFormat::Avif
        } else if c > 4000 {
            ImageFormat::WebP
        } else if pixels > 1_500_000 {
            ImageFormat::Avif
        } else {
            ImageFormat::WebP
        }
    }
}

/// Whether a format suits an image: PNG for fewer than 65536 colours or
/// edge density above 0.3; JPEG without alpha and with high-frequency ratio
/// above 0.3; WebP always; AVIF for complexity above 0.4 or more than 500000
/// pixels.
pub open spec fn suitable(f: ImageFormat, a: AdvancedImageAnalysis, has_alpha: bool, pixels: int) -> bool {
    match f {
        ImageFormat::Png => unique_of(a) < 65536 || a.edge_density > 3000,
        ImageFormat::Jpeg => !has_alpha && high_freq_of(a) > 3000,
        ImageFormat::WebP => true,
        ImageFormat::Avif => a.overall_complexity > 4000 || pixels > 500_000,
    }
}

/// The format named by `s`, one of `png`, `jpeg`, `webp`, `avif`.
pub open spec fn format_named(s: Seq<char>) -> Option<ImageFormat> {
    if s == seq!['p', 'n', 'g'] {
        Some(ImageFormat::Png)
    } else if s == seq!['j', 'p', 'e', 'g'] {
        Some(ImageFormat::Jpeg)
    } else if s == seq!['w', 'e', 'b', 'p'] {
        Some(ImageFormat::WebP)
    } else if s == seq!['a', 'v', 'i', 'f'] {
        Some(ImageFormat::Avif)
    } else {
        None
    }
}

/// Whether the named format exists and suits the image.
pub open spec fn preferred_ok(s: Seq<char>, a: AdvancedImageAnalysis, has_alpha: bool, pixels: int) -> bool {
    format_named(s) matches Some(f) && suitable(f, a, has_alpha, pixels)
}

/// Index of the first suitable preferred format, if any.
pub open spec fn first_suitable(
    prefs: Seq<String>,
    a: AdvancedImageAnalysis,
    has_alpha: bool,
    pixels: int,
) -> Option<int>
    decreases prefs.len(),
{
    if prefs.len() == 0 {
        None
    } else {
        match first_suitable(prefs.drop_last(), a, has_alpha, pixels) {
            Some(i) => Some(i),
            None => if preferred_ok(prefs.last()@, a, has_alpha, pixels) {
                Some(prefs.len() - 1)
            } else {
                None
            },
        }
    }
}

/// The chosen format: the first suitable preferred one, else the rules'.
pub open spec fn chosen_format(
    prefs: Seq<String>,
    a: AdvancedImageAnalysis,
    has_alpha: bool,
    pixels: int,
) -> ImageFormat {
    match first_suitable(prefs, a, has_alpha, pixels) {
        Some(i) => format_named(prefs[i]@).unwrap(),
        None => rule_format(a, has_alpha, pixels),
    }
}

pub(crate) fn chars_equal(s: &str, lit: &str) -> (r: bool)
    ensures
        r == (s@ == lit@),
{
    let n = s.unicode_len();
    if n != lit.unicode_len() {
        return false;
    }
    let mut i: usize = 0;
    while i < n
        invariant
            n == s@.len(),
            n == lit@.len(),
            i <= n,
            forall|j: int| 0 <= j < i ==> s@[j] == lit@[j],
        decreases n - i,
    {
        if s.get_char(i) != lit.get_char(i) {
            return false;
        }
        i = i + 1;
    }
    assert(s@ =~= lit@);
    true
}

/// The format named by `name` (`png`, `jpeg`, `webp` or `avif`), if any.
pub fn format_from_name(name: &str) -> (r: Option<ImageFormat>)
    ensures
        r == format_named(name@),
{
    proof {
        reveal_strlit("png");
        reveal_strlit("jpeg");
        reveal_strlit("webp");
        reveal_strlit("avif");
        assert("png"@ =~= seq!['p', 'n', 'g']);
        assert("jpeg"@ =~= seq!['j', 'p', 'e', 'g']);
        assert("webp"@ =~= seq!['w', 'e', 'b', 'p']);
        assert("avif"@ =~= seq!['a', 'v', 'i', 'f']);
    }
    if chars_equal(name, "png") {
        Some(ImageFormat::Png)
    } else if chars_equal(name, "jpeg") {
        Some(ImageFormat::Jpeg)
    } else if chars_equal(name, "webp") {
        Some(ImageFormat::WebP)
    } else if chars_equal(name, "avif") {
        Some(ImageFormat::Avif)
    } else {
        None
    }
}

impl ImageFormat {
    /// Lower-case name of the format.
    pub fn name(&self) -> (r: String)
        ensures
            format_named(r@) == Some(*self),
    {
        proof {
            reveal_strlit("png");
            reveal_strlit("jpeg");
            reveal_strlit("webp");
            reveal_strlit("avif");
            assert("png"@ =~= seq!['p', 'n', 'g']);
            assert("jpeg"@ =~= seq!['j', 'p', 'e', 'g']);
            assert("webp"@ =~= seq!['w', 'e', 'b', 'p']);
            assert("avif"@ =~= seq!['a', 'v', 'i', 'f']);
        }
        match self {
            ImageFormat::Png => String::from_str("png"),
            ImageFormat::Jpeg => String::from_str("jpeg"),
            ImageFormat::WebP => String::from_str("webp"),
            ImageFormat::Avif => String::from_str("avif"),
        }
    }
}

/// Whether a format suits the image.
pub fn is_format_suitable(
    format: ImageFormat,
    analysis: &AdvancedImageAnalysis,
    has_alpha: bool,
    pixel_count: u64,
) -> (r: bool)
    ensures
        r == suitable(format, *analysis, has_alpha, pixel_count as int),
{
    match format {
        ImageFormat::Png => analysis.color_analysis.unique_colors < 65536 || analysis.edge_density > 3000,
        ImageFormat::Jpeg => !has_alpha && analysis.frequency_analysis.high_frequency_ratio > 3000,
        ImageFormat::WebP => true,
        ImageFormat::Avif => analysis.overall_complexity > 4000 || pixel_count > 500_000,
    }
}

/// Chooses the output format: the first of `preferred` that names a format
/// suiting the image, else the threshold rules, which branch on alpha first.
pub fn select_optimal_format(
    analysis: &AdvancedImageAnalysis,
    has_alpha: bool,
    pixel_count: u64,
    preferred: &Vec<String>,
) -> (r: ImageFormat)
    ensures
        r == chosen_format(preferred@, *analysis, has_alpha, pixel_count as int),
{
    let mut i: usize = 0;
    while i < preferred.len()
        invariant
            i <= preferred@.len(),
            first_suitable(preferred@.subrange(0, i as int), *analysis, has_alpha, pixel_count as int)
                is None,
        decreases preferred@.len() - i,
    {
        let ghost pre = preferred@.subrange(0, i as int);
        let ghost next = preferred@.subrange(0, i + 1);
        assert(next.drop_last() == pre);
        match format_from_name(preferred[i].as_str()) {
            Some(f) => {
                if is_format_suitable(f, analysis, has_alpha, pixel_count) {
                    proof {
                        lemma_first_suitable_prefix(preferred@, i + 1, *analysis, has_alpha, pixel_count as int);
                    }
                    return f;
                }
            },
            None => {},
        }
        i = i + 1;
    }
    assert(preferred@.subrange(0, i as int) == preferred@);
    let c = analysis.overall_complexity;
    let t = analysis.texture_complexity;
    let u = analysis.color_analysis.unique_colors;
    if has_alpha {
        if c > 7000 && t > 6000 && pixel_count > 1_000_000 {
            ImageFormat::Avif
        } else if c > 4000 && pixel_count > 500_000 {
            ImageFormat::WebP
        } else if u < 256 {
            ImageFormat::Png
        } else if t > 5000 {
            ImageFormat::WebP
        } else {
            ImageFormat::Png
        }
    } else {
        if c > 8000 && pixel_count > 2_000_000 {
            ImageFormat::Avif
        } else if t > 7000 && c > 6000 {
            ImageFormat::Jpeg
        } else if u < 256 && c < 3000 {
            ImageFormat::Png
        } else if c > 5000 && pixel_count > 1_000_000 {
            ImageFormat::Avif
        } else if c > 4000 {
            ImageFormat::WebP
        } else if pixel_count > 1_500_000 {
            ImageFormat::Avif
        } else {
            ImageFormat::WebP
        }
    }
}

proof fn lemma_first_suitable_prefix(
    prefs: Seq<String>,
    k: int,
    a: AdvancedImageAnalysis,
    has_alpha: bool,
    pixels: int,
)
    requires
        0 < k <= prefs.len(),
        first_suitable(prefs.subrange(0, k), a, has_alpha, pixels) == Some(k - 1),
    ensures
        first_suitable(prefs, a, has_alpha, pixels) == Some(k - 1),
    decreases prefs.len(),
{
    if k < prefs.len() {
        assert(prefs.drop_last().subrange(0, k) == prefs.subrange(0, k));
        lemma_first_suitable_prefix(prefs.drop_last(), k, a, has_alpha, pixels);
    } else {
        assert(prefs.subrange(0, k) == prefs);
    }
}

/// Base quality of a format from the complexity bands of its table.
pub open spec fn recommend_base_quality(f: ImageFormat, a: AdvancedImageAnalysis) -> int {
    let c = a.overall_complexity;
    let t = a.texture_complexity;
    match f {
        ImageFormat::Jpeg => if t > 8000 {
            88
        } else if c > 7000 {
            85
        } else if c > 4000 {
            80
        } else {
            75
        },
        ImageFormat::WebP => if c > 7000 && t > 6000 {
            87
        } else if c > 6000 {
            82
        } else if c > 3000 {
            78
        } else {
            75
        },
        ImageFormat::Avif => if c > 8000 {
            92
        } else if c > 6000 {
            88
        } else if c > 4000 {
            85
        } else {
            82
        },
        ImageFormat::Png => 100,
    }
}

/// Perceptual score used for a recommendation: the resolution score times
/// `0.8 + 0.2 * unique_colors / 65536`, capped at 1.
pub open spec fn recommend_perceptual(a: AdvancedImageAnalysis) -> int {
    color_scaled_score(a.perceptual_quality_score as int, unique_of(a))
}

/// Quality of a lossy format: the base quality scaled by
/// `0.85 + 0.15 * perceptual score`, rounded down and clamped to `[50, 100]`,
/// then raised to `min_quality` (at most 100). A lossless format gets 100.
pub open spec fn recommend_quality_of(f: ImageFormat, a: AdvancedImageAnalysis, min_quality: Option<u8>) -> int {
    if f == ImageFormat::Png {
        100
    } else {
        let scaled = recommend_base_quality(f, a) * (850000 + 15 * recommend_perceptual(a)) / 1000000;
        let clamped = if scaled < 50 { 50 } else if scaled > 100 { 100 } else { scaled };
        match min_quality {
            Some(m) => if (m as int) > clamped {
                if m > 100 { 100 } else { m as int }
            } else {
                clamped
            },
            None => clamped,
        }
    }
}

/// Quality a format recommendation gives, from the recommendation table and
/// the colour-scaled perceptual score.
pub fn recommend_quality(
    format: ImageFormat,
    analysis: &AdvancedImageAnalysis,
    min_quality: Option<u8>,
) -> (r: u8)
    ensures
        r as int == recommend_quality_of(format, *analysis, min_quality),
        1 <= r <= 100,
{
    if format == ImageFormat::Png {
        return 100;
    }
    let c = analysis.overall_complexity;
    let t = analysis.texture_complexity;
    let base: u64 = match format {
        ImageFormat::Jpeg => if t > 8000 {
            88
        } else if c > 7000 {
            85
        } else if c > 4000 {
            80
        } else {
            75
        },
        ImageFormat::WebP => if c > 7000 && t > 6000 {
            87
        } else if c > 6000 {
            82
        } else if c > 3000 {
            78
        } else {
            75
        },
        ImageFormat::Avif => if c > 8000 {
            92
        } else if c > 6000 {
            88
        } else if c > 4000 {
            85
        } else {
            82
        },
        ImageFormat::Png => 100,
    };
    let u: u64 = if analysis.color_analysis.unique_colors > 65536 {
        65536
    } else {
        analysis.color_analysis.unique_colors as u64
    };
    proof {
        assert((analysis.perceptual_quality_score as u64) * (262144 + u) <= 0xffff_ffffu64 * 327680) by (nonlinear_arith)
            requires
                analysis.perceptual_quality_score <= 0xffff_ffffu32,
                u <= 65536,
        ;
    }
    let p0 = (analysis.perceptual_quality_score as u64) * (262144 + u) / 327680;
    let p: u64 = if p0 > 10000 {
        10000
    } else {
        p0
    };
    let scaled = base * (850000 + 15 * p) / 1000000;
    let clamped: u8 = if scaled < 50 {
        50
    } else if scaled > 100 {
        100
    } else {
        scaled as u8
    };
    match min_quality {
        Some(m) => if m > clamped {
            if m > 100 {
                100
            } else {
                m
            }
        } else {
            clamped
        },
        None => clamped,
    }
}

/// Base quality of a format in the size-constrained path, from the
/// high-frequency, complexity and texture bands of its table.
pub open spec fn base_quality(f: ImageFormat, a: AdvancedImageAnalysis) -> int {
    let c = a.overall_complexity;
    match f {
        ImageFormat::Jpeg => if high_freq_of(a) > 7000 {
            88
        } else if c > 6000 {
            82
        } else {
            75
        },
        ImageFormat::WebP => if c > 7000 {
            85
        } else if a.texture_complexity > 5000 {
            80
        } else {
            75
        },
        ImageFormat::Avif => if c > 8000 {
            92
        } else if c > 5000 {
            87
        } else {
            82
        },
        ImageFormat::Png => 100,
    }
}

/// Quality of a lossy format in the size-constrained path: the base quality
/// scaled by `0.85 + 0.15 * perceptual score`, rounded down and clamped to
/// `[50, 100]`, then raised to `min_quality` (at most 100). PNG gets 100.
pub open spec fn quality_of(f: ImageFormat, a: AdvancedImageAnalysis, min_quality: Option<u8>) -> int {
    if f == ImageFormat::Png {
        100
    } else {
        let p = if a.perceptual_quality_score > 10000 { 10000int } else { a.perceptual_quality_score as int };
        let scaled = base_quality(f, a) * (850000 + 15 * p) / 1000000;
        let clamped = if scaled < 50 { 50 } else if scaled > 100 { 100 } else { scaled };
        match min_quality {
            Some(m) => if (m as int) > clamped {
                if m > 100 { 100 } else { m as int }
            } else {
                clamped
            },
            None => clamped,
        }
    }
}

/// Quality for an encode in the chosen format in the size-constrained path.
pub fn calculate_optimal_quality(
    format: ImageFormat,
    analysis: &AdvancedImageAnalysis,
    min_quality: Option<u8>,
) -> (r: u8)
    ensures
        r as int == quality_of(format, *analysis, min_quality),
        1 <= r <= 100,
{
    if format == ImageFormat::Png {
        return 100;
    }
    let c = analysis.overall_complexity;
    let base: u64 = match format {
        ImageFormat::Jpeg => if analysis.frequency_analysis.high_frequency_ratio > 7000 {
            88
        } else if c > 6000 {
            82
        } else {
            75
        },
        ImageFormat::WebP => if c > 7000 {
            85
        } else if analysis.texture_complexity > 5000 {
            80
        } else {
            75
        },
        ImageFormat::Avif => if c > 8000 {
            92
        } else if c > 5000 {
            87
        } else {
            82
        },
        ImageFormat::Png => 100,
    };
    let p: u64 = if analysis.perceptual_quality_score > 10000 {
        10000
    } else {
        analysis.perceptual_quality_score as u64
    };
    let scaled = base * (850000 + 15 * p) / 1000000;
    let clamped: u8 = if scaled < 50 {
        50
    } else if scaled > 100 {
        100
    } else {
        scaled as u8
    };
    match min_quality {
        Some(m) => if m > clamped {
            if m > 100 {
                100
            } else {
                m
            }
        } else {
            clamped
        },
        None => clamped,
    }
}

/// The encoder settings for a format: its quality, colour reduction below
/// 65536 colours, progressive coding above complexity 0.5, and lossless
/// coding when the caller's minimum quality is at least 95.
pub fn create_optimal_options(
    format: ImageFormat,
    analysis: &AdvancedImageAnalysis,
    min_quality: Option<u8>,
) -> (r: CompressionPlan)
    ensures
        r.format == format,
        r.quality as int == quality_of(format, *analysis, min_quality),
        r.reduce_colors == (analysis.color_analysis.unique_colors < 65536),
        r.progressive == (analysis.overall_complexity > 5000),
        r.lossless == (match min_quality {
            Some(m) => m >= 95,
            None => false,
        }),
{
    let quality = calculate_optimal_quality(format, analysis, min_quality);
    let lossless = match min_quality {
        Some(m) => m >= 95,
        None => false,
    };
    CompressionPlan {
        format,
        quality,
        reduce_colors: analysis.color_analysis.unique_colors < 65536,
        progressive: analysis.overall_complexity > 5000,
        lossless,
    }
}

/// Measures an image from its grayscale and RGBA forms (same dimensions, at
/// most `2^32 - 1` pixels) and its texture complexity, which comes from the
/// entropy of the local binary pattern histogram.
pub fn analyze_image_complexity(
    gray: &OptimizedImageBuffer,
    rgba: &OptimizedImageBuffer,
    texture_complexity: u32,
) -> (r: AdvancedImageAnalysis)
    requires
        is_gray(gray@),
        rgba@.wf(),
        rgba@.channels == 4,
        rgba@.width == gray@.width,
        rgba@.height == gray@.height,
        rgba@.data.len() / 4 <= 0xffff_ffff,
        texture_complexity <= 10000,
    ensures
        r.edge_density == edge_density_of(gray@),
        r.texture_complexity == texture_complexity,
        r.color_analysis.unique_colors == seen_colors(rgba@.data, rgba@.data.len() / 4).len(),
        r.color_analysis.color_diversity == ratio_of(
            r.color_analysis.unique_colors as int,
            (rgba@.data.len() / 4) as int,
        ),
        r.color_analysis.color_variance == color_variance_of(rgba@.data, rgba@.data.len() / 4),
        is_dominant_of(r.color_analysis.dominant_colors@, rgba@.data),
        r.frequency_analysis.high_frequency_ratio == high_frequency_ratio_of(gray@),
        r.frequency_analysis.low_frequency_ratio == 10000 - high_frequency_ratio_of(gray@),
        r.frequency_analysis.total_energy == total_energy(gray@, gray@.data.len() as int),
        r.overall_complexity == overall_complexity_of(
            r.edge_density as int,
            texture_complexity as int,
            r.color_analysis.color_variance as int,
            r.frequency_analysis.high_frequency_ratio as int,
        ),
        r.perceptual_quality_score == perceptual_score_of(gray@.width as int, gray@.height as int),
{
    let edge_density = calculate_edge_density(gray);
    let (energy, high_energy) = gradient_energy(gray);
    let high = ratio(high_energy, energy);
    let unique_colors = estimate_color_count(rgba);
    let color_variance = calculate_color_variance(rgba);
    let dominant = dominant_colors(rgba);
    let pixels = rgba.data().len() / 4;
    let color_diversity = ratio(unique_colors as u128, pixels as u128);
    let overall = calculate_overall_complexity(edge_density, texture_complexity, color_variance, high);
    let (w, h) = gray.dimensions();
    let perceptual = calculate_perceptual_quality_score(w, h);
    AdvancedImageAnalysis {
        edge_density,
        texture_complexity,
        color_analysis: ColorAnalysis { unique_colors, color_diversity, color_variance, dominant_colors: dominant },
        frequency_analysis: FrequencyAnalysis {
            high_frequency_ratio: high,
            low_frequency_ratio: 10000 - high,
            total_energy: energy,
        },
        overall_complexity: overall,
        perceptual_quality_score: perceptual,
    }
}

/// The format an explicit request names: the recommendation when the request
/// is absent or `auto`, else the named format (`None` for an unknown name).
pub fn determine_target_format(requested: &Option<String>, recommended: ImageFormat) -> (r: Option<ImageFormat>)
    ensures
        match requested {
            None => r == Some(recommended),
            Some(s) => if s@ == "auto"@ {
                r == Some(recommended)
            } else {
                r == format_named(s@)
            },
        },
{
    match requested {
        None => Some(recommended),
        Some(s) => {
            if chars_equal(s.as_str(), "auto") {
                Some(recommended)
            } else {
                format_from_name(s.as_str())
            }
        },
    }
}

} // verus!
