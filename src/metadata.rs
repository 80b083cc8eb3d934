//! Facts about decoded images that the analysis reports: sample layout,
//! bit depth, transparency, and the expected size savings of a format.

use crate::policy::ImageFormat;
use vstd::prelude::*;

verus! {

/// Sample layout of a decoded image.
#[derive(Debug, Clone, Copy, PartialEq, Eq, Structural)]
pub enum ColorType {
    L8,
    La8,
    Rgb8,
    Rgba8,
    L16,
    La16,
    Rgb16,
    Rgba16,
    Other,
}

/// Container format of the input, as far as the analysis names it.
#[derive(Debug, Clone, Copy, PartialEq, Eq, Structural)]
pub enum SourceFormat {
    Png,
    Jpeg,
    WebP,
    Gif,
    Bmp,
    Tiff,
    Unknown,
}

/// Basic facts about an input image.
#[derive(Debug, Clone)]
pub struct ImageMetadata {
    pub width: u32,
    pub height: u32,
    pub format: String,
    pub color_type: String,
    pub bit_depth: u8,
    pub has_transparency: bool,
}

pub open spec fn has_alpha_spec(c: ColorType) -> bool {
    c == ColorType::La8 || c == ColorType::La16 || c == ColorType::Rgba8 || c == ColorType::Rgba16
}

/// Name of a sample layout.
pub open spec fn color_type_name(c: ColorType) -> Seq<char> {
    match c {
        ColorType::L8 => "grayscale"@,
        ColorType::La8 => "grayscale+alpha"@,
        ColorType::Rgb8 => "rgb"@,
        ColorType::Rgba8 => "rgba"@,
        ColorType::L16 => "grayscale16"@,
        ColorType::La16 => "grayscale16+alpha"@,
        ColorType::Rgb16 => "rgb16"@,
        ColorType::Rgba16 => "rgba16"@,
        ColorType::Other => "unknown"@,
    }
}

/// Name of a container format.
pub open spec fn source_format_name(f: SourceFormat) -> Seq<char> {
    match f {
        SourceFormat::Png => "png"@,
        SourceFormat::Jpeg => "jpeg"@,
        SourceFormat::WebP => "webp"@,
        SourceFormat::Gif => "gif"@,
        SourceFormat::Bmp => "bmp"@,
        SourceFormat::Tiff => "tiff"@,
        SourceFormat::Unknown => "unknown"@,
    }
}

impl ColorType {
    /// Whether the layout carries an alpha channel.
    pub fn has_alpha(&self) -> (r: bool)
        ensures
            r == has_alpha_spec(*self),
    {
        match self {
            ColorType::La8 | ColorType::La16 | ColorType::Rgba8 | ColorType::Rgba16 => true,
            _ => false,
        }
    }

    /// Bits per sample: 16 for the 16-bit layouts, else 8.
    pub fn bit_depth(&self) -> (r: u8)
        ensures
            r == (match *self {
                ColorType::L16 | ColorType::La16 | ColorType::Rgb16 | ColorType::Rgba16 => 16u8,
                _ => 8u8,
            }),
    {
        match self {
            ColorType::L16 | ColorType::La16 | ColorType::Rgb16 | ColorType::Rgba16 => 16,
            _ => 8,
        }
    }

    /// Bytes per pixel; 4 for a layout the analysis does not know.
    pub fn bytes_per_pixel(&self) -> (r: u8)
        ensures
            r == (match *self {
                ColorType::L8 => 1u8,
                ColorType::La8 => 2u8,
                ColorType::Rgb8 => 3u8,
                ColorType::Rgba8 => 4u8,
                ColorType::L16 => 2u8,
                ColorType::La16 => 4u8,
                ColorType::Rgb16 => 6u8,
                ColorType::Rgba16 => 8u8,
                ColorType::Other => 4u8,
            }),
    {
        match self {
            ColorType::L8 => 1,
            ColorType::La8 => 2,
            ColorType::Rgb8 => 3,
            ColorType::Rgba8 => 4,
            ColorType::L16 => 2,
            ColorType::La16 => 4,
            ColorType::Rgb16 => 6,
            ColorType::Rgba16 => 8,
            ColorType::Other => 4,
        }
    }

    /// Name of the layout, such as `"rgba"` or `"grayscale16+alpha"`.
    pub fn name(&self) -> (r: String)
        ensures
            r@ == color_type_name(*self),
    {
        match self {
            ColorType::L8 => String::from_str("grayscale"),
            ColorType::La8 => String::from_str("grayscale+alpha"),
            ColorType::Rgb8 => String::from_str("rgb"),
            ColorType::Rgba8 => String::from_str("rgba"),
            ColorType::L16 => String::from_str("grayscale16"),
            ColorType::La16 => String::from_str("grayscale16+alpha"),
            ColorType::Rgb16 => String::from_str("rgb16"),
            ColorType::Rgba16 => String::from_str("rgba16"),
            ColorType::Other => String::from_str("unknown"),
        }
    }
}

impl SourceFormat {
    /// Lower-case name of the container format.
    pub fn name(&self) -> (r: String)
        ensures
            r@ == source_format_name(*self),
    {
        match self {
            SourceFormat::Png => String::from_str("png"),
            SourceFormat::Jpeg => String::from_str("jpeg"),
            SourceFormat::WebP => String::from_str("webp"),
            SourceFormat::Gif => String::from_str("gif"),
            SourceFormat::Bmp => String::from_str("bmp"),
            SourceFormat::Tiff => String::from_str("tiff"),
            SourceFormat::Unknown => String::from_str("unknown"),
        }
    }
}

/// The metadata of an image of the given shape and layouts.
pub fn extract_metadata(width: u32, height: u32, format: SourceFormat, color_type: ColorType) -> (r: ImageMetadata)
    ensures
        r.width == width,
        r.height == height,
        r.format@ == source_format_name(format),
        r.color_type@ == color_type_name(color_type),
        r.has_transparency == has_alpha_spec(color_type),
        r.bit_depth == (match color_type {
            ColorType::L16 | ColorType::La16 | ColorType::Rgb16 | ColorType::Rgba16 => 16u8,
            _ => 8u8,
        }),
{
    ImageMetadata {
        width,
        height,
        format: format.name(),
        color_type: color_type.name(),
        bit_depth: color_type.bit_depth(),
        has_transparency: color_type.has_alpha(),
    }
}

/// Expected output size as a share of the input, in ten-thousandths, by
/// format and quality band (90, 80, 70 and below).
pub open spec fn size_share(format: ImageFormat, quality: u8) -> int {
    let band = if quality >= 90 { 0int } else if quality >= 80 { 1 } else if quality >= 70 { 2 } else { 3 };
    match format {
        ImageFormat::Jpeg => if band == 0 { 1500 } else if band == 1 { 1000 } else if band == 2 { 800 } else { 600 },
        ImageFormat::WebP => if band == 0 { 1200 } else if band == 1 { 800 } else if band == 2 { 600 } else { 400 },
        ImageFormat::Avif => if band == 0 { 800 } else if band == 1 { 500 } else if band == 2 { 400 } else { 300 },
        ImageFormat::Png => 2500,
    }
}

/// Estimated size savings, in ten-thousandths: one minus the expected share.
pub fn estimate_savings(format: ImageFormat, quality: u8) -> (r: u32)
    ensures
        r == 10000 - size_share(format, quality),
{
    let band: u8 = if quality >= 90 {
        0
    } else if quality >= 80 {
        1
    } else if quality >= 70 {
        2
    } else {
        3
    };
    let share: u32 = match format {
        ImageFormat::Jpeg => if band == 0 { 1500 } else if band == 1 { 1000 } else if band == 2 { 800 } else { 600 },
        ImageFormat::WebP => if band == 0 { 1200 } else if band == 1 { 800 } else if band == 2 { 600 } else { 400 },
        ImageFormat::Avif => if band == 0 { 800 } else if band == 1 { 500 } else if band == 2 { 400 } else { 300 },
        ImageFormat::Png => 2500,
    };
    10000 - share
}

} // verus!
