//! Encoder option sets handed to the external encoders.

use vstd::prelude::*;

verus! {

/// Options of the PNG encoder.
#[derive(Clone, Debug)]
pub struct PngOptions {
    pub optimization_level: u8,
    pub palette_optimization: bool,
    pub transparency_optimization: bool,
    pub deflate_optimization: bool,
    pub strip_metadata: bool,
    pub interlace: bool,
    pub bit_depth_reduction: bool,
    pub color_type_reduction: bool,
}

impl Default for PngOptions {
    fn default() -> (r: Self)
        ensures
            r.optimization_level == 3,
            r.palette_optimization && r.transparency_optimization && r.deflate_optimization,
            r.strip_metadata && !r.interlace,
            r.bit_depth_reduction && r.color_type_reduction,
    {
        PngOptions {
            optimization_level: 3,
            palette_optimization: true,
            transparency_optimization: true,
            deflate_optimization: true,
            strip_metadata: true,
            interlace: false,
            bit_depth_reduction: true,
            color_type_reduction: true,
        }
    }
}

/// Colour space of AVIF output.
#[derive(Clone, Copy, Debug, PartialEq, Eq)]
pub enum AvifColorSpace {
    Yuv420,
    Yuv422,
    Yuv444,
}

/// Chroma subsampling of AVIF output.
#[derive(Clone, Copy, Debug, PartialEq, Eq)]
pub enum AvifSubsample {
    Yuv420,
    Yuv422,
    Yuv444,
}

/// Options of the AVIF encoder.
#[derive(Clone, Debug)]
pub struct AvifOptions {
    pub quality: u8,
    pub speed: u8,
    pub alpha_quality: u8,
    pub bit_depth: u8,
    pub lossless: bool,
    pub enable_sharp_yuv: bool,
    pub color_space: AvifColorSpace,
    pub subsample: AvifSubsample,
}

impl Default for AvifOptions {
    fn default() -> (r: Self)
        ensures
            r.quality == 80 && r.speed == 6 && r.alpha_quality == 80 && r.bit_depth == 8,
            !r.lossless && r.enable_sharp_yuv,
            r.color_space == AvifColorSpace::Yuv420,
            r.subsample == AvifSubsample::Yuv420,
    {
        AvifOptions {
            quality: 80,
            speed: 6,
            alpha_quality: 80,
            bit_depth: 8,
            lossless: false,
            enable_sharp_yuv: true,
            color_space: AvifColorSpace::Yuv420,
            subsample: AvifSubsample::Yuv420,
        }
    }
}

} // verus!
