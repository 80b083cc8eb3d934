//! Decoding and encoding through the image crate, and the target-size
//! search loop that repeats the encode at falling qualities.

use crate::error::CompressionError;
use crate::metadata::ColorType;
use crate::policy::{CompressionPlan, ImageFormat};
use crate::raster::OptimizedImageBuffer;
use crate::search::{attempt_quality, SizeSearch};
use image::codecs::png::{CompressionType, FilterType, PngEncoder};
use image::{GenericImageView, ImageEncoder};
use vstd::prelude::*;

verus! {

#[verifier::external_type_specification]
#[verifier::external_body]
pub struct ExDynamicImage(image::DynamicImage);

/// The PNG stream the image crate writes for RGBA samples of the given size,
/// with its strongest settings when `best` holds.
pub uninterp spec fn png_bytes(rgba: Seq<u8>, width: u32, height: u32, best: bool) -> Seq<u8>;

/// Relies on image::load_from_memory: decodes any supported container, or
/// reports why it cannot.
#[verifier::external_body]
fn load_image(data: &Vec<u8>) -> Result<image::DynamicImage, CompressionError> {
    image::load_from_memory(data).map_err(|e| CompressionError::InvalidFormat(e.to_string()))
}

/// Relies on image::DynamicImage::to_rgba8: an RGBA copy of the same size,
/// four samples per pixel.
#[verifier::external_body]
fn rgba_samples(img: &image::DynamicImage) -> (r: (u32, u32, Vec<u8>))
    ensures
        r.2@.len() == r.0 * r.1 * 4,
{
    let (w, h) = img.dimensions();
    (w, h, img.to_rgba8().into_raw())
}

/// Relies on image::DynamicImage::to_luma8: a luma copy of the same size, one
/// sample per pixel.
#[verifier::external_body]
fn luma_samples(img: &image::DynamicImage) -> (r: (u32, u32, Vec<u8>))
    ensures
        r.2@.len() == r.0 * r.1,
{
    let (w, h) = img.dimensions();
    (w, h, img.to_luma8().into_raw())
}

/// Relies on image::DynamicImage::color: the sample layout of the decoded image.
#[verifier::external_body]
fn sample_layout(img: &image::DynamicImage) -> ColorType {
    match img.color() {
        image::ColorType::L8 => ColorType::L8,
        image::ColorType::La8 => ColorType::La8,
        image::ColorType::Rgb8 => ColorType::Rgb8,
        image::ColorType::Rgba8 => ColorType::Rgba8,
        image::ColorType::L16 => ColorType::L16,
        image::ColorType::La16 => ColorType::La16,
        image::ColorType::Rgb16 => ColorType::Rgb16,
        image::ColorType::Rgba16 => ColorType::Rgba16,
        _ => ColorType::Other,
    }
}

/// Relies on image's PngEncoder::write_image: writes the PNG stream of the
/// RGBA samples; it panics only when their number is not `width * height * 4`.
/// Writing 8-bit RGBA into a `Vec` fails only on a zero width or height (the
/// png crate's header check).
#[verifier::external_body]
fn png_encode(rgba: &Vec<u8>, width: u32, height: u32, best: bool) -> (r: Result<Vec<u8>, CompressionError>)
    requires
        rgba@.len() == width * height * 4,
    ensures
        r matches Ok(b) ==> b@ == png_bytes(rgba@, width, height, best),
        width > 0 && height > 0 ==> r is Ok,
{
    let (compression, filter) = if best { (CompressionType::Best, FilterType::Paeth) } else { (CompressionType::Default, FilterType::Sub) };
    let mut out: Vec<u8> = Vec::new();
    let written = PngEncoder::new_with_quality(&mut out, compression, filter).write_image(rgba, width, height, image::ColorType::Rgba8);
    written.map(|_| out).map_err(|e| CompressionError::EncodingError(e.to_string()))
}

/// A decoded image as RGBA and luma grids of the same size, with the layout
/// it was stored in.
pub struct DecodedImage {
    pub rgba: OptimizedImageBuffer,
    pub gray: OptimizedImageBuffer,
    pub color_type: ColorType,
}

impl DecodedImage {
    /// Both grids are well formed, of the same size, with 4 and 1 channels.
    pub open spec fn wf(&self) -> bool {
        &&& self.rgba@.wf()
        &&& self.rgba@.channels == 4
        &&& self.gray@.wf()
        &&& self.gray@.channels == 1
        &&& self.gray@.width == self.rgba@.width
        &&& self.gray@.height == self.rgba@.height
    }
}

/// Decodes an encoded image; an unreadable input is an `InvalidFormat` error.
pub fn decode_image(data: &Vec<u8>) -> (r: Result<DecodedImage, CompressionError>)
    ensures
        r matches Ok(d) ==> d.wf(),
{
    let img = load_image(data)?;
    let (w, h, rgba) = rgba_samples(&img);
    let (gw, gh, luma) = luma_samples(&img);
    if gw != w || gh != h {
        return Err(CompressionError::AnalysisError(String::from_str("luma and colour copies differ in size")));
    }
    let color_type = sample_layout(&img);
    let rgba = match OptimizedImageBuffer::from_vec(rgba, w, h, 4) {
        Ok(b) => b,
        Err(e) => return Err(e),
    };
    let gray = match OptimizedImageBuffer::from_vec(luma, w, h, 1) {
        Ok(b) => b,
        Err(e) => return Err(e),
    };
    Ok(DecodedImage { rgba, gray, color_type })
}

/// Encodes a decoded image as a plan says. This build writes PNG only; the
/// other formats fail as unsupported.
pub fn encode_with_plan(img: &DecodedImage, plan: &CompressionPlan) -> (r: Result<Vec<u8>, CompressionError>)
    requires
        img.wf(),
    ensures
        plan.format != ImageFormat::Png ==> (r matches Err(CompressionError::UnsupportedFeature(_))),
        plan.format == ImageFormat::Png ==> (r matches Ok(b) ==> b@ == png_bytes(
            img.rgba@.data,
            img.rgba@.width as u32,
            img.rgba@.height as u32,
            plan.lossless,
        )),
        plan.format == ImageFormat::Png && img.rgba@.width > 0 && img.rgba@.height > 0 ==> r is Ok,
{
    match plan.format {
        ImageFormat::Png => {
            let (w, h) = img.rgba.dimensions();
            png_encode(img.rgba.data(), w, h, plan.lossless)
        },
        _ => Err(CompressionError::UnsupportedFeature(String::from_str("format not supported in this build"))),
    }
}

/// `b` is the PNG stream of the image at some quality the search tries.
pub open spec fn is_attempt_output(b: Seq<u8>, img: DecodedImage, min_quality: Option<u8>) -> bool {
    exists|k: nat|
        #[trigger] attempt_quality(min_quality, k) matches Some(q) && b == png_bytes(
            img.rgba@.data,
            img.rgba@.width as u32,
            img.rgba@.height as u32,
            q >= 95,
        )
}

/// PNG stream of the image at attempt quality `q`: the strongest settings
/// exactly when `q >= 95`.
pub open spec fn attempt_output(img: DecodedImage, q: int) -> Seq<u8> {
    png_bytes(img.rgba@.data, img.rgba@.width as u32, img.rgba@.height as u32, q >= 95)
}

/// Outcome of a size search from attempt `k` on, with `best` the last output
/// so far: the first output of at most `target` bytes among attempts `k`,
/// `k + 1`, ... that `attempt_quality` admits; when none fits, the output of
/// the last admitted attempt (or `best` when there is none from `k` on).
pub open spec fn search_outcome(
    img: DecodedImage,
    min_quality: Option<u8>,
    target: nat,
    k: nat,
    best: Option<Seq<u8>>,
) -> Option<Seq<u8>>
    decreases 10 - k,
{
    if k >= 10 {
        best
    } else {
        match attempt_quality(min_quality, k) {
            None => best,
            Some(q) => {
                let out = attempt_output(img, q);
                if out.len() <= target {
                    Some(out)
                } else {
                    search_outcome(img, min_quality, target, k + 1, Some(out))
                }
            },
        }
    }
}

/// Encodes at falling qualities until an output of at most `target_bytes`
/// bytes comes out, which is returned at once. The search makes at most 10
/// attempts and stays at or above the minimum quality (30 by default); when
/// nothing fits it returns the last output obtained, and an encoding error
/// when no attempt produced one.
pub fn iterative_compress_to_size(
    img: &DecodedImage,
    plan: &CompressionPlan,
    target_bytes: usize,
    min_quality: Option<u8>,
) -> (r: Result<Vec<u8>, CompressionError>)
    requires
        img.wf(),
    ensures
        plan.format != ImageFormat::Png ==> (r matches Err(CompressionError::EncodingError(_))),
        attempt_quality(min_quality, 0) is None ==> (r matches Err(CompressionError::EncodingError(_))),
        r matches Ok(b) ==> is_attempt_output(b@, *img, min_quality),
        plan.format == ImageFormat::Png && img.rgba@.width > 0 && img.rgba@.height > 0 ==> match search_outcome(
            *img,
            min_quality,
            target_bytes as nat,
            0,
            None,
        ) {
            Some(b) => r matches Ok(v) && v@ == b,
            None => r matches Err(CompressionError::EncodingError(_)),
        },
{
    let mut search = SizeSearch::new(target_bytes, min_quality);
    loop
        invariant
            img.wf(),
            search@.wf(),
            search@.min_quality == min_quality,
            search@.target_bytes == target_bytes,
            plan.format != ImageFormat::Png ==> search@.best is None,
            search@.attempts == 0 ==> search@.best is None,
            attempt_quality(min_quality, 0) is None ==> search@.attempts == 0,
            search@.best matches Some(b) ==> is_attempt_output(b, *img, min_quality),
            plan.format == ImageFormat::Png && img.rgba@.width > 0 && img.rgba@.height > 0 ==> search_outcome(
                *img,
                min_quality,
                target_bytes as nat,
                search@.attempts,
                search@.best,
            ) == search_outcome(*img, min_quality, target_bytes as nat, 0, None),
        decreases 10 - search@.attempts,
    {
        match search.next_quality() {
            None => {
                return search.finish();
            },
            Some(quality) => {
                let attempt = CompressionPlan {
                    format: plan.format,
                    quality,
                    reduce_colors: plan.reduce_colors,
                    progressive: plan.progressive,
                    lossless: quality >= 95,
                };
                let ghost k = search@.attempts;
                let outcome = encode_with_plan(img, &attempt);
                proof {
                    match &outcome {
                        Ok(b) => {
                            assert(attempt_quality(min_quality, k) matches Some(q) && b@ == png_bytes(
                                img.rgba@.data,
                                img.rgba@.width as u32,
                                img.rgba@.height as u32,
                                q >= 95,
                            ));
                            assert(is_attempt_output(b@, *img, min_quality));
                        },
                        Err(_) => {},
                    }
                }
                if let Some(found) = search.record(outcome) {
                    return Ok(found);
                }
            },
        }
    }
}

} // verus!
