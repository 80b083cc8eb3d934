use rusty_pic::kernels::{rgb_to_yuv_blocked, yuv_to_rgb_blocked, SimdProcessor};
use rusty_pic::raster::OptimizedImageBuffer;
use std::time::Instant;

#[test]
fn test_simd_rgb_to_yuv_conversion() {
    let rgb_data = vec![255, 0, 0, 0, 255, 0, 0, 0, 255]; // Red, Green, Blue pixels
    let yuv_data = SimdProcessor::rgb_to_yuv_simd(&rgb_data);

    assert_eq!(yuv_data.len(), rgb_data.len());
    assert_ne!(yuv_data, rgb_data);
}

#[test]
fn performance_test_simd_color_quantization() {
    let mut pixels = vec![0, 64, 128, 192, 255];
    SimdProcessor::quantize_colors_simd(&mut pixels, 4);

    for &pixel in &pixels {
        assert!(pixel == 0 || pixel == 85 || pixel == 170 || pixel == 255);
    }
}

#[test]
fn test_simd_rgb_to_yuv_performance() {
    let rgb_data: Vec<u8> = (0..1920 * 1080 * 3).map(|i| (i % 256) as u8).collect();

    let start = Instant::now();
    let yuv_data = SimdProcessor::rgb_to_yuv_simd(&rgb_data);
    let simd_duration = start.elapsed();

    assert_eq!(yuv_data.len(), rgb_data.len());
    assert_ne!(yuv_data, rgb_data);

    println!("SIMD RGB to YUV conversion took: {:?}", simd_duration);

    let rgb_restored = SimdProcessor::yuv_to_rgb_simd(&yuv_data);
    assert_eq!(rgb_restored.len(), rgb_data.len());
}

#[test]
fn performance_test_test_simd_color_quantization() {
    let mut pixels: Vec<u8> = (0..1920 * 1080 * 3).map(|i| (i % 256) as u8).collect();
    let original_pixels = pixels.clone();

    let start = Instant::now();
    SimdProcessor::quantize_colors_simd(&mut pixels, 64);
    let duration = start.elapsed();

    println!("SIMD color quantization took: {:?}", duration);

    assert_ne!(pixels, original_pixels);

    let expected_levels = [
        0, 4, 8, 12, 16, 20, 24, 28, 32, 36, 40, 44, 48, 52, 56, 60, 64, 68, 72, 76, 80, 85, 89,
        93, 97, 101, 105, 109, 113, 117, 121, 125, 130, 134, 138, 142, 146, 150, 154, 158, 162,
        166, 170, 174, 178, 182, 186, 190, 195, 199, 203, 207, 211, 215, 219, 223, 227, 231, 235,
        239, 243, 247, 251, 255,
    ];

    for &pixel in pixels.iter().take(1000) {
        assert!(
            expected_levels.contains(&pixel)
                || (pixel as i32
                    - expected_levels
                        .iter()
                        .map(|&x| x as i32)
                        .min_by_key(|&x| (x - pixel as i32).abs())
                        .unwrap())
                .abs()
                    <= 2
        );
    }
}

#[test]
fn test_simd_alpha_blending() {
    let size = 512 * 512 * 4;
    let base: Vec<u8> = (0..size).map(|i| (i % 256) as u8).collect();
    let overlay: Vec<u8> = (0..size).map(|i| ((i + 128) % 256) as u8).collect();
    let mut output = vec![0u8; size];

    let start = Instant::now();
    SimdProcessor::alpha_blend_simd(&base, &overlay, &mut output);
    let duration = start.elapsed();

    println!("SIMD alpha blending took: {:?}", duration);

    assert_ne!(output, base);
    assert_ne!(output, overlay);

    for i in (0..size).step_by(4) {
        if i + 3 < size {
            let alpha = output[i + 3];
            assert!(alpha <= 255);
        }
    }
}

#[test]
fn test_simd_edge_detection() {
    let width = 512u32;
    let height = 512u32;
    let mut gray = vec![0u8; (width * height) as usize];
    for y in 0..height {
        for x in 0..width {
            gray[(y * width + x) as usize] = ((x + y) % 256) as u8;
        }
    }
    let gray = OptimizedImageBuffer::from_vec(gray, width, height, 1).unwrap();

    let start = Instant::now();
    let edge_img = SimdProcessor::sobel_edge_detection_simd(&gray);
    let duration = start.elapsed();

    println!("SIMD edge detection took: {:?}", duration);

    assert_eq!(edge_img.dimensions(), gray.dimensions());

    let edge_count: u32 = edge_img.data().iter().map(|&p| if p > 0 { 1 } else { 0 }).sum();
    assert!(edge_count > 0, "No edges detected");
}

#[test]
fn yuv_of_primary_colors() {
    let yuv = SimdProcessor::rgb_to_yuv_simd(&vec![255, 0, 0, 0, 255, 0, 0, 0, 255]);
    assert_eq!(yuv, vec![76, 84, 255, 149, 43, 21, 29, 255, 107]);
}

#[test]
fn yuv_to_rgb_exact_values() {
    let rgb = SimdProcessor::yuv_to_rgb_simd(&vec![128, 128, 128, 76, 84, 255, 0, 0, 0]);
    assert_eq!(rgb, vec![128, 128, 128, 254, 0, 0, 0, 135, 0]);
}

#[test]
fn gray_pixels_survive_round_trip() {
    let rgb: Vec<u8> = (0..=255u8).flat_map(|g| [g, g, g]).collect();
    let back = SimdProcessor::yuv_to_rgb_simd(&SimdProcessor::rgb_to_yuv_simd(&rgb));
    assert_eq!(back, rgb);
}

#[test]
fn round_trip_stays_within_three() {
    let rgb: Vec<u8> = (0..3000u32).map(|i| ((i * 37 + i / 7) % 256) as u8).collect();
    let back = SimdProcessor::yuv_to_rgb_simd(&SimdProcessor::rgb_to_yuv_simd(&rgb));
    for (a, b) in rgb.iter().zip(back.iter()) {
        assert!((*a as i32 - *b as i32).abs() <= 3);
    }
    // One pixel where the error reaches 3.
    let back = SimdProcessor::yuv_to_rgb_simd(&SimdProcessor::rgb_to_yuv_simd(&vec![0, 36, 69]));
    assert_eq!(back, vec![0, 35, 66]);
}

#[test]
fn conversion_does_not_depend_on_block_size() {
    let rgb: Vec<u8> = (0..3 * 10_000u32).map(|i| ((i * 31) % 251) as u8).collect();
    let reference = rgb_to_yuv_blocked(&rgb, 1);
    for block in [2usize, 7, 4096, 10_000, 50_000] {
        assert_eq!(rgb_to_yuv_blocked(&rgb, block), reference);
        assert_eq!(yuv_to_rgb_blocked(&reference, block), yuv_to_rgb_blocked(&reference, 1));
    }
    assert_eq!(SimdProcessor::rgb_to_yuv_simd(&rgb), reference);
}

#[test]
fn quantize_exact_levels_and_idempotence() {
    let mut pixels: Vec<u8> = (0..=255u8).collect();
    SimdProcessor::quantize_colors_simd(&mut pixels, 2);
    assert!(pixels[..128].iter().all(|&p| p == 0));
    assert!(pixels[128..].iter().all(|&p| p == 255));

    for levels in [2u8, 3, 4, 64, 132, 200, 255] {
        let mut once: Vec<u8> = (0..=255u8).collect();
        SimdProcessor::quantize_colors_simd(&mut once, levels);
        let mut twice = once.clone();
        SimdProcessor::quantize_colors_simd(&mut twice, levels);
        assert_eq!(once, twice);
    }

    let mut v = vec![129u8];
    SimdProcessor::quantize_colors_simd(&mut v, 64);
    assert_eq!(v, vec![130]);
}

#[test]
fn alpha_blend_exact_pixels() {
    let base = vec![100, 50, 200, 255, 10, 20, 30, 0, 1, 2, 3, 0];
    let overlay = vec![200, 100, 0, 128, 40, 50, 60, 255, 9, 9, 9, 0];
    let mut out = vec![7u8; 12];
    SimdProcessor::alpha_blend_simd(&base, &overlay, &mut out);
    assert_eq!(out, vec![150, 75, 99, 255, 40, 50, 60, 255, 0, 0, 0, 0]);
}

#[test]
fn sobel_on_small_grids_is_zero() {
    for (w, h) in [(2u32, 5u32), (5, 2), (1, 1), (0, 4)] {
        let data: Vec<u8> = (0..w * h).map(|i| (i * 97 % 256) as u8).collect();
        let g = OptimizedImageBuffer::from_vec(data, w, h, 1).unwrap();
        let e = SimdProcessor::sobel_edge_detection_simd(&g);
        assert_eq!(e.dimensions(), (w, h));
        assert!(e.data().iter().all(|&v| v == 0));
    }
}

#[test]
fn sobel_exact_values() {
    // A vertical step from 0 to 10: interior gradient gx = 40, gy = 0.
    let data = vec![0, 0, 10, 10, 0, 0, 10, 10, 0, 0, 10, 10];
    let g = OptimizedImageBuffer::from_vec(data, 4, 3, 1).unwrap();
    let e = SimdProcessor::sobel_edge_detection_simd(&g);
    assert_eq!(e.data().clone(), vec![0, 0, 0, 0, 0, 40, 40, 0, 0, 0, 0, 0]);
    // A full-range step saturates at 255.
    let data = vec![0, 255, 255, 0, 255, 255, 0, 255, 255];
    let g = OptimizedImageBuffer::from_vec(data, 3, 3, 1).unwrap();
    let e = SimdProcessor::sobel_edge_detection_simd(&g);
    assert_eq!(e.data()[4], 255);
}
