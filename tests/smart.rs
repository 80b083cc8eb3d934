use rusty_pic::constraints::{calculate_resize_dimensions, ResizeOptions, SmartCompressionConstraints, SmartCompressionEngine};
use rusty_pic::colors::{
    calculate_color_variance, dominant_colors, estimate_color_count, estimate_color_count_sharded, merge_color_sets,
    shard_colors,
};
use rusty_pic::features::{calculate_color_scaled_perceptual_score, calculate_edge_density, gradient_energy, calculate_high_frequency_ratio, lbp_histogram};
use rusty_pic::policy::{
    analyze_image_complexity, calculate_optimal_quality, calculate_overall_complexity,
    create_optimal_options, determine_target_format, format_from_name, recommend_quality, select_optimal_format, AdvancedImageAnalysis,
    ColorAnalysis, FrequencyAnalysis, ImageFormat,
};
use rusty_pic::error::CompressionError;
use rusty_pic::raster::OptimizedImageBuffer;
use rusty_pic::search::SizeSearch;

fn texture_of(gray: &OptimizedImageBuffer) -> u32 {
    let hist = lbp_histogram(gray);
    let total: u64 = hist.iter().sum();
    if total == 0 {
        return 0;
    }
    let mut entropy = 0.0f64;
    for &c in &hist {
        if c > 0 {
            let p = c as f64 / total as f64;
            entropy -= p * p.log2();
        }
    }
    ((entropy / 8.0).min(1.0) * 10000.0) as u32
}

fn gray_image(w: u32, h: u32, f: impl Fn(u32, u32) -> u8) -> OptimizedImageBuffer {
    let mut d = Vec::new();
    for y in 0..h {
        for x in 0..w {
            d.push(f(x, y));
        }
    }
    OptimizedImageBuffer::from_vec(d, w, h, 1).unwrap()
}

fn rgba_image(w: u32, h: u32, f: impl Fn(u32, u32) -> [u8; 4]) -> OptimizedImageBuffer {
    let mut d = Vec::new();
    for y in 0..h {
        for x in 0..w {
            d.extend_from_slice(&f(x, y));
        }
    }
    OptimizedImageBuffer::from_vec(d, w, h, 4).unwrap()
}

#[test]
fn test_smart_compression_engine_new() {
    let engine = SmartCompressionEngine::new();
    let r = &engine;
    assert!(std::ptr::eq(r, &engine));
}

#[test]
fn test_smart_compression_engine_creation() {
    let engine = SmartCompressionEngine::new();
    let r = &engine;
    assert!(std::ptr::eq(r, &engine));
}

#[test]
fn smart_test_parse_target_size() {
    let engine = SmartCompressionEngine::new();

    assert_eq!(engine.parse_target_size("100kb").unwrap(), 102400);
    assert_eq!(engine.parse_target_size("1mb").unwrap(), 1048576);
    assert_eq!(engine.parse_target_size("1024").unwrap(), 1024);
}

#[test]
fn test_smart_compression_constraints() {
    let constraints = SmartCompressionConstraints {
        target_size: Some("100kb".to_string()),
        max_width: Some(1920),
        max_height: Some(1080),
        min_quality: Some(70),
        preferred_formats: Some(vec!["webp".to_string(), "avif".to_string()]),
        resize: None,
    };

    assert_eq!(constraints.target_size.as_ref().unwrap(), "100kb");
    assert_eq!(constraints.max_width.unwrap(), 1920);
    assert_eq!(constraints.min_quality.unwrap(), 70);
}

#[test]
fn test_smart_compression_constraints_creation() {
    let constraints = SmartCompressionConstraints {
        target_size: Some("100kb".to_string()),
        max_width: Some(1920),
        max_height: Some(1080),
        min_quality: Some(70),
        preferred_formats: Some(vec!["webp".to_string(), "avif".to_string()]),
        resize: None,
    };

    assert_eq!(constraints.target_size.as_ref().unwrap(), "100kb");
    assert_eq!(constraints.max_width.unwrap(), 1920);
    assert_eq!(constraints.max_height.unwrap(), 1080);
    assert_eq!(constraints.min_quality.unwrap(), 70);
    assert_eq!(constraints.preferred_formats.as_ref().unwrap().len(), 2);
}

#[test]
fn smart_compression_test_test_parse_target_size() {
    let engine = SmartCompressionEngine::new();

    assert_eq!(engine.parse_target_size("100kb").unwrap(), 102400);
    assert_eq!(engine.parse_target_size("1mb").unwrap(), 1048576);
    assert_eq!(engine.parse_target_size("1024").unwrap(), 1024);
    assert_eq!(engine.parse_target_size("500KB").unwrap(), 512000);
    assert_eq!(engine.parse_target_size("2MB").unwrap(), 2097152);
}

#[test]
fn test_parse_target_size_invalid() {
    let engine = SmartCompressionEngine::new();

    assert!(engine.parse_target_size("invalid").is_err());
    assert!(engine.parse_target_size("100gb").is_err());
    assert!(engine.parse_target_size("").is_err());
}

#[test]
fn test_smart_compression_constraints_with_resize() {
    let resize_options = ResizeOptions {
        width: Some(800),
        height: Some(600),
        fit: "contain".to_string(),
    };

    let constraints = SmartCompressionConstraints {
        target_size: Some("50kb".to_string()),
        max_width: Some(1920),
        max_height: Some(1080),
        min_quality: Some(60),
        preferred_formats: Some(vec!["webp".to_string()]),
        resize: Some(resize_options),
    };

    assert_eq!(constraints.target_size.as_ref().unwrap(), "50kb");
    assert!(constraints.resize.is_some());
    assert_eq!(constraints.resize.as_ref().unwrap().width.unwrap(), 800);
    assert_eq!(constraints.resize.as_ref().unwrap().height.unwrap(), 600);
    assert_eq!(constraints.resize.as_ref().unwrap().fit, "contain");
}

#[test]
fn test_parse_target_size_edge_cases() {
    let engine = SmartCompressionEngine::new();

    assert_eq!(engine.parse_target_size("100KB").unwrap(), 102400);
    assert_eq!(engine.parse_target_size("1MB").unwrap(), 1048576);

    assert_eq!(engine.parse_target_size("1.5mb").unwrap(), 1572864);
    assert_eq!(engine.parse_target_size("0.5kb").unwrap(), 512);

    assert!(engine.parse_target_size(" 100kb ").is_err());
}

#[test]
fn parse_target_size_rejections() {
    let engine = SmartCompressionEngine::new();
    for bad in ["1.5", "kb", ".kb", "1..5kb", "1 kb", "10kbx", "-5kb", "1.2.3mb", "99999999999999999999999"] {
        assert!(
            matches!(engine.parse_target_size(bad), Err(CompressionError::InvalidFormat(_))),
            "{bad}"
        );
    }
    assert_eq!(engine.parse_target_size("1.kb").unwrap(), 1024);
    assert_eq!(engine.parse_target_size(".25Mb").unwrap(), 262144);
    assert_eq!(engine.parse_target_size("0.001kb").unwrap(), 1);
    assert_eq!(engine.parse_target_size("0").unwrap(), 0);
}

#[test]
fn example_smart_compression_usage() {
    let engine = SmartCompressionEngine::new();

    let basic_constraints = SmartCompressionConstraints {
        target_size: Some("100kb".to_string()),
        max_width: Some(1920),
        max_height: Some(1080),
        min_quality: Some(70),
        preferred_formats: Some(vec!["webp".to_string(), "avif".to_string()]),
        resize: None,
    };

    let resize_constraints = SmartCompressionConstraints {
        target_size: Some("50kb".to_string()),
        max_width: None,
        max_height: None,
        min_quality: Some(60),
        preferred_formats: None,
        resize: Some(ResizeOptions {
            width: Some(800),
            height: Some(600),
            fit: "contain".to_string(),
        }),
    };

    assert_eq!(basic_constraints.target_size.as_ref().unwrap(), "100kb");
    assert_eq!(resize_constraints.resize.as_ref().unwrap().width.unwrap(), 800);

    assert_eq!(engine.parse_target_size("100kb").unwrap(), 102400);
    assert_eq!(engine.parse_target_size("1mb").unwrap(), 1048576);
}

fn sample_analysis() -> AdvancedImageAnalysis {
    AdvancedImageAnalysis {
        edge_density: 4500,
        texture_complexity: 7200,
        color_analysis: ColorAnalysis {
            unique_colors: 5000,
            color_diversity: 7000,
            color_variance: 4000,
            dominant_colors: vec![(255, 0, 0), (0, 255, 0), (0, 0, 255)],
        },
        frequency_analysis: FrequencyAnalysis { high_frequency_ratio: 6500, low_frequency_ratio: 3500, total_energy: 1500 },
        overall_complexity: 6800,
        perceptual_quality_score: 8500,
    }
}

#[test]
fn test_advanced_image_analysis_structure() {
    let analysis = sample_analysis();

    assert_eq!(analysis.edge_density, 4500);
    assert_eq!(analysis.texture_complexity, 7200);
    assert_eq!(analysis.overall_complexity, 6800);
    assert_eq!(analysis.perceptual_quality_score, 8500);
    assert_eq!(analysis.color_analysis.unique_colors, 5000);
    assert_eq!(analysis.frequency_analysis.high_frequency_ratio, 6500);
}

#[test]
fn test_advanced_image_analysis_clone() {
    let analysis = AdvancedImageAnalysis {
        edge_density: 4000,
        texture_complexity: 6000,
        color_analysis: ColorAnalysis {
            unique_colors: 1000,
            color_diversity: 5000,
            color_variance: 3000,
            dominant_colors: vec![(255, 0, 0), (0, 255, 0)],
        },
        frequency_analysis: FrequencyAnalysis { high_frequency_ratio: 6000, low_frequency_ratio: 4000, total_energy: 1000 },
        overall_complexity: 5000,
        perceptual_quality_score: 8000,
    };

    let cloned = analysis.clone();
    assert_eq!(analysis.edge_density, cloned.edge_density);
    assert_eq!(analysis.texture_complexity, cloned.texture_complexity);
    assert_eq!(analysis.overall_complexity, cloned.overall_complexity);
}

#[test]
fn uniform_low_color_image_is_png_at_full_quality() {
    let gray = gray_image(10, 10, |_, _| 90);
    let rgba = rgba_image(10, 10, |_, _| [120, 80, 40, 255]);
    let texture = texture_of(&gray);
    assert_eq!(texture, 0);
    let a = analyze_image_complexity(&gray, &rgba, texture);
    assert_eq!(a.color_analysis.unique_colors, 1);
    assert_eq!(a.overall_complexity, 0);
    let format = select_optimal_format(&a, false, 100, &Vec::new());
    assert_eq!(format, ImageFormat::Png);
    assert_eq!(calculate_optimal_quality(format, &a, None), 100);
}

#[test]
fn gradient_has_more_high_frequency_than_flat_image() {
    let gradient = gray_image(512, 512, |x, y| ((x * 37 + y * 91) % 256) as u8);
    let flat = gray_image(512, 512, |_, _| 128);
    assert!(calculate_edge_density(&gradient) > 0);
    assert_eq!(calculate_edge_density(&flat), 0);
    assert_eq!(calculate_high_frequency_ratio(&flat), 0);
    assert!(calculate_high_frequency_ratio(&gradient) > calculate_high_frequency_ratio(&flat));
}

#[test]
fn small_images_measure_zero() {
    for (w, h) in [(2u32, 10u32), (10, 2), (0, 0)] {
        let g = gray_image(w, h, |x, y| ((x * 200 + y * 90) % 256) as u8);
        assert_eq!(calculate_edge_density(&g), 0);
        assert_eq!(texture_of(&g), 0);
        assert!(lbp_histogram(&g).iter().all(|&c| c == 0));
    }
}

#[test]
fn edge_density_exact_value() {
    // Left half 0, right half 200: only the two middle columns are edges.
    let g = gray_image(6, 4, |x, _| if x < 3 { 0 } else { 200 });
    // 4 * 2 interior pixels, 4 of them edges.
    assert_eq!(calculate_edge_density(&g), 5000);
}

#[test]
fn overall_complexity_weights() {
    assert_eq!(calculate_overall_complexity(10000, 10000, 10000, 10000), 10000);
    assert_eq!(calculate_overall_complexity(10000, 0, 0, 0), 3000);
    assert_eq!(calculate_overall_complexity(0, 4000, 4000, 5000), 3000);
}

#[test]
fn preferred_formats_and_rules() {
    let a = sample_analysis();
    let prefs = vec!["gif".to_string(), "jpeg".to_string(), "webp".to_string()];
    // JPEG is unsuitable with alpha, so WebP is the first suitable choice.
    assert_eq!(select_optimal_format(&a, true, 100, &prefs), ImageFormat::WebP);
    assert_eq!(select_optimal_format(&a, false, 100, &prefs), ImageFormat::Jpeg);
    // Rules without preferences: textured and complex photo content gives JPEG.
    assert_eq!(select_optimal_format(&a, false, 100, &Vec::new()), ImageFormat::Jpeg);
    assert_eq!(select_optimal_format(&a, true, 600_000, &Vec::new()), ImageFormat::WebP);
    assert_eq!(format_from_name("avif"), Some(ImageFormat::Avif));
    assert_eq!(format_from_name("AVIF"), None);
    assert_eq!(ImageFormat::WebP.name(), "webp");
}

#[test]
fn quality_table_scaling_and_floor() {
    let a = sample_analysis();
    // Recommendation table: JPEG base 80 (complexity above 0.4); perceptual
    // 0.85 * (0.8 + 0.2 * 5000 / 65536) = 0.6929; 80 * (0.85 + 0.15 * 0.6929) = 76.3.
    assert_eq!(recommend_quality(ImageFormat::Jpeg, &a, None), 76);
    // Size-constrained table: JPEG base 82 (complexity above 0.6);
    // 82 * (0.85 + 0.15 * 0.85) = 80.2.
    assert_eq!(calculate_optimal_quality(ImageFormat::Jpeg, &a, None), 80);
    assert_eq!(calculate_optimal_quality(ImageFormat::Jpeg, &a, Some(90)), 90);
    assert_eq!(calculate_optimal_quality(ImageFormat::Jpeg, &a, Some(200)), 100);
    assert_eq!(calculate_optimal_quality(ImageFormat::Png, &a, Some(10)), 100);
    let plan = create_optimal_options(ImageFormat::WebP, &a, Some(95));
    assert_eq!(plan.quality, 95);
    assert!(plan.reduce_colors && plan.progressive && plan.lossless);
}

fn run_search(target: usize, min_quality: Option<u8>, encode: impl Fn(u8) -> Result<Vec<u8>, CompressionError>) -> (Vec<u8>, Result<Vec<u8>, CompressionError>) {
    let mut search = SizeSearch::new(target, min_quality);
    let mut tried = Vec::new();
    while let Some(q) = search.next_quality() {
        tried.push(q);
        if let Some(found) = search.record(encode(q)) {
            return (tried, Ok(found));
        }
    }
    (tried, search.finish())
}

#[test]
fn size_search_stops_at_first_fit() {
    let (tried, r) = run_search(40_000, None, |q| Ok(vec![0u8; q as usize * 1000]));
    assert_eq!(tried, vec![95, 80, 68, 57, 48, 40]);
    assert_eq!(r.unwrap().len(), 40_000);
}

#[test]
fn size_search_bounds_attempts_and_quality() {
    let (tried, r) = run_search(1, None, |q| Ok(vec![0u8; q as usize * 1000]));
    assert_eq!(tried, vec![95, 80, 68, 57, 48, 40, 34]);
    assert_eq!(r.unwrap().len(), 34_000);
    let (tried, _) = run_search(1, Some(10), |q| Ok(vec![0u8; q as usize]));
    assert_eq!(tried, vec![10]);
    // The caller's minimum is also the starting quality.
    let (tried, _) = run_search(1, Some(0), |q| Ok(vec![0u8; q as usize + 2]));
    assert_eq!(tried, vec![0; 10]);
    let (tried, _) = run_search(1, Some(200), |q| Ok(vec![0u8; q as usize + 2]));
    assert!(tried.is_empty());
}

#[test]
fn size_search_without_output_fails() {
    let (tried, r) = run_search(1, None, |_| Err(CompressionError::EncodingError("unsupported".to_string())));
    assert_eq!(tried.len(), 7);
    assert!(matches!(r, Err(CompressionError::EncodingError(_))));
    let (tried, r) = run_search(10, Some(99), |q| Ok(vec![0u8; q as usize]));
    assert!(tried.is_empty());
    assert!(r.is_err());
}

#[test]
fn color_statistics_exact_values() {
    // Eight pixels: red four times, blue three times, green once.
    let colors = [[255, 0, 0, 255], [0, 0, 255, 255], [255, 0, 0, 255], [0, 255, 0, 255],
                  [0, 0, 255, 255], [255, 0, 0, 255], [0, 0, 255, 255], [255, 0, 0, 255]];
    let img = rgba_image(4, 2, |x, y| colors[(y * 4 + x) as usize]);
    assert_eq!(estimate_color_count(&img), 3);
    assert_eq!(dominant_colors(&img), vec![(255, 0, 0), (0, 0, 255), (0, 255, 0)]);
    // Red channel: mean 127.5, variance 16256.25; green: 1/8 at 255, variance 7112.1;
    // blue: 3/8 at 255, variance 15240.2; mean / 65025 = 0.1978.
    assert_eq!(calculate_color_variance(&img), 1979);
    let flat = rgba_image(3, 3, |_, _| [9, 9, 9, 255]);
    assert_eq!(calculate_color_variance(&flat), 0);
    assert_eq!(dominant_colors(&flat), vec![(9, 9, 9)]);
    let many = rgba_image(16, 16, |x, y| [x as u8, y as u8, 0, 255]);
    assert_eq!(estimate_color_count(&many), 256);
    assert_eq!(dominant_colors(&many).len(), 5);
}

#[test]
fn resize_dimensions_by_fit() {
    assert_eq!(calculate_resize_dimensions(2048, 1024, Some(1024), Some(1024), "contain"), (1024, 512));
    assert_eq!(calculate_resize_dimensions(2048, 1024, Some(1024), Some(1024), "cover"), (2048, 1024));
    assert_eq!(calculate_resize_dimensions(300, 200, Some(100), Some(100), "cover"), (150, 100));
    assert_eq!(calculate_resize_dimensions(20, 20, Some(10), Some(5), "fill"), (10, 5));
    assert_eq!(calculate_resize_dimensions(20, 20, Some(10), Some(5), "stretch"), (10, 5));
    assert_eq!(calculate_resize_dimensions(300, 200, Some(100), None, "contain"), (100, 66));
    assert_eq!(calculate_resize_dimensions(300, 200, None, Some(100), "contain"), (150, 100));
    assert_eq!(calculate_resize_dimensions(300, 200, None, None, "cover"), (300, 200));
    assert_eq!(calculate_resize_dimensions(1, 1, Some(u32::MAX), Some(1), "cover"), (u32::MAX, u32::MAX));
}

#[test]
fn explicit_format_requests() {
    assert_eq!(determine_target_format(&None, ImageFormat::Avif), Some(ImageFormat::Avif));
    assert_eq!(determine_target_format(&Some("auto".to_string()), ImageFormat::Png), Some(ImageFormat::Png));
    assert_eq!(determine_target_format(&Some("jpeg".to_string()), ImageFormat::Png), Some(ImageFormat::Jpeg));
    assert_eq!(determine_target_format(&Some("bmp".to_string()), ImageFormat::Png), None);
}

#[test]
fn sharded_color_count_matches_sequential() {
    let img = rgba_image(40, 30, |x, y| [(x % 7) as u8, (y % 5) as u8, ((x + y) % 3) as u8, 255]);
    let sequential = estimate_color_count(&img);
    for shard in [1usize, 7, 100, 1200, 5000] {
        assert_eq!(estimate_color_count_sharded(&img, shard), sequential);
    }
    let big = rgba_image(300, 300, |x, y| {
        let i = y * 300 + x;
        [(i >> 16) as u8, (i >> 8) as u8, i as u8, 255]
    });
    assert_eq!(estimate_color_count(&big), 65536);
    assert_eq!(estimate_color_count_sharded(&big, 4096), 65536);
    assert_eq!(estimate_color_count_sharded(&big, 90000), 65536);
    let shard = shard_colors(&big, 0, 10);
    assert_eq!(shard.len(), 10);
    assert_eq!(merge_color_sets(&vec![vec![1, 2, 3], vec![3, 4], vec![]]), 3 + 1);
}

#[test]
fn size_constrained_quality_table() {
    let mut a = sample_analysis();
    a.frequency_analysis.high_frequency_ratio = 8000;
    a.overall_complexity = 0;
    a.texture_complexity = 0;
    a.perceptual_quality_score = 10000;
    assert_eq!(calculate_optimal_quality(ImageFormat::Jpeg, &a, None), 88);
    assert_eq!(calculate_optimal_quality(ImageFormat::WebP, &a, None), 75);
    assert_eq!(calculate_optimal_quality(ImageFormat::Avif, &a, None), 82);
    a.overall_complexity = 9000;
    assert_eq!(calculate_optimal_quality(ImageFormat::WebP, &a, None), 85);
    assert_eq!(calculate_optimal_quality(ImageFormat::Avif, &a, None), 92);
    a.perceptual_quality_score = 7000;
    // 92 * (0.85 + 0.15 * 0.7) = 87.86.
    assert_eq!(calculate_optimal_quality(ImageFormat::Avif, &a, None), 87);
}

#[test]
fn color_scaled_perceptual_score_values() {
    assert_eq!(calculate_color_scaled_perceptual_score(10, 10, 1), 5600);
    assert_eq!(calculate_color_scaled_perceptual_score(10, 10, 65536), 7000);
    assert_eq!(calculate_color_scaled_perceptual_score(2000, 1500, 1_000_000), 10000);
    assert_eq!(calculate_color_scaled_perceptual_score(4000, 1000, 0), 7200);
}

#[test]
fn gradient_energy_exact_values() {
    // Interior columns 1..=4 on rows 1 and 2: |right - left| is 0, 200, 200, 0.
    let g = gray_image(6, 4, |x, _| if x < 3 { 0 } else { 200 });
    assert_eq!(gradient_energy(&g), (800, 800));
    let flat = gray_image(8, 8, |_, _| 77);
    assert_eq!(gradient_energy(&flat), (0, 0));
}
