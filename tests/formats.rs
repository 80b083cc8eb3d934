use rusty_pic::formats::{AvifColorSpace, AvifOptions, AvifSubsample, PngOptions};

#[test]
fn test_avif_options_default() {
    let options = AvifOptions::default();

    assert_eq!(options.quality, 80);
    assert_eq!(options.speed, 6);
    assert_eq!(options.alpha_quality, 80);
    assert_eq!(options.bit_depth, 8);
    assert!(!options.lossless);
    assert!(options.enable_sharp_yuv);
}

#[test]
fn test_avif_color_space_options() {
    let options = AvifOptions {
        color_space: AvifColorSpace::Yuv420,
        subsample: AvifSubsample::Yuv420,
        ..Default::default()
    };

    assert!(matches!(options.color_space, AvifColorSpace::Yuv420));
    assert!(matches!(options.subsample, AvifSubsample::Yuv420));
}

#[test]
fn png_options_default() {
    let o = PngOptions::default();
    assert_eq!(o.optimization_level, 3);
    assert!(o.palette_optimization && o.strip_metadata && !o.interlace);
}
