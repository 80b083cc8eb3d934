use image::{DynamicImage, GenericImageView, ImageBuffer, Rgb};
use rusty_pic::batch::ParallelProcessor;
use rusty_pic::pool::MemoryPool;
use rusty_pic::kernels::SimdProcessor;
use rusty_pic::codec::{decode_image, encode_with_plan, iterative_compress_to_size};
use rusty_pic::policy::{CompressionPlan, ImageFormat};
use rusty_pic::error::CompressionError;
use rusty_pic::raster::{apply_simd_color_optimization, OptimizedImageBuffer};
use std::time::Instant;

fn to_dynamic_image(buffer: &OptimizedImageBuffer) -> Option<DynamicImage> {
    let (w, h) = buffer.dimensions();
    match buffer.channels() {
        3 => ImageBuffer::<Rgb<u8>, Vec<u8>>::from_raw(w, h, buffer.data().clone()).map(DynamicImage::ImageRgb8),
        _ => None,
    }
}

#[test]
fn performance_test_optimized_image_buffer() {
    let buffer = OptimizedImageBuffer::new(100, 100, 3);
    assert_eq!(buffer.dimensions(), (100, 100));
    assert_eq!(buffer.channels(), 3);
    assert_eq!(buffer.data().len(), 30000);
}

#[test]
fn performance_test_test_optimized_image_buffer() {
    let width = 1024u32;
    let height = 1024u32;
    let channels = 3u8;
    let data_size = (width * height * channels as u32) as usize;
    let test_data: Vec<u8> = (0..data_size).map(|i| (i % 256) as u8).collect();

    let buffer = OptimizedImageBuffer::from_vec(test_data.clone(), width, height, channels)
        .expect("Failed to create optimized buffer");

    assert_eq!(buffer.dimensions(), (width, height));
    assert_eq!(buffer.channels(), channels);
    assert_eq!(buffer.data().len(), data_size);

    let dynamic_img = to_dynamic_image(&buffer).expect("Failed to convert to DynamicImage");
    assert_eq!(dynamic_img.dimensions(), (width, height));

    let cloned_buffer = buffer.clone_shared();
    assert_eq!(cloned_buffer.dimensions(), buffer.dimensions());
    assert_eq!(cloned_buffer.data().len(), buffer.data().len());
}

#[test]
fn from_vec_rejects_wrong_length() {
    let r = OptimizedImageBuffer::from_vec(vec![0u8; 11], 2, 2, 3);
    assert!(matches!(r, Err(CompressionError::MemoryError(_))));
    let ok = OptimizedImageBuffer::from_vec(vec![5u8; 12], 2, 2, 3).unwrap();
    assert_eq!(ok.data().clone(), vec![5u8; 12]);
    assert!(OptimizedImageBuffer::new(3, 2, 4).data().iter().all(|&v| v == 0));
}

#[test]
fn test_memory_pool() {
    let pool = MemoryPool::new(1024, 4);
    let buffer1 = pool.get_buffer();
    let buffer2 = pool.get_buffer();

    assert_eq!(buffer1.len(), 1024);
    assert_eq!(buffer2.len(), 1024);

    pool.return_buffer(buffer1);
    let buffer3 = pool.get_buffer();
    assert_eq!(buffer3.len(), 1024);
}

#[test]
fn test_memory_pool_performance() {
    let pool = MemoryPool::new(1024 * 1024, 4);

    let start = Instant::now();
    for _ in 0..100 {
        let buffer = pool.get_buffer();
        let _sum: u64 = buffer.iter().take(1000).map(|&x| x as u64).sum();
        pool.return_buffer(buffer);
    }
    let pool_duration = start.elapsed();

    let start = Instant::now();
    for _ in 0..100 {
        let buffer = vec![0u8; 1024 * 1024];
        let _sum: u64 = buffer.iter().take(1000).map(|&x| x as u64).sum();
    }
    let direct_duration = start.elapsed();

    println!("Memory pool took: {:?}", pool_duration);
    println!("Direct allocation took: {:?}", direct_duration);

    assert!(
        pool_duration.as_secs_f64() < 5.0 && direct_duration.as_secs_f64() < 5.0,
        "Unexpectedly slow timings (pool: {:?}, direct: {:?})",
        pool_duration,
        direct_duration
    );
}

#[test]
fn pool_hands_out_zeroed_buffers_and_drops_mismatched_ones() {
    let pool = MemoryPool::new(16, 1);
    let mut b = pool.get_buffer();
    b[3] = 9;
    assert!(pool.return_buffer(b));
    assert_eq!(pool.get_buffer(), vec![0u8; 16]);
    assert!(!pool.return_buffer(vec![1u8; 8]));
    assert_eq!(pool.get_buffer(), vec![0u8; 16]);
    let empty = MemoryPool::new(4, 0);
    assert_eq!(empty.get_buffer(), vec![0u8; 4]);
}

#[test]
fn test_parallel_processing() {
    let images = vec![
        DynamicImage::new_rgb8(10, 10),
        DynamicImage::new_rgb8(20, 20),
        DynamicImage::new_rgb8(30, 30),
    ];

    let results = ParallelProcessor::process_batch(&images, 4, |img: &DynamicImage| {
        Ok::<(u32, u32), CompressionError>(img.dimensions())
    });

    assert_eq!(results.len(), 3);
    assert!(results.iter().all(|r| r.is_ok()));
}

#[test]
fn batch_keeps_order_and_isolates_one_failure() {
    let items: Vec<u32> = (0..37).collect();
    for workers in [1usize, 2, 3, 8, 64] {
        let results = ParallelProcessor::process_batch(&items, workers, |x: &u32| {
            if *x == 11 {
                Err(CompressionError::EncodingError("item failed".to_string()))
            } else {
                Ok(*x * 2)
            }
        });
        assert_eq!(results.len(), 37);
        for (i, r) in results.iter().enumerate() {
            if i == 11 {
                assert!(r.is_err());
            } else {
                assert_eq!(*r, Ok(i as u32 * 2));
            }
        }
    }
}

#[test]
fn chunk_plan_covers_items_in_order() {
    assert_eq!(ParallelProcessor::chunk_size(100, 4), 12);
    assert_eq!(ParallelProcessor::chunk_size(3, 8), 1);
    assert_eq!(ParallelProcessor::chunk_ranges(10, 4), vec![(0, 4), (4, 8), (8, 10)]);
    assert!(ParallelProcessor::chunk_ranges(0, 4).is_empty());
}

#[test]
fn color_optimization_by_format_and_size() {
    let big: Vec<u8> = (0..400 * 250 * 3).map(|i| (i % 251) as u8).collect();
    let img = OptimizedImageBuffer::from_vec(big.clone(), 400, 250, 3).unwrap();
    let out = apply_simd_color_optimization(img.clone_shared(), ImageFormat::Jpeg);
    let mut expected = big.clone();
    SimdProcessor::quantize_colors_simd(&mut expected, 64);
    assert_eq!(out.data().clone(), expected);
    assert_ne!(out.data().clone(), big);

    let out = apply_simd_color_optimization(img.clone_shared(), ImageFormat::WebP);
    let round = SimdProcessor::yuv_to_rgb_simd(&SimdProcessor::rgb_to_yuv_simd(&big));
    assert_eq!(out.data().clone(), round);

    let out = apply_simd_color_optimization(img, ImageFormat::Png);
    assert_eq!(out.data().clone(), big);

    let small: Vec<u8> = (0..10 * 10 * 3).map(|i| (i % 251) as u8).collect();
    let img = OptimizedImageBuffer::from_vec(small.clone(), 10, 10, 3).unwrap();
    assert_eq!(apply_simd_color_optimization(img, ImageFormat::Jpeg).data().clone(), small);

    let rgba: Vec<u8> = (0..400 * 250 * 4).map(|i| (i % 253) as u8).collect();
    let img = OptimizedImageBuffer::from_vec(rgba.clone(), 400, 250, 4).unwrap();
    assert_eq!(apply_simd_color_optimization(img, ImageFormat::Avif).data().clone(), rgba);
}

#[test]
fn test_error_display() {
    let error = CompressionError::InvalidFormat("test".to_string());
    assert!(error.message().contains("Invalid image format"));
    assert_eq!(CompressionError::EncodingError("x".to_string()).message(), "Encoding error: x");
}

#[test]
fn decode_encode_and_size_search_through_png() {
    let img = ImageBuffer::<Rgb<u8>, Vec<u8>>::from_fn(16, 8, |x, y| Rgb([(x * 16) as u8, (y * 32) as u8, 7]));
    let mut png = Vec::new();
    DynamicImage::ImageRgb8(img)
        .write_to(&mut std::io::Cursor::new(&mut png), image::ImageOutputFormat::Png)
        .unwrap();
    let decoded = decode_image(&png).unwrap();
    assert_eq!(decoded.rgba.dimensions(), (16, 8));
    assert_eq!(&decoded.rgba.data()[0..4], &[0, 0, 7, 255]);
    assert_eq!(decoded.gray.data().len(), 128);
    assert!(!decoded.color_type.has_alpha());

    let plan = CompressionPlan { format: ImageFormat::Png, quality: 100, reduce_colors: true, progressive: false, lossless: true };
    let out = encode_with_plan(&decoded, &plan).unwrap();
    assert_ne!(out, decoded.rgba.data().clone());
    let back = decode_image(&out).unwrap();
    assert_eq!(back.rgba.data(), decoded.rgba.data());

    let fits = iterative_compress_to_size(&decoded, &plan, 1 << 20, None).unwrap();
    assert_eq!(decode_image(&fits).unwrap().rgba.data(), decoded.rgba.data());
    let best = iterative_compress_to_size(&decoded, &plan, 1, None).unwrap();
    assert!(best.len() > 1);

    let jpeg_plan = CompressionPlan { format: ImageFormat::Jpeg, ..plan };
    assert!(matches!(encode_with_plan(&decoded, &jpeg_plan), Err(CompressionError::UnsupportedFeature(_))));
    assert!(matches!(iterative_compress_to_size(&decoded, &jpeg_plan, 1, None), Err(CompressionError::EncodingError(_))));
    assert!(matches!(decode_image(&vec![1, 2, 3]), Err(CompressionError::InvalidFormat(_))));
}
