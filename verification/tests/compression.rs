use spaceone::compression::{
    AiCompressor, BandwidthContext, CompressionError, CompressionStrategy, ContentType,
};

#[test]
fn test_select_strategy_no_compression_needed() {
    let compressor = AiCompressor::new();
    let context = BandwidthContext {
        available_bps: 10_000,
        latency_minutes: 11,
        contact_duration_secs: 600,
        content_type: ContentType::Text,
        original_size_bytes: 1000,
    };
    let strategy = compressor.select_strategy(&context);
    assert_eq!(strategy, CompressionStrategy::NoCompression);
}

#[test]
fn test_select_strategy_compression_needed() {
    let compressor = AiCompressor::new();
    let context = BandwidthContext {
        available_bps: 500,
        latency_minutes: 11,
        contact_duration_secs: 120,
        content_type: ContentType::ScientificImage,
        original_size_bytes: 1024 * 1024,
    };
    let strategy = compressor.select_strategy(&context);
    assert!(matches!(strategy, CompressionStrategy::LossyWithRoi { .. }));
}

#[test]
fn test_compress_lossless() {
    let compressor = AiCompressor::new();
    let data = vec![42u8; 10000];
    let result = compressor.compress(&data, &CompressionStrategy::Lossless).unwrap();
    assert!(result.ratio_milli > 1000);
    assert_eq!(result.algorithm, "zstd");
    assert_eq!(result.quality_milli, 1000);
}

#[test]
fn test_compress_empty_fails() {
    let compressor = AiCompressor::new();
    let result = compressor.compress(&[], &CompressionStrategy::Lossless);
    assert!(result.is_err());
}

#[test]
fn test_compress_semantic() {
    let compressor = AiCompressor::new();
    let data = vec![1u8; 100_000];
    let result = compressor.compress(&data, &CompressionStrategy::Semantic { feature_count: 256 }).unwrap();
    assert!(result.compressed_size <= 8192);
    assert!(result.ratio_milli > 5000);
}

fn context(bps: u64, secs: u32, kind: ContentType, size: u64) -> BandwidthContext {
    BandwidthContext {
        available_bps: bps,
        latency_minutes: 11,
        contact_duration_secs: secs,
        content_type: kind,
        original_size_bytes: size,
    }
}

#[test]
fn exact_fit_needs_no_compression() {
    let c = AiCompressor::new();
    // 1000 bytes are 8000 bits: exactly what 80 b/s carry in 100 s.
    assert_eq!(c.select_strategy(&context(80, 100, ContentType::Photo, 1000)), CompressionStrategy::NoCompression);
    assert_eq!(
        c.select_strategy(&context(80, 100, ContentType::Photo, 1001)),
        CompressionStrategy::LossyWithRoi { quality_milli: 500, roi_milli: 200 }
    );
}

#[test]
fn image_and_audio_depend_on_ratio_needed() {
    let c = AiCompressor::new();
    // Capacity 8000 bits = 1000 bytes; 2999 bytes need less than 3:1.
    assert_eq!(
        c.select_strategy(&context(80, 100, ContentType::ScientificImage, 2999)),
        CompressionStrategy::NearLossless { max_error_milli: 10 }
    );
    assert_eq!(
        c.select_strategy(&context(80, 100, ContentType::ScientificImage, 3000)),
        CompressionStrategy::LossyWithRoi { quality_milli: 700, roi_milli: 300 }
    );
    assert_eq!(
        c.select_strategy(&context(80, 100, ContentType::Audio, 3999)),
        CompressionStrategy::NearLossless { max_error_milli: 50 }
    );
    assert_eq!(
        c.select_strategy(&context(80, 100, ContentType::Audio, 4000)),
        CompressionStrategy::LossyWithRoi { quality_milli: 600, roi_milli: 800 }
    );
    assert_eq!(
        c.select_strategy(&context(80, 100, ContentType::Video, 4000)),
        CompressionStrategy::Semantic { feature_count: 256 }
    );
    assert_eq!(c.select_strategy(&context(0, 100, ContentType::Telemetry, 1)), CompressionStrategy::Lossless);
}

#[test]
fn estimated_sizes_follow_the_ratios() {
    let c = AiCompressor::new();
    let small = vec![0u8; 900];
    let r = c.compress(&small, &CompressionStrategy::Lossless).unwrap();
    assert_eq!(r.compressed_size, 500);
    assert_eq!(r.ratio_milli, 1800);

    let data = vec![0u8; 6000];
    let r = c.compress(&data, &CompressionStrategy::NearLossless { max_error_milli: 10 }).unwrap();
    assert_eq!(r.compressed_size, 1200);
    assert_eq!(r.quality_milli, 990);
    assert_eq!(r.algorithm, "near_lossless");

    // roi 0.2: ratio 15 × (1 + 0.8 × 3) = 51.
    let r = c.compress(&data, &CompressionStrategy::LossyWithRoi { quality_milli: 500, roi_milli: 200 }).unwrap();
    assert_eq!(r.compressed_size, 117);
    assert_eq!(r.quality_milli, 500);
    assert_eq!(r.algorithm, "lossy_roi");

    let r = c.compress(&data, &CompressionStrategy::NoCompression).unwrap();
    assert_eq!(r.compressed_size, 6000);
    assert_eq!(r.ratio_milli, 1000);
    assert_eq!(r.algorithm, "none");

    let r = c.compress(&data, &CompressionStrategy::Semantic { feature_count: 256 }).unwrap();
    assert_eq!(r.compressed_size, 6000);
    assert_eq!(r.quality_milli, 850);
}

#[test]
fn empty_data_gives_invalid_size() {
    let c = AiCompressor::new();
    assert_eq!(
        c.compress_timed(&[], &CompressionStrategy::NoCompression, 3).unwrap_err(),
        CompressionError::InvalidInputSize(0)
    );
    let r = c.compress_timed(&[1, 2, 3], &CompressionStrategy::NoCompression, 3).unwrap();
    assert_eq!(r.compression_time_ms, 3);
}

#[test]
fn estimate_never_exceeds_data() {
    let c = AiCompressor::new();
    let data = vec![7u8; 1234];
    for s in [
        CompressionStrategy::NoCompression,
        CompressionStrategy::Lossless,
        CompressionStrategy::NearLossless { max_error_milli: 50 },
        CompressionStrategy::LossyWithRoi { quality_milli: 600, roi_milli: 1000 },
        CompressionStrategy::Semantic { feature_count: 9999 },
    ] {
        assert!(c.compress(&data, &s).unwrap().compressed_size <= 1234);
    }
}

#[test]
fn fresh_compressor_statistics() {
    let c = AiCompressor::with_config(2000, 4096);
    assert_eq!(c.min_ratio_milli(), 2000);
    assert_eq!(c.max_bundle_size(), 4096);
    let s = c.statistics();
    assert_eq!(s.total_bundles_compressed, 0);
    assert_eq!(s.total_bytes_saved, 0);
    assert_eq!(s.average_compression_ratio_milli, 1000);
}
