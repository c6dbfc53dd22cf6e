use sha3::Digest;
use spaceone::message_types::MessageId;
use spaceone::processing::{DataProcessor, ProcessingStatus, ScienceDataPackage, ScienceDataType};

fn digest_hex(data: &[u8]) -> String {
    hex::encode(sha3::Sha3_256::digest(data))
}

fn package(id: &str, hash: String, ratio_permille: u64, timestamp: i64) -> ScienceDataPackage {
    ScienceDataPackage {
        id: id.into(),
        data_type: ScienceDataType::Image,
        source_asset: "rover-01".into(),
        timestamp,
        sol_number: 45,
        compressed_size_bytes: 2500,
        uncompressed_size_bytes: 10000,
        compression_ratio_permille: ratio_permille,
        hash,
        metadata: Vec::new(),
        priority: 5,
    }
}

#[test]
fn test_process_package() {
    let mut processor = DataProcessor::new();

    let data = vec![42u8; 10000];
    let hash = digest_hex(&data);

    let package = ScienceDataPackage {
        id: "sci-001".into(),
        data_type: ScienceDataType::Image,
        source_asset: "rover-01".into(),
        timestamp: chrono::Utc::now().timestamp_millis(),
        sol_number: 45,
        compressed_size_bytes: 2500,
        uncompressed_size_bytes: 10000,
        compression_ratio_permille: 4000,
        hash,
        metadata: Vec::new(),
        priority: 5,
    };

    let result = processor.process_package(package, &data);
    assert_eq!(result.status, ProcessingStatus::Completed);
    assert!(result.quality_score > 0);
}

#[test]
fn test_integrity_check_fails() {
    let mut processor = DataProcessor::new();

    let package = ScienceDataPackage {
        id: "sci-002".into(),
        data_type: ScienceDataType::Spectrometer,
        source_asset: "rover-01".into(),
        timestamp: chrono::Utc::now().timestamp_millis(),
        sol_number: 45,
        compressed_size_bytes: 100,
        uncompressed_size_bytes: 500,
        compression_ratio_permille: 5000,
        hash: "wrong_hash".into(),
        metadata: Vec::new(),
        priority: 3,
    };

    let result = processor.process_package(package, &[1, 2, 3]);
    assert!(matches!(result.status, ProcessingStatus::Failed { .. }));
}

#[test]
fn processing_digest_is_sha3_hex() {
    assert_eq!(digest_hex(&[42u8; 10000]), "282dab3e2ed281cc290d69d03c8cbdb0a90d2acaf4d4cf2a53e65d325c7de5e2");
    assert_eq!(MessageId::generate(&[42u8; 10000]).0, "282dab3e2ed281cc290d69d03c8cbdb0a90d2acaf4d4cf2a53e65d325c7de5e2");
}

#[test]
fn processing_scores_paths_and_statistics() {
    let mut p = DataProcessor::new();
    let data = vec![42u8; 10000];
    let r = p.process_package_at(package("sci-1", digest_hex(&data), 4000, 0), &data, 1_000, 7);
    assert_eq!(r.status, ProcessingStatus::Completed);
    assert_eq!(r.quality_score, 90);
    assert_eq!(r.output_path, "/data/science/Image/sci-1");
    assert_eq!(r.processing_time_ms, 7);
    assert!(r.anomalies_detected.is_empty());

    let mut rich = package("sci-2", digest_hex(&data), 12_000, 0);
    rich.metadata.push(("camera".into(), "left".into()));
    let r2 = p.process_package_at(rich, &data, 1_000, 0);
    assert_eq!(r2.quality_score, 100);

    let st = *p.get_stats();
    assert_eq!(st.packages_processed, 2);
    assert_eq!(st.total_compressed_bytes, 5000);
    assert_eq!(st.total_uncompressed_bytes, 20000);
    assert_eq!(st.average_ratio_permille, 4000);
    assert_eq!(st.best_ratio_permille, 12_000);
    assert_eq!(st.worst_ratio_permille, 4000);
    assert_eq!(p.results().len(), 2);
    assert_eq!(p.total_processed_bytes(), 20000);
}

#[test]
fn processing_anomalies_zero_data_and_age() {
    let mut p = DataProcessor::new();
    let zeros = vec![0u8; 50];
    let day: i64 = 86_400_000;
    let r = p.process_package_at(package("old", digest_hex(&zeros), 1000, 0), &zeros, 400 * day, 0);
    assert_eq!(
        r.anomalies_detected,
        vec![
            "All-zero data detected — possible sensor failure".to_string(),
            "Data age: 400 days — possible timestamp error".to_string()
        ]
    );
    // 50 bytes, no metadata: 100 - 20 - 10.
    assert_eq!(r.quality_score, 70);
    // A failed package is not counted.
    let bad = p.process_package_at(package("bad", "00".into(), 1000, 0), &zeros, 0, 0);
    assert_eq!(bad.status, ProcessingStatus::Failed { reason: "Hash mismatch".to_string() });
    assert_eq!(bad.anomalies_detected, vec!["Data integrity compromised".to_string()]);
    assert_eq!(p.results().len(), 1);
}

#[test]
fn checked_processing_refuses_only_what_would_overflow() {
    let mut p = DataProcessor::new();
    let data = vec![1u8; 64];
    let mut big = package("big", digest_hex(&data), 1000, 0);
    big.uncompressed_size_bytes = u64::MAX;
    let r = p.process_package_checked(big, &data).unwrap();
    assert_eq!(r.status, ProcessingStatus::Completed);
    assert_eq!(p.total_processed_bytes(), u64::MAX);

    // A matching package no longer fits the byte total.
    let more = package("more", digest_hex(&data), 1000, 0);
    assert!(p.process_package_checked(more, &data).is_none());
    assert_eq!(p.results().len(), 1);

    // A package whose data does not match is still answered.
    let bad = package("bad", "00".repeat(32), 1000, 0);
    let r = p.process_package_checked(bad, &data).unwrap();
    assert!(matches!(r.status, ProcessingStatus::Failed { .. }));
    assert_eq!(p.total_processed_bytes(), u64::MAX);
}
