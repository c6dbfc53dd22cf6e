use spaceone::science::{classify_data, compute_quality, detect_anomalies, DataClassification, InstrumentType, SciencePipeline};

#[test]
fn science_anomaly_detection_cases() {
    assert_eq!(detect_anomalies(&[0u8; 200]), vec!["All-zero data — possible sensor failure".to_string()]);
    assert_eq!(detect_anomalies(&[255u8; 101]), vec!["All-saturated data — possible sensor overload".to_string()]);
    // Exactly 100 zero bytes is not flagged.
    assert!(detect_anomalies(&[0u8; 100]).is_empty());
    assert_eq!(detect_anomalies(&[1, 2, 3]), vec!["Data too short — possible transmission error".to_string()]);
    // An empty package is all zero and too short, but only the length counts.
    assert_eq!(detect_anomalies(&[]), vec!["Data too short — possible transmission error".to_string()]);
    let two_values: Vec<u8> = (0..2000).map(|i| if i % 2 == 0 { 7 } else { 9 }).collect();
    assert_eq!(detect_anomalies(&two_values), vec!["Low entropy: only 2 unique values in 2000 bytes".to_string()]);
    let zeros = vec![0u8; 1500];
    assert_eq!(
        detect_anomalies(&zeros),
        vec![
            "All-zero data — possible sensor failure".to_string(),
            "Low entropy: only 1 unique values in 1500 bytes".to_string()
        ]
    );
    let varied: Vec<u8> = (0..2000).map(|i| (i % 251) as u8).collect();
    assert!(detect_anomalies(&varied).is_empty());
}

#[test]
fn science_classification_and_quality() {
    assert_eq!(classify_data(&InstrumentType::DrillSample, 0), DataClassification::ScientificSecret);
    assert_eq!(classify_data(&InstrumentType::SHERLOC, 3), DataClassification::ScientificSecret);
    assert_eq!(classify_data(&InstrumentType::PiXL, 0), DataClassification::Confidential);
    assert_eq!(classify_data(&InstrumentType::MEDA, 1), DataClassification::Internal);
    assert_eq!(classify_data(&InstrumentType::MEDA, 0), DataClassification::Public);
    assert_eq!(compute_quality(500, 0), 100);
    assert_eq!(compute_quality(20_000, 0), 100);
    assert_eq!(compute_quality(20_000, 1), 90);
    assert_eq!(compute_quality(50, 1), 55);
    assert_eq!(compute_quality(5, 5), 0);
}

#[test]
fn science_ingest_records_and_counts() {
    let mut p = SciencePipeline::new();
    let id = p.ingest_at(&[0u8; 200], InstrumentType::MastCamera, "rover-01", 12, "abcd1234-0000-4000-8000-000000000000", 5).unwrap();
    assert_eq!(id, "SCI-abcd1234");
    let recs = p.records_by_sol(12);
    assert_eq!(recs.len(), 1);
    let r = recs[0];
    assert_eq!(r.data_size_bytes, 200);
    assert_eq!(r.compressed_size_bytes, 80);
    assert_eq!(r.compression_ratio_permille, 2500);
    assert_eq!(r.quality_score, 85);
    assert_eq!(r.classification, DataClassification::Internal);
    assert_eq!(r.sha3_256, "2b43036c229ba512995f91fdb46fcd5327a4dc834d86d6e0f58a08053346dc2e");
    assert_eq!(r.timestamp, 5);
    assert!(!r.available_on_mars);

    let data: Vec<u8> = (0..300).map(|i| (i % 200) as u8).collect();
    p.ingest(&data, InstrumentType::PiXL, "rover-02", 13).unwrap();
    p.ingest(&data, InstrumentType::MastCamera, "rover-01", 13).unwrap();
    assert_eq!(p.records_by_sol(13).len(), 2);
    assert_eq!(p.records_by_instrument(&InstrumentType::MastCamera).len(), 2);
    assert_eq!(p.anomalous_records().len(), 1);
    let st = p.stats();
    assert_eq!(st.total_records, 3);
    assert_eq!(st.total_bytes, 800);
    assert_eq!(st.total_anomalies, 1);
    assert_eq!(st.average_quality_centi, 9500);
    assert_eq!(st.by_instrument, vec![(InstrumentType::MastCamera, 2), (InstrumentType::PiXL, 1)]);
    assert_eq!(
        st.by_classification,
        vec![(DataClassification::Internal, 1), (DataClassification::Confidential, 1), (DataClassification::Public, 1)]
    );
    // A random identifier keeps the first group of the UUID.
    let rid = p.ingest(&data, InstrumentType::MEDA, "hab", 14).unwrap();
    assert_eq!(rid.len(), 12);
    assert!(rid.starts_with("SCI-"));
}

#[test]
fn science_empty_pipeline_stats() {
    let p = SciencePipeline::new();
    let st = p.stats();
    assert_eq!(st.total_records, 0);
    assert_eq!(st.average_quality_centi, 0);
    assert!(st.by_instrument.is_empty());
}

#[test]
fn ingest_returns_the_record_identifier() {
    let mut p = SciencePipeline::new();
    let data = [0u8; 200];
    let id = p.ingest(&data, InstrumentType::MastCamera, "rover-01", 1).unwrap();
    assert!(id.starts_with("SCI-"));
    let recs = p.records_by_sol(1);
    assert_eq!(recs.len(), 1);
    assert_eq!(recs[0].id, id);
    assert_eq!(recs[0].anomalies, vec!["All-zero data — possible sensor failure".to_string()]);
    assert_eq!(recs[0].classification, DataClassification::Internal);
}
