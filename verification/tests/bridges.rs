use spaceone::bridge::{
    bundle_id_from_response, encode_send_request, parse_rauc_status_text, parse_service_state, service_names,
    BridgeError, BundleVerification, DtnBundle, DtnPriority, RaucInstallResult,
};
use spaceone::text::{lines, parse_unsigned, trim_chars};

fn chars_of(s: &str) -> Vec<char> {
    s.chars().collect()
}

#[test]
fn dtn_priority_bytes() {
    assert_eq!(DtnPriority::Bulk.as_byte(), 0);
    assert_eq!(DtnPriority::Normal.as_byte(), 2);
    assert_eq!(DtnPriority::High.as_byte(), 4);
    assert_eq!(DtnPriority::Expedited.as_byte(), 6);
    assert_eq!(DtnPriority::from(0u8), DtnPriority::Bulk);
    assert_eq!(DtnPriority::from(3u8), DtnPriority::Normal);
    assert_eq!(DtnPriority::from(5u8), DtnPriority::High);
    assert_eq!(DtnPriority::from(200u8), DtnPriority::Expedited);
}

#[test]
fn aap_send_request_layout() {
    let req = encode_send_request("dtn://earth", "dtn://mars", &[9, 8], DtnPriority::High);
    let mut expected = b"BUNDLE".to_vec();
    expected.push(0x20);
    expected.extend_from_slice(&[0, 11]);
    expected.extend_from_slice(b"dtn://earth");
    expected.extend_from_slice(&[0, 10]);
    expected.extend_from_slice(b"dtn://mars");
    expected.push(4);
    expected.extend_from_slice(&[0, 0, 0, 2, 9, 8]);
    assert_eq!(req, expected);
}

#[test]
fn received_bundle_decoding() {
    let b = DtnBundle::from_aap_response(b"id-1|dtn://a|dtn://b|hello|2030-01-01|5").unwrap();
    assert_eq!(b.bundle_id, "id-1");
    assert_eq!(b.source_eid, "dtn://a");
    assert_eq!(b.destination_eid, "dtn://b");
    assert_eq!(b.payload, b"hello".to_vec());
    assert_eq!(b.timestamp, "2030-01-01");
    assert_eq!(b.priority, 5);
    assert_eq!(b.lifetime_seconds, 3600);
    let b = DtnBundle::from_aap_text("a|b|c|d|e|f|g").unwrap();
    assert_eq!(b.priority, 3);
    let b = DtnBundle::from_aap_text("a|b|c|d|e|+7").unwrap();
    assert_eq!(b.priority, 7);
    match DtnBundle::from_aap_text("a|b|c") {
        Err(BridgeError::Deserialization(m)) => assert_eq!(m, "Invalid AAP bundle format"),
        _ => panic!("expected a decoding error"),
    }
}

#[test]
fn bundle_id_is_trimmed() {
    assert_eq!(bundle_id_from_response(b"  bundle-42\n"), "bundle-42");
    assert_eq!(bundle_id_from_response(b""), "");
}

#[test]
fn rauc_text_status() {
    let text = "=== System Info ===\nBooted: B\n[rootfs.1] (/dev/sda3)\n  booted slot rootfs_b\n";
    let st = parse_rauc_status_text(text).unwrap();
    assert_eq!(st.boot_primary, "B");
    assert_eq!(st.slot_a.state, "inactive");
    assert_eq!(st.slot_b.state, "ok");
    assert_eq!(st.slot_a.boot_count, 1);
    assert_eq!(st.slot_b.device, "/dev/disk/by-partlabel/rootfs_b");
    assert_eq!(st.compatible, "asterquanta-qemux86-64");
    let st = parse_rauc_status_text("").unwrap();
    assert_eq!(st.boot_primary, "A");
    assert_eq!(st.slot_a.state, "inactive");
    let st = parse_rauc_status_text("x Booted:  A  Booted: B\n[rootfs.0]").unwrap();
    assert_eq!(st.boot_primary, "A");
    assert_eq!(st.slot_a.state, "ok");
}

#[test]
fn rauc_results() {
    let r = RaucInstallResult::installed("/tmp/u.raucb");
    assert!(r.success && r.requires_reboot);
    assert_eq!(r.message, "Bundle installed on inactive slot. Reboot required.");
    let v = BundleVerification::verified("/tmp/u.raucb");
    assert!(v.valid);
    assert_eq!(v.version, "1.0.0");
}

#[test]
fn systemctl_listing() {
    let listing = "aqm-dtnd.service loaded active running DTN\n\nrauc.service loaded\nno unit here\n  spaceone-core.service x\r\n";
    assert_eq!(
        service_names(listing),
        vec!["aqm-dtnd.service".to_string(), "rauc.service".to_string(), "spaceone-core.service".to_string()]
    );
}

#[test]
fn systemctl_show_values() {
    let st = parse_service_state("aqm-ui", "active\nrunning\n3\n");
    assert_eq!(st.service, "aqm-ui");
    assert_eq!(st.active_state, "active");
    assert_eq!(st.sub_state, "running");
    assert_eq!(st.restarts, 3);
    let st = parse_service_state("x", "failed");
    assert_eq!(st.sub_state, "unknown");
    assert_eq!(st.restarts, 0);
    let st = parse_service_state("x", "a\nb\nmany");
    assert_eq!(st.restarts, 0);
}

#[test]
fn text_helpers() {
    let cs = chars_of("a\r\nb\n\nc\r");
    let ls: Vec<String> = lines(&cs).iter().map(|l| l.iter().collect()).collect();
    assert_eq!(ls, "a\r\nb\n\nc\r".lines().map(|s| s.to_string()).collect::<Vec<String>>());
    let t: String = trim_chars(&chars_of("\u{3000} x y \t")).iter().collect();
    assert_eq!(t, "x y");
    assert_eq!(parse_unsigned(&chars_of("255"), 255), Some(255));
    assert_eq!(parse_unsigned(&chars_of("256"), 255), None);
    assert_eq!(parse_unsigned(&chars_of("+0"), 255), Some(0));
    assert_eq!(parse_unsigned(&chars_of(""), 255), None);
}
