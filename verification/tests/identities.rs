use spaceone::auth::{AuthError, AuthRegistry, Capability, CapabilityScope, MarsIdentity};
use spaceone::message_types::{AgencyId, NodeId};
use spaceone::negotiation::MapError;

fn sample_identity(node_id: &str, agency: AgencyId) -> MarsIdentity {
    let now = chrono::Utc::now().timestamp_millis();
    MarsIdentity {
        node_id: NodeId(node_id.into()),
        agency,
        public_key: vec![1, 2, 3, 4],
        issued_at: now - 3_600_000,
        expires_at: now + 24 * 3_600_000,
        mission: "mars-2030".into(),
        platform: "rover".into(),
    }
}

fn identity_between(node_id: &str, issued_at: i64, expires_at: i64) -> MarsIdentity {
    MarsIdentity {
        node_id: NodeId(node_id.into()),
        agency: AgencyId::Esa,
        public_key: vec![9],
        issued_at,
        expires_at,
        mission: "mars-2030".into(),
        platform: "habitat".into(),
    }
}

#[test]
fn test_register_and_authenticate() {
    let mut registry = AuthRegistry::new();
    let identity = sample_identity("rover-01", AgencyId::Nasa);
    let _fp = identity.fingerprint();

    registry.register_identity(identity).unwrap();

    let auth = registry.authenticate(&NodeId("rover-01".into()));
    assert!(auth.is_ok());
    assert_eq!(auth.unwrap().node_id.0, "rover-01");
}

#[test]
fn test_revoke_identity() {
    let mut registry = AuthRegistry::new();
    registry.register_identity(sample_identity("rover-01", AgencyId::Nasa)).unwrap();

    registry.revoke_identity(&NodeId("rover-01".into()));

    let auth = registry.authenticate(&NodeId("rover-01".into()));
    assert!(auth.is_err());
}

#[test]
fn test_capabilities_check() {
    let mut registry = AuthRegistry::new();
    let node_id = NodeId("rover-01".into());

    registry.grant_capabilities(
        &node_id,
        vec![
            Capability { name: "navigate".into(), scope: CapabilityScope::Global, expires_at: None },
            Capability { name: "sample".into(), scope: CapabilityScope::Agency(AgencyId::Nasa), expires_at: None },
        ],
    );

    assert!(registry.check_capability(&node_id, "navigate", &CapabilityScope::Global));
    assert!(registry.check_capability(&node_id, "sample", &CapabilityScope::Agency(AgencyId::Nasa)));
    assert!(!registry.check_capability(&node_id, "sample", &CapabilityScope::Agency(AgencyId::Esa)));
    assert!(!registry.check_capability(&node_id, "fly", &CapabilityScope::Global));
}

#[test]
fn identity_fingerprint_is_sha3_hex_of_the_key() {
    let identity = sample_identity("rover-01", AgencyId::Nasa);
    assert_eq!(identity.fingerprint(), "966dbdcbd0e0348faa1ccbce5a62b8e73b0d08955d666db82243b303d9bd9502");
}

#[test]
fn identity_validity_window_and_days_left() {
    let id = identity_between("hab", 1_000, 1_000 + 45 * 86_400_000);
    assert!(!id.is_valid_at(999));
    assert!(id.is_valid_at(1_000));
    assert!(id.is_valid_at(1_000 + 45 * 86_400_000));
    assert!(!id.is_valid_at(1_001 + 45 * 86_400_000));
    assert_eq!(id.days_until_expiry_at(1_000), 45);
    assert_eq!(id.days_until_expiry_at(1_000 + 86_400_000 / 2), 44);
    assert_eq!(id.days_until_expiry_at(1_000 + 46 * 86_400_000 - 1), 0);
    assert_eq!(id.days_until_expiry_at(1_000 + 47 * 86_400_000), -2);
    assert!(id.is_expired_at(1_001 + 45 * 86_400_000));
}

#[test]
fn registry_refuses_invalid_and_reports_each_error() {
    let mut registry = AuthRegistry::new();
    let r = registry.register_identity_at(identity_between("late", 5_000, 9_000), 4_000);
    assert_eq!(r, Err(MapError::AuthFailed("Certificat invalide pour late".to_string())));
    assert_eq!(
        registry.authenticate_at(&NodeId("late".into()), 6_000).err(),
        Some(AuthError::UnknownCertificate("late".to_string()))
    );
    registry.register_identity_at(identity_between("hab", 0, 10_000), 5_000).unwrap();
    assert!(registry.authenticate_at(&NodeId("hab".into()), 10_000).is_ok());
    assert_eq!(
        registry.authenticate_at(&NodeId("hab".into()), 10_001).err(),
        Some(AuthError::CertificateExpired(NodeId("hab".into())))
    );
    registry.revoke_identity(&NodeId("hab".into()));
    // Registering again does not lift a revocation.
    registry.register_identity_at(identity_between("hab", 0, 10_000), 5_000).unwrap();
    assert_eq!(
        registry.authenticate_at(&NodeId("hab".into()), 5_000).err(),
        Some(AuthError::CertificateRevoked(NodeId("hab".into())))
    );
}

#[test]
fn registry_node_scopes_need_a_shared_node() {
    let mut registry = AuthRegistry::new();
    let n = NodeId("drone".into());
    registry.grant_capabilities(
        &n,
        vec![
            Capability {
                name: "relay".into(),
                scope: CapabilityScope::Nodes(vec![NodeId("a".into()), NodeId("b".into())]),
                expires_at: None,
            },
            Capability { name: "drill".into(), scope: CapabilityScope::Resource("ice".into()), expires_at: None },
        ],
    );
    assert!(registry.check_capability(&n, "relay", &CapabilityScope::Nodes(vec![NodeId("c".into()), NodeId("b".into())])));
    assert!(!registry.check_capability(&n, "relay", &CapabilityScope::Nodes(vec![NodeId("c".into())])));
    assert!(!registry.check_capability(&n, "relay", &CapabilityScope::Global));
    assert!(registry.check_capability(&n, "drill", &CapabilityScope::Resource("ice".into())));
    assert!(!registry.check_capability(&n, "drill", &CapabilityScope::Resource("rock".into())));
    assert!(!registry.check_capability(&NodeId("other".into()), "drill", &CapabilityScope::Resource("ice".into())));
}

#[test]
fn registry_cleanup_and_audit() {
    let mut registry = AuthRegistry::new();
    registry.register_identity_at(identity_between("old", 0, 1_000), 500).unwrap();
    registry.register_identity_at(identity_between("soon", 0, 10 * 86_400_000), 500).unwrap();
    registry.register_identity_at(identity_between("far", 0, 90 * 86_400_000), 500).unwrap();
    let n = NodeId("soon".into());
    registry.grant_capabilities(
        &n,
        vec![
            Capability { name: "a".into(), scope: CapabilityScope::Global, expires_at: Some(1_500) },
            Capability { name: "b".into(), scope: CapabilityScope::Global, expires_at: None },
            Capability { name: "b".into(), scope: CapabilityScope::Global, expires_at: None },
        ],
    );
    registry.revoke_identity(&NodeId("ghost".into()));
    let rep = registry.audit_report_at(2_000);
    assert_eq!(rep.total_identities, 3);
    assert_eq!(rep.total_capabilities, 2);
    assert_eq!(rep.revoked_count, 1);
    assert_eq!(rep.expiring_soon, 2);
    assert_eq!(rep.expired, 1);

    assert_eq!(registry.cleanup_expired_at(2_000), 1);
    let rep = registry.audit_report_at(2_000);
    assert_eq!(rep.total_identities, 2);
    assert_eq!(rep.total_capabilities, 1);
    assert_eq!(rep.expired, 0);
    assert!(registry.check_capability(&n, "b", &CapabilityScope::Global));
    assert!(!registry.check_capability(&n, "a", &CapabilityScope::Global));
}
