use millions_server::build_info::{BuildEvidence};

#[test]
fn build_evidence_is_stable_and_path_free() {
    let evidence = BuildEvidence::foundation();

    assert_eq!(evidence.package_name, "millions-server");
    assert_eq!(evidence.package_version, "0.1.0");
    assert_eq!(evidence.protocol_version, 0);
    assert_eq!(evidence.fixture_descriptor_count, 3);
    assert_eq!(evidence.replay_format_version, 1);
    assert_eq!(
        evidence.build_id,
        "millions-server-0.1.0-protocol_v0-fixtures_3-replay_v1"
    );
    assert!(!evidence.build_id.contains('\\'));
    assert!(!evidence.build_id.contains('/'));
    assert!(!evidence.build_id.contains(':'));
}
