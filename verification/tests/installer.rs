use layer_manager::LayerError;
use layer_manager::installer::LayerInstaller;

const MANIFEST: &str = r#"{
    "id": "test-layer",
    "name": "Test Layer",
    "description": "A test layer",
    "version": "1.0.0",
    "enabled": false
}"#;

#[test]
fn test_validate_layer_dir() {
    let installer = LayerInstaller::new("/tmp/layers");
    let layer = installer
        .validate_layer_dir(Some(MANIFEST), "/tmp/source/test-layer")
        .unwrap();

    assert_eq!(layer.id, "test-layer");
    assert_eq!(layer.name, "Test Layer");
    assert_eq!(layer.version, "1.0.0");
}

#[test]
fn test_validate_injects_path() {
    let installer = LayerInstaller::new("/tmp/layers");
    let layer = installer
        .validate_layer_dir(Some(MANIFEST), "/tmp/source/test-layer")
        .unwrap();
    assert_eq!(layer.path, "/tmp/source/test-layer");
    assert_eq!(layer.description, "A test layer");
    assert!(!layer.enabled);
}

#[test]
fn test_validate_missing_manifest() {
    let installer = LayerInstaller::new("/tmp/layers");
    match installer.validate_layer_dir(None, "/tmp/source") {
        Err(LayerError::InvalidLayer(_)) => {}
        other => panic!("expected invalid-layer, got {:?}", other),
    }
}

#[test]
fn test_validate_undecodable_manifest() {
    let installer = LayerInstaller::new("/tmp/layers");
    match installer.validate_layer_dir(Some("not json at all"), "/tmp/source") {
        Err(LayerError::InvalidLayer(_)) => {}
        other => panic!("expected invalid-layer, got {:?}", other),
    }
    // A JSON object missing a required member is refused the same way.
    match installer.validate_layer_dir(Some(r#"{"id": "x"}"#), "/tmp/source") {
        Err(LayerError::InvalidLayer(_)) => {}
        other => panic!("expected invalid-layer, got {:?}", other),
    }
}

#[test]
fn test_validate_bad_version() {
    let manifest = r#"{
        "id": "test-layer",
        "name": "Test Layer",
        "description": "A test layer",
        "version": "not-a-version",
        "enabled": false
    }"#;
    let installer = LayerInstaller::new("/tmp/layers");
    match installer.validate_layer_dir(Some(manifest), "/tmp/source") {
        Err(LayerError::InvalidLayer(_)) => {}
        other => panic!("expected invalid-layer, got {:?}", other),
    }
}

#[test]
fn test_plan_install_fresh_target() {
    let installer = LayerInstaller::new("/tmp/layers");
    let plan = installer
        .plan_install(Some(MANIFEST), "/tmp/source/test-layer", false, false)
        .unwrap();
    assert_eq!(plan.layer.id, "test-layer");
    assert_eq!(plan.target_dir, "/tmp/layers/test-layer");
    assert!(!plan.replace_existing);
}

#[test]
fn test_plan_install_existing_without_overwrite() {
    let installer = LayerInstaller::new("/tmp/layers");
    match installer.plan_install(Some(MANIFEST), "/tmp/source/test-layer", true, false) {
        Err(LayerError::AlreadyExists(id)) => assert_eq!(id, "test-layer"),
        other => panic!("expected already-exists, got {:?}", other),
    }
}

#[test]
fn test_plan_install_existing_with_overwrite() {
    let installer = LayerInstaller::new("/tmp/layers");
    let plan = installer
        .plan_install(Some(MANIFEST), "/tmp/source/test-layer", true, true)
        .unwrap();
    assert!(plan.replace_existing);
    assert_eq!(plan.target_dir, "/tmp/layers/test-layer");
}

#[test]
fn test_find_layer_dir_at_root() {
    let installer = LayerInstaller::new("/tmp/layers");
    let dir = installer
        .find_layer_dir("/tmp/extracted", true, None, false)
        .unwrap();
    assert_eq!(dir, "/tmp/extracted");
}

#[test]
fn test_find_layer_dir_in_sole_subdirectory() {
    // The root has no manifest but exactly one immediate subdirectory,
    // which holds one: that subdirectory is the layer directory.
    let installer = LayerInstaller::new("/tmp/layers");
    let sub = "/tmp/extracted/test-layer".to_string();
    let dir = installer
        .find_layer_dir("/tmp/extracted", false, Some(&sub), true)
        .unwrap();
    assert_eq!(dir, "/tmp/extracted/test-layer");
}

#[test]
fn test_find_layer_dir_nowhere() {
    let installer = LayerInstaller::new("/tmp/layers");
    // A sole subdirectory without a manifest fails.
    let sub = "/tmp/extracted/other".to_string();
    match installer.find_layer_dir("/tmp/extracted", false, Some(&sub), false) {
        Err(LayerError::InvalidLayer(_)) => {}
        other => panic!("expected invalid-layer, got {:?}", other),
    }
    // A root with no immediate subdirectory, or with several (the host
    // then hands over no sole subdirectory), fails.
    match installer.find_layer_dir("/tmp/extracted", false, None, false) {
        Err(LayerError::InvalidLayer(_)) => {}
        other => panic!("expected invalid-layer, got {:?}", other),
    }
}

#[test]
fn test_uninstall_missing_fails_not_found_twice() {
    let installer = LayerInstaller::new("/tmp/layers");
    match installer.plan_uninstall("test-layer", false, None) {
        Err(LayerError::NotFound(id)) => assert_eq!(id, "test-layer"),
        other => panic!("expected not-found, got {:?}", other),
    }
    // The failure is idempotent: asking again fails the same way.
    match installer.plan_uninstall("test-layer", false, None) {
        Err(LayerError::NotFound(id)) => assert_eq!(id, "test-layer"),
        other => panic!("expected not-found, got {:?}", other),
    }
}

#[test]
fn test_uninstall_reads_manifest() {
    let installer = LayerInstaller::new("/tmp/layers");
    let record = installer
        .plan_uninstall("test-layer", true, Some(MANIFEST))
        .unwrap();
    assert_eq!(record.name, "Test Layer");
    assert_eq!(record.version, "1.0.0");
    assert_eq!(record.path, "/tmp/layers/test-layer");
}

#[test]
fn test_uninstall_falls_back_to_placeholder() {
    let installer = LayerInstaller::new("/tmp/layers");
    let record = installer
        .plan_uninstall("test-layer", true, Some("broken { manifest"))
        .unwrap();
    assert_eq!(record.id, "test-layer");
    assert_eq!(record.name, "test-layer");
    assert_eq!(record.description, "Unknown");
    assert_eq!(record.version, "0.0.0");
    assert!(!record.enabled);

    let record = installer.plan_uninstall("test-layer", true, None).unwrap();
    assert_eq!(record.version, "0.0.0");
}
