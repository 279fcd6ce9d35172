use layer_manager::{Layer, LayerError};
use layer_manager::registry::LayerRegistry;

fn layer(id: &str) -> Layer {
    Layer {
        id: id.to_string(),
        name: format!("Layer {}", id),
        description: "d".to_string(),
        version: "1.0.0".to_string(),
        enabled: false,
        path: format!("/tmp/layers/{}", id),
    }
}

#[test]
fn test_register_and_get() {
    let registry = LayerRegistry::new("/tmp/layers");
    registry.register_layer(layer("a")).unwrap();
    let got = registry.get_layer("a").unwrap().unwrap();
    assert_eq!(got.id, "a");
    assert_eq!(got.name, "Layer a");
    assert!(registry.get_layer("b").unwrap().is_none());
}

#[test]
fn test_register_duplicate_fails() {
    let registry = LayerRegistry::new("/tmp/layers");
    registry.register_layer(layer("a")).unwrap();
    match registry.register_layer(layer("a")) {
        Err(LayerError::AlreadyExists(id)) => assert_eq!(id, "a"),
        other => panic!("expected already-exists, got {:?}", other),
    }
    // The failed registration left the entry alone.
    assert_eq!(registry.list_layers().unwrap().len(), 1);
}

#[test]
fn test_unregister() {
    let registry = LayerRegistry::new("/tmp/layers");
    registry.register_layer(layer("a")).unwrap();
    registry.unregister_layer("a").unwrap();
    assert!(registry.get_layer("a").unwrap().is_none());
    match registry.unregister_layer("a") {
        Err(LayerError::NotFound(id)) => assert_eq!(id, "a"),
        other => panic!("expected not-found, got {:?}", other),
    }
}

#[test]
fn test_distinct_registrations_all_succeed() {
    let registry = LayerRegistry::new("/tmp/layers");
    let ids = ["e", "b", "a", "d", "c"];
    for id in ids {
        registry.register_layer(layer(id)).unwrap();
    }
    let mut listed: Vec<String> = registry
        .list_layers()
        .unwrap()
        .into_iter()
        .map(|l| l.id)
        .collect();
    assert_eq!(listed.len(), 5);
    listed.sort();
    assert_eq!(listed, vec!["a", "b", "c", "d", "e"]);
}

#[test]
fn test_enable_disable() {
    let registry = LayerRegistry::new("/tmp/layers");
    registry.register_layer(layer("a")).unwrap();
    assert!(!registry.get_layer("a").unwrap().unwrap().enabled);

    registry.enable_layer("a").unwrap();
    assert!(registry.get_layer("a").unwrap().unwrap().enabled);

    registry.disable_layer("a").unwrap();
    assert!(!registry.get_layer("a").unwrap().unwrap().enabled);

    match registry.enable_layer("missing") {
        Err(LayerError::NotFound(id)) => assert_eq!(id, "missing"),
        other => panic!("expected not-found, got {:?}", other),
    }
    match registry.disable_layer("missing") {
        Err(LayerError::NotFound(id)) => assert_eq!(id, "missing"),
        other => panic!("expected not-found, got {:?}", other),
    }
}

#[test]
fn test_load_layer_reads_manifest() {
    let registry = LayerRegistry::new("/tmp/layers");
    let manifest = r#"{
        "id": "echo",
        "name": "Echo",
        "description": "d",
        "version": "1.0.0",
        "enabled": false
    }"#;
    let l = registry
        .load_layer(Some(manifest), "/tmp/layers/echo")
        .unwrap();
    assert_eq!(l.id, "echo");
    assert_eq!(l.path, "/tmp/layers/echo");

    match registry.load_layer(Some("{ broken"), "/tmp/layers/echo") {
        Err(LayerError::Json(_)) => {}
        other => panic!("expected structured-data error, got {:?}", other),
    }
    match registry.load_layer(None, "/tmp/layers/echo") {
        Err(LayerError::InvalidLayer(_)) => {}
        other => panic!("expected invalid-layer, got {:?}", other),
    }
}

#[test]
fn test_discovery_rebuilds_index() {
    let registry = LayerRegistry::new("/tmp/layers");
    registry.register_layer(layer("stale")).unwrap();

    registry
        .discover_layers(vec![layer("a"), layer("b")])
        .unwrap();
    assert_eq!(registry.list_layers().unwrap().len(), 2);
    assert!(registry.get_layer("stale").unwrap().is_none());
    assert!(registry.get_layer("a").unwrap().is_some());

    // A later record with the same identifier replaces an earlier one.
    let mut renamed = layer("a");
    renamed.name = "Layer a, renamed".to_string();
    registry
        .discover_layers(vec![layer("a"), renamed, layer("b")])
        .unwrap();
    assert_eq!(registry.list_layers().unwrap().len(), 2);
    assert_eq!(
        registry.get_layer("a").unwrap().unwrap().name,
        "Layer a, renamed"
    );
}

#[test]
fn test_install_enable_get_round_trip() {
    // A manifest installed from a directory, enabled, and fetched back:
    // the enabled flag flips and every other field survives unchanged.
    let manifest = r#"{
        "id": "echo",
        "name": "Echo",
        "description": "d",
        "version": "1.0.0",
        "enabled": false
    }"#;
    let installer = layer_manager::installer::LayerInstaller::new("/tmp/layers");
    let plan = installer
        .plan_install(Some(manifest), "/tmp/source/echo", false, false)
        .unwrap();

    let registry = LayerRegistry::new("/tmp/layers");
    registry.register_layer(plan.layer).unwrap();
    registry.enable_layer("echo").unwrap();

    let got = registry.get_layer("echo").unwrap().unwrap();
    assert_eq!(got.id, "echo");
    assert_eq!(got.name, "Echo");
    assert_eq!(got.description, "d");
    assert_eq!(got.version, "1.0.0");
    assert!(got.enabled);
}
