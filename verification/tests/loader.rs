use layer_manager::Layer;
use layer_manager::loader::{
    LayerLoader, LoadPlan, LoadedLayer, MapOutcome, Platform, native_lib_file_name,
};

fn layer(id: &str) -> Layer {
    Layer {
        id: id.to_string(),
        name: format!("Layer {}", id),
        description: "d".to_string(),
        version: "1.0.0".to_string(),
        enabled: true,
        path: format!("/tmp/layers/{}", id),
    }
}

#[test]
fn test_loaded_layer() {
    let loaded = LoadedLayer::new(layer("test")).unwrap();
    assert_eq!(loaded.layer.id, "test");
    assert!(!loaded.has_native_mapping());
}

#[test]
fn test_native_lib_file_name() {
    assert_eq!(native_lib_file_name(Platform::Linux, "echo"), "libecho.so");
    assert_eq!(native_lib_file_name(Platform::MacOs, "echo"), "libecho.dylib");
    assert_eq!(native_lib_file_name(Platform::Windows, "echo"), "echo.dll");
}

#[test]
fn test_plan_load_paths() {
    let ll = LoadedLayer::new(layer("echo")).unwrap();
    match ll.plan_load(true, Platform::Linux) {
        LoadPlan::MapModule(p) => assert_eq!(p, "/tmp/layers/echo/lib/libecho.so"),
        other => panic!("expected a module to map, got {:?}", other),
    }
    match ll.plan_load(false, Platform::Linux) {
        LoadPlan::NothingToMap => {}
        other => panic!("expected nothing to map, got {:?}", other),
    }
}

#[test]
fn test_load_is_idempotent() {
    let mut ll = LoadedLayer::new(layer("echo")).unwrap();
    ll.load(&MapOutcome::Mapped).unwrap();
    assert!(ll.has_native_mapping());

    // Loading an already-loaded instance is a no-op success.
    match ll.plan_load(true, Platform::Linux) {
        LoadPlan::AlreadyLoaded => {}
        other => panic!("expected already-loaded, got {:?}", other),
    }
    ll.load(&MapOutcome::FileMissing).unwrap();
    assert!(ll.has_native_mapping());
}

#[test]
fn test_load_failures_are_invalid_layer() {
    for outcome in [
        MapOutcome::FileMissing,
        MapOutcome::MapFailed("bad module".to_string()),
        MapOutcome::SymbolMissing,
    ] {
        let mut ll = LoadedLayer::new(layer("echo")).unwrap();
        match ll.load(&outcome) {
            Err(layer_manager::LayerError::InvalidLayer(_)) => {}
            other => panic!("expected invalid-layer, got {:?}", other),
        }
        // The failed load attributed no mapping.
        assert!(!ll.has_native_mapping());
    }
}

#[test]
fn test_initialize_invokes_exactly_once() {
    let mut ll = LoadedLayer::new(layer("echo")).unwrap();
    ll.load(&MapOutcome::Mapped).unwrap();
    assert!(ll.initialize());
    // A second initialization asks for no second call of the entry point.
    assert!(!ll.initialize());

    // A layer without native code initializes trivially.
    let mut trivial = LoadedLayer::new(layer("plain")).unwrap();
    trivial.load(&MapOutcome::NoNativeCode).unwrap();
    assert!(!trivial.initialize());
}

#[test]
fn test_unload_releases_and_is_idempotent() {
    let mut ll = LoadedLayer::new(layer("echo")).unwrap();
    ll.load(&MapOutcome::Mapped).unwrap();
    ll.unload().unwrap();
    assert!(!ll.has_native_mapping());
    // Unloading an unloaded instance is a no-op success.
    ll.unload().unwrap();
    assert!(!ll.has_native_mapping());
}

#[test]
fn test_loader_collection() {
    let mut loader = LayerLoader::new();
    let mut a = LoadedLayer::new(layer("a")).unwrap();
    a.load(&MapOutcome::Mapped).unwrap();
    a.initialize();
    loader.load_layer(a).unwrap();

    assert!(loader.get_layer("a").is_some());
    assert!(loader.get_layer("b").is_none());
    assert!(loader.get_layer_mut("a").is_some());
    assert_eq!(loader.layers().len(), 1);

    // Loading the same identifier again is a no-op success.
    let second = LoadedLayer::new(layer("a")).unwrap();
    loader.load_layer(second).unwrap();
    assert_eq!(loader.layers().len(), 1);

    // Unload removes the entry; no mapping stays attributable to the id.
    loader.unload_layer("a").unwrap();
    assert!(loader.get_layer("a").is_none());
    // Unloading a never-loaded identifier is a no-op success.
    loader.unload_layer("never").unwrap();
    assert_eq!(loader.layers().len(), 0);
}
