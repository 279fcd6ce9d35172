use layer_manager::Layer;
use layer_manager::sandbox::{LayerSandbox, SandboxManager, SandboxPermissions};

fn create_test_layer() -> Layer {
    Layer {
        id: "test-layer".to_string(),
        name: "Test Layer".to_string(),
        description: "A test layer".to_string(),
        version: "1.0.0".to_string(),
        enabled: true,
        path: "/tmp/layer".to_string(),
    }
}

#[test]
fn test_sandbox_creation() {
    let layer = create_test_layer();
    let permissions = SandboxPermissions::default();
    let sandbox = LayerSandbox::new(layer, permissions).unwrap();

    assert_eq!(sandbox.layer().id, "test-layer");
    assert!(sandbox.working_dir().contains("zerometa/test-layer"));
}

#[test]
fn test_sandbox_manager() {
    let mut manager = SandboxManager::new();
    let layer = create_test_layer();
    let permissions = SandboxPermissions::default();

    manager.create_sandbox(layer, permissions).unwrap();
    assert!(manager.get_sandbox("test-layer").is_some());

    manager.remove_sandbox("test-layer").unwrap();
    assert!(manager.get_sandbox("test-layer").is_none());
}

#[test]
fn test_sandbox_manager_duplicate_and_missing() {
    let mut manager = SandboxManager::new();
    manager
        .create_sandbox(create_test_layer(), SandboxPermissions::default())
        .unwrap();

    match manager.create_sandbox(create_test_layer(), SandboxPermissions::default()) {
        Err(layer_manager::LayerError::AlreadyExists(id)) => assert_eq!(id, "test-layer"),
        other => panic!("expected already-exists, got {:?}", other),
    }
    match manager.remove_sandbox("absent") {
        Err(layer_manager::LayerError::NotFound(id)) => assert_eq!(id, "absent"),
        other => panic!("expected not-found, got {:?}", other),
    }
}

#[test]
fn test_sandbox_mut_access() {
    let mut manager = SandboxManager::new();
    manager
        .create_sandbox(create_test_layer(), SandboxPermissions::default())
        .unwrap();
    assert!(manager.get_sandbox_mut("test-layer").is_some());
    assert!(manager.get_sandbox_mut("absent").is_none());
}

#[test]
fn test_working_dir_derivation() {
    let sandbox =
        LayerSandbox::new(create_test_layer(), SandboxPermissions::default()).unwrap();
    assert_eq!(sandbox.working_dir(), "/tmp/zerometa/test-layer");
}

#[test]
fn test_default_permissions_fail_closed() {
    let p = SandboxPermissions::default();
    assert!(!p.network_access);
    assert!(p.allowed_paths.is_empty());
    assert_eq!(p.max_memory, Some(256 * 1024 * 1024));
    assert_eq!(p.max_cpu, Some(50));
}

#[test]
fn test_permission_check_allows_working_dir_and_prefixes() {
    let mut permissions = SandboxPermissions::default();
    permissions.allowed_paths.push("/usr/share/data".to_string());
    let sandbox = LayerSandbox::new(create_test_layer(), permissions).unwrap();

    // Relative command, no path-like arguments.
    assert!(sandbox.check_permissions("ls", &["-l", "name"]).is_ok());
    // The working directory is always allowed.
    assert!(sandbox
        .check_permissions("cat", &["/tmp/zerometa/test-layer/notes.txt"])
        .is_ok());
    // A path under an allowed prefix passes.
    assert!(sandbox
        .check_permissions("cat", &["/usr/share/data/words"])
        .is_ok());
    // The prefix itself passes.
    assert!(sandbox.check_permissions("cat", &["/usr/share/data"]).is_ok());
}

#[test]
fn test_permission_check_denies_outside_paths() {
    let mut permissions = SandboxPermissions::default();
    permissions.allowed_paths.push("/usr/share/data".to_string());
    let sandbox = LayerSandbox::new(create_test_layer(), permissions).unwrap();

    // One non-allowed absolute-looking path anywhere fails the whole call.
    match sandbox.check_permissions("cat", &["-n", "/etc/passwd"]) {
        Err(layer_manager::LayerError::PermissionDenied(_)) => {}
        other => panic!("expected permission-denied, got {:?}", other),
    }
    // Independent of argument order.
    match sandbox.check_permissions("cat", &["/etc/passwd", "-n"]) {
        Err(layer_manager::LayerError::PermissionDenied(_)) => {}
        other => panic!("expected permission-denied, got {:?}", other),
    }
    // A sibling whose name merely extends an allowed prefix is not under it.
    assert!(sandbox
        .check_permissions("cat", &["/usr/share/database"])
        .is_err());
    // An absolute command outside the allowed set is refused.
    assert!(sandbox.check_permissions("/bin/ls", &[]).is_err());
    // An absolute command under an allowed prefix passes.
    assert!(sandbox
        .check_permissions("/usr/share/data/tool", &[])
        .is_ok());
}

#[test]
fn test_extract_path_heuristic() {
    let sandbox =
        LayerSandbox::new(create_test_layer(), SandboxPermissions::default()).unwrap();
    assert_eq!(sandbox.extract_path("/etc/passwd").as_deref(), Some("/etc/passwd"));
    assert_eq!(sandbox.extract_path("./notes").as_deref(), Some("./notes"));
    assert_eq!(sandbox.extract_path("~/notes").as_deref(), Some("~/notes"));
    assert_eq!(sandbox.extract_path("-n"), None);
    assert_eq!(sandbox.extract_path("name"), None);
    assert_eq!(sandbox.extract_path(""), None);
}

#[test]
fn test_is_path_allowed() {
    let mut permissions = SandboxPermissions::default();
    permissions.allowed_paths.push("/var/cache/layers".to_string());
    let sandbox = LayerSandbox::new(create_test_layer(), permissions).unwrap();

    assert!(sandbox.is_path_allowed("/tmp/zerometa/test-layer"));
    assert!(sandbox.is_path_allowed("/tmp/zerometa/test-layer/sub/file"));
    assert!(sandbox.is_path_allowed("/var/cache/layers/a.bin"));
    assert!(!sandbox.is_path_allowed("/tmp/zerometa/test-layer2"));
    assert!(!sandbox.is_path_allowed("/var/cache/layersX"));
    assert!(!sandbox.is_path_allowed("/home/user"));
}
