use file_pipeline_core::plugin::{KnownPermission, PermissionGate, PluginError};

#[test]
fn known_permission_round_trip() {
    for (s, p) in KnownPermission::all() {
        assert_eq!(KnownPermission::parse(s), Some(p));
        assert_eq!(p.as_str(), s);
    }
}

#[test]
fn gate_grants_known_permissions() {
    let perms = vec!["vector_db.read".to_string(), "audit.write".to_string()];
    let gate = PermissionGate::from_manifest_permissions(&perms, "io.test").unwrap();
    assert!(gate.has(KnownPermission::VectorDbRead));
    assert!(gate.has(KnownPermission::AuditWrite));
    assert!(!gate.has(KnownPermission::FsWrite));
    assert_eq!(gate.count(), 2);
}

#[test]
fn gate_rejects_unknown_permission() {
    let perms = vec!["vector_db.read".to_string(), "nonsense.thing".to_string()];
    let err = PermissionGate::from_manifest_permissions(&perms, "io.test").unwrap_err();
    match err {
        PluginError::UnknownPermission { permission, .. } => {
            assert_eq!(permission, "nonsense.thing");
        }
        other => panic!("기대: UnknownPermission, 실제: {:?}", other),
    }
}

#[test]
fn gate_list_is_sorted() {
    let perms = vec![
        "vector_db.read".to_string(),
        "audit.write".to_string(),
        "config.read".to_string(),
    ];
    let gate = PermissionGate::from_manifest_permissions(&perms, "io.test").unwrap();
    let listed = gate.list();
    assert_eq!(listed, vec!["audit.write", "config.read", "vector_db.read"]);
}

#[test]
fn repeated_permissions_count_once() {
    let perms = vec!["fs.write".to_string(), "fs.write".to_string(), "llm.call".to_string()];
    let gate = PermissionGate::from_manifest_permissions(&perms, "p").unwrap();
    assert_eq!(gate.count(), 2);
    assert_eq!(gate.list(), vec!["fs.write", "llm.call"]);
}

#[test]
fn unknown_error_names_plugin_and_first_unknown() {
    let perms = vec!["x".to_string(), "y".to_string()];
    let err = PermissionGate::from_manifest_permissions(&perms, "io.p").unwrap_err();
    assert_eq!(
        err,
        PluginError::UnknownPermission { plugin_id: "io.p".to_string(), permission: "x".to_string() }
    );
}

#[test]
fn parse_unknown_is_none() {
    assert_eq!(KnownPermission::parse("Vector_db.read"), None);
    assert_eq!(KnownPermission::parse(""), None);
}

#[test]
fn default_gate_is_empty() {
    let g = PermissionGate::default();
    assert_eq!(g.count(), 0);
    assert!(g.list().is_empty());
}

#[test]
fn full_list_is_sorted() {
    let names: Vec<String> = KnownPermission::all().iter().map(|(s, _)| s.to_string()).collect();
    let gate = PermissionGate::from_manifest_permissions(&names, "all").unwrap();
    let listed = gate.list();
    let mut sorted = listed.clone();
    sorted.sort();
    assert_eq!(listed, sorted);
    assert_eq!(gate.count(), 12);
}
