use file_pipeline_core::plugin_registry::{TransportReply, call_outcome, call_plan};
use file_pipeline_core::plugin::{PluginError, PluginState};
use file_pipeline_core::plugin_registry::{PluginManifestInfo, PluginRegistry};

const HOST_API: u32 = 1;

fn manifest(id: &str, name: &str, api_version: u32, permissions: &[&str], subscribe: &[&str]) -> PluginManifestInfo {
    PluginManifestInfo {
        id: id.to_string(),
        name: name.to_string(),
        api_version,
        permissions: permissions.iter().map(|s| s.to_string()).collect(),
        event_subscribe: subscribe.iter().map(|s| s.to_string()).collect(),
    }
}

fn path(id: &str) -> String {
    format!("plugins/{}/fp-plugin.toml", id)
}

#[test]
fn discover_single_plugin_registers() {
    let mut registry = PluginRegistry::new();
    let m = manifest("io.file-pipeline.search", "Search", 1, &["vector_db.read", "audit.write"], &[]);
    registry.register(m, path("io.file-pipeline.search"), HOST_API).unwrap();
    assert_eq!(registry.count(), 1);
    let handle = registry.get("io.file-pipeline.search").unwrap();
    assert_eq!(handle.name(), "Search");
    assert_eq!(handle.state, PluginState::Discovered);
    assert_eq!(handle.permission.count(), 2);
}

#[test]
fn discover_rejects_api_version_mismatch() {
    let mut registry = PluginRegistry::new();
    let m = manifest("io.file-pipeline.future", "Future", 99, &[], &[]);
    let err = registry.register(m, path("io.file-pipeline.future"), HOST_API).unwrap_err();
    match err {
        PluginError::ApiVersionMismatch { plugin, host, .. } => {
            assert_eq!(plugin, 99);
            assert_eq!(host, HOST_API);
        }
        other => panic!("기대: ApiVersionMismatch, 실제: {:?}", other),
    }
    assert_eq!(registry.count(), 0);
}

#[test]
fn discover_rejects_unknown_permission() {
    let mut registry = PluginRegistry::new();
    let m = manifest("io.file-pipeline.bad", "Bad", 1, &["totally.unknown"], &[]);
    let err = registry.register(m, path("io.file-pipeline.bad"), HOST_API).unwrap_err();
    assert!(matches!(err, PluginError::UnknownPermission { .. }));
}

#[test]
fn discover_rejects_duplicate_id() {
    let mut registry = PluginRegistry::new();
    registry.register(manifest("io.file-pipeline.dup", "A", 1, &[], &[]), path("dir-a"), HOST_API).unwrap();
    let err = registry.register(manifest("io.file-pipeline.dup", "B", 1, &[], &[]), path("dir-b"), HOST_API).unwrap_err();
    assert!(matches!(err, PluginError::DuplicatePluginId(_)));
    assert_eq!(registry.get("io.file-pipeline.dup").unwrap().name(), "A");
}

#[test]
fn enable_disable_transitions() {
    let mut registry = PluginRegistry::new();
    registry.register(manifest("io.file-pipeline.toggle", "Toggle", 1, &[], &[]), path("toggle"), HOST_API).unwrap();
    assert_eq!(registry.get("io.file-pipeline.toggle").unwrap().state, PluginState::Discovered);
    registry.enable("io.file-pipeline.toggle").unwrap();
    assert!(registry.get("io.file-pipeline.toggle").unwrap().is_enabled());
    registry.disable("io.file-pipeline.toggle").unwrap();
    assert_eq!(registry.get("io.file-pipeline.toggle").unwrap().state, PluginState::Disabled);
}

#[test]
fn enable_missing_plugin_errors() {
    let mut registry = PluginRegistry::new();
    let err = registry.enable("io.file-pipeline.ghost").unwrap_err();
    assert!(matches!(err, PluginError::PluginNotFound(_)));
}

#[test]
fn list_is_in_id_order_and_events_reach_enabled_subscribers() {
    let mut registry = PluginRegistry::new();
    registry.register(manifest("c.plugin", "C", 1, &[], &["verify_failed"]), path("c"), HOST_API).unwrap();
    registry.register(manifest("a.plugin", "A", 1, &[], &["processing_started", "verify_failed"]), path("a"), HOST_API).unwrap();
    registry.register(manifest("b.plugin", "B", 1, &[], &["verify_failed"]), path("b"), HOST_API).unwrap();
    let ids: Vec<&str> = registry.list().iter().map(|h| h.id()).collect();
    assert_eq!(ids, vec!["a.plugin", "b.plugin", "c.plugin"]);
    assert!(registry.subscribers("verify_failed").is_empty());
    registry.enable("c.plugin").unwrap();
    registry.enable("a.plugin").unwrap();
    assert_eq!(registry.subscribers("verify_failed"), vec!["a.plugin", "c.plugin"]);
    assert_eq!(registry.subscribers("processing_started"), vec!["a.plugin"]);
    registry.disable("a.plugin").unwrap();
    assert_eq!(registry.subscribers("verify_failed"), vec!["c.plugin"]);
}

#[test]
fn call_plan_refuses_missing_plugin_first() {
    let registry = PluginRegistry::new();
    let err = call_plan(&registry, "io.x", "search", b"{}", "t1").unwrap_err();
    assert!(matches!(err, PluginError::PluginNotFound(id) if id == "io.x"));
}

#[test]
fn call_plan_and_outcomes_map_replies_and_audit() {
    let mut registry = PluginRegistry::new();
    registry.register(manifest("io.s", "S", 1, &[], &[]), path("s"), HOST_API).unwrap();
    let plan = call_plan(&registry, "io.s", "search", b"{\"q\":1}", "t1").unwrap();
    assert_eq!(plan.stage, "plugin.io.s.search");
    assert_eq!(plan.inputs_hash.len(), 16);
    assert_eq!(plan.begin.applied_rule, None);
    assert_eq!(plan.begin.inputs_hash.as_deref(), Some(plan.inputs_hash.as_str()));

    let (r, recs, drop) = call_outcome(&plan, TransportReply::Answer("[1]".to_string()));
    assert_eq!(r.unwrap(), "[1]");
    assert_eq!(recs.len(), 2);
    assert_eq!(recs[1].applied_rule.as_deref(), Some("success"));
    assert_eq!(recs[1].output_summary.as_deref(), Some("[1]"));
    assert!(!drop);

    let (r, recs, drop) = call_outcome(&plan, TransportReply::Refused("bad".to_string()));
    assert!(matches!(r, Err(PluginError::IpcProtocol(m)) if m == "bad"));
    assert_eq!(recs[1].applied_rule.as_deref(), Some("error"));
    assert!(!drop);

    let (r, _, drop) = call_outcome(&plan, TransportReply::Failed("pipe".to_string()));
    assert!(matches!(r, Err(PluginError::IpcTransport(m)) if m == "pipe"));
    assert!(drop);

    let (r, recs, drop) = call_outcome(&plan, TransportReply::NotRunning("refused".to_string()));
    assert!(matches!(r, Err(PluginError::NotRunning { plugin_id, .. }) if plugin_id == "io.s"));
    assert_eq!(
        recs[1].output_summary.as_deref(),
        Some("not_running: plugin 프로세스 미실행 (plugin_id=io.s): refused")
    );
    assert!(!drop);
}

#[test]
fn grant_count_is_number_of_distinct_names() {
    let mut registry = PluginRegistry::new();
    let m = manifest("io.p", "P", 1, &["audit.write", "config.read", "audit.write"], &[]);
    registry.register(m, path("p"), HOST_API).unwrap();
    assert_eq!(registry.get("io.p").unwrap().permission.count(), 2);
}

#[test]
fn discovery_registers_all_or_none() {
    let mut registry = PluginRegistry::new();
    let found = vec![
        (manifest("b", "B", 1, &["vector_db.read"], &[]), path("b")),
        (manifest("a", "A", 1, &[], &[]), path("a")),
    ];
    assert_eq!(registry.discover_all(found, HOST_API).unwrap(), 2);
    assert_eq!(registry.count(), 2);
    assert!(registry.get("a").is_some() && registry.get("b").is_some());

    let bad = vec![
        (manifest("c", "C", 1, &[], &[]), path("c")),
        (manifest("d", "D", 1, &["nope.x", "also.bad"], &[]), path("d")),
        (manifest("e", "E", 2, &[], &[]), path("e")),
    ];
    match registry.discover_all(bad, HOST_API) {
        Err(PluginError::UnknownPermission { plugin_id, permission }) => {
            assert_eq!(plugin_id, "d");
            assert_eq!(permission, "nope.x");
        }
        other => panic!("unexpected: {:?}", other),
    }
    assert_eq!(registry.count(), 2);
    assert!(registry.get("c").is_none());

    let dup = vec![
        (manifest("x", "X", 1, &[], &[]), path("x")),
        (manifest("x", "X2", 1, &[], &[]), path("x2")),
    ];
    assert!(matches!(registry.discover_all(dup, HOST_API), Err(PluginError::DuplicatePluginId(id)) if id == "x"));
    let again = vec![(manifest("a", "A", 1, &[], &[]), path("a"))];
    assert!(matches!(registry.discover_all(again, HOST_API), Err(PluginError::DuplicatePluginId(id)) if id == "a"));
    let version = vec![(manifest("y", "Y", 3, &["nope"], &[]), path("y"))];
    assert!(matches!(
        registry.discover_all(version, HOST_API),
        Err(PluginError::ApiVersionMismatch { host: 1, plugin: 3, .. })
    ));
    assert_eq!(registry.count(), 2);
}

#[test]
fn checking_manifests_registers_nothing() {
    let registry = PluginRegistry::new();
    let ok = vec![(manifest("p", "P", 1, &["audit.write"], &[]), path("p"))];
    assert!(registry.check_manifests(&ok, HOST_API).is_ok());
    assert_eq!(registry.count(), 0);
    let bad = vec![
        (manifest("p", "P", 1, &[], &[]), path("p")),
        (manifest("q", "Q", 0, &[], &[]), path("q")),
    ];
    assert!(matches!(
        registry.check_manifests(&bad, HOST_API),
        Err(PluginError::ApiVersionMismatch { host: 1, plugin: 0, .. })
    ));
}
