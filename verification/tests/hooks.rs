use file_pipeline_core::hooks::{HookAction, HookDefinition, HookRegistry};

fn hook(event: &str, enabled: bool, url: Option<&str>, cmd: Option<&str>) -> HookDefinition {
    HookDefinition {
        event: event.to_string(),
        enabled,
        webhook_url: url.map(|u| u.to_string()),
        command: cmd.map(|c| c.to_string()),
    }
}

#[test]
fn only_enabled_hooks_of_the_event_answer() {
    let reg = HookRegistry::new(vec![
        hook("file_processed", true, Some("http://a"), None),
        hook("file_processed", false, Some("http://b"), None),
        hook("quarantine_added", true, None, Some("echo q")),
        hook("file_processed", true, Some("http://c"), Some("echo done")),
    ]);
    let hs = reg.get_hooks("file_processed");
    assert_eq!(hs.len(), 2);
    assert_eq!(hs[0].webhook_url.as_deref(), Some("http://a"));
    assert_eq!(hs[1].command.as_deref(), Some("echo done"));
    assert_eq!(
        reg.actions_for("file_processed"),
        vec![
            HookAction::Webhook("http://a".to_string()),
            HookAction::Webhook("http://c".to_string()),
            HookAction::Command("echo done".to_string()),
        ]
    );
    assert_eq!(reg.actions_for("quarantine_added"), vec![HookAction::Command("echo q".to_string())]);
    assert!(reg.get_hooks("other").is_empty());
    assert!(HookRegistry::empty().actions_for("file_processed").is_empty());
}
