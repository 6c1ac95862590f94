use itools_plugin::audit::{record, AuditLog, CAPACITY, MERGE_WINDOW_SECS};
use itools_plugin::commands::{plugin_granted, Declared, PluginSettings};
use itools_plugin::session::ActiveSession;
use itools_plugin::table::Table;

fn session(id: &str) -> ActiveSession {
    ActiveSession { id: id.to_string(), dev: false }
}

#[test]
fn like_calls_in_a_row_are_merged_not_flooded() {
    let mut buf = AuditLog::new();
    for _ in 0..10 {
        record(&mut buf, &session("demo-merge"), "screen-capture", true, 100);
    }
    let log = buf.plugin_audit_log(Some("demo-merge"), None);
    assert_eq!(log.len(), 1, "同插件同能力的连续调用应合并成一条");
    assert_eq!(log[0].count, 10);
}

#[test]
fn granted_and_denied_are_recorded_apart() {
    let mut buf = AuditLog::new();
    record(&mut buf, &session("demo-deny"), "runCommand", true, 100);
    record(&mut buf, &session("demo-deny"), "runCommand", false, 100);
    let log = buf.plugin_audit_log(Some("demo-deny"), None);
    assert_eq!(log.len(), 2, "被拒的调用必须单独成条，那正是要给用户看的信号");
    assert!(!log[0].granted, "最近的一条是被拒那次");
}

#[test]
fn dev_and_installed_sessions_are_recorded_apart() {
    let mut buf = AuditLog::new();
    record(&mut buf, &session("demo-dev"), "camera", true, 100);
    record(&mut buf, &ActiveSession { id: "demo-dev".into(), dev: true }, "camera", true, 100);
    let log = buf.plugin_audit_log(Some("demo-dev"), None);
    assert_eq!(log.len(), 2, "同名的调试插件与正式插件必须分开记");
}

#[test]
fn calls_far_apart_are_two_records() {
    let mut buf = AuditLog::new();
    record(&mut buf, &session("d"), "camera", true, 100);
    record(&mut buf, &session("d"), "camera", true, 100 + MERGE_WINDOW_SECS + 1);
    assert_eq!(buf.plugin_audit_log(None, None).len(), 2);
}

#[test]
fn the_log_is_bounded_and_can_be_cleared() {
    let mut buf = AuditLog::new();
    for i in 0..CAPACITY + 10 {
        record(&mut buf, &session(&format!("p{i}")), "camera", true, 100);
    }
    assert_eq!(buf.plugin_audit_log(None, Some(usize::MAX)).len(), CAPACITY);
    assert_eq!(buf.plugin_audit_log(None, Some(3)).len(), 3);
    assert_eq!(buf.plugin_audit_log(None, Some(1))[0].plugin_id, format!("p{}", CAPACITY + 9));
    buf.plugin_audit_clear();
    assert!(buf.plugin_audit_log(None, None).is_empty());
}

#[test]
fn every_judgement_is_recorded() {
    let mut buf = AuditLog::new();
    let mut settings = PluginSettings::new();
    let mut declared = Declared { installed: Table::new(), dev: Table::new() };
    declared.installed.insert("demo".to_string(), vec!["network".to_string()]);
    assert!(!plugin_granted(&mut buf, &settings, &declared, &session("demo"), "network", 1));
    settings.set_plugin_permission("demo", "network", true);
    assert!(plugin_granted(&mut buf, &settings, &declared, &session("demo"), "network", 2));
    let log = buf.plugin_audit_log(None, None);
    assert_eq!(log.len(), 2);
    assert!(log[0].granted && !log[1].granted);
}
