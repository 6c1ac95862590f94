use itools_plugin::audit::AuditLog;
use itools_plugin::commands::{
    account_state, check_delete, check_external, check_fetch, check_image_path, check_open_path, check_openable,
    check_write_parent, fetch_result, may_navigate, notice_source, open_plan, plan_data_set, plugin_granted, plugin_ns,
    read_base64, read_local_image, remove_result, route, sandbox_relative, save_name, session_db, session_files_dir,
    Declared, EnterInfo, PluginAccountState, PluginSettings, PluginWindows, Reply, Route, DEV_WINDOW_LABEL,
    PLUGIN_WINDOW_LABEL,
};
use itools_plugin::json::{store_as, to_stored};
use itools_plugin::page::emit_script;
use itools_plugin::session::{who, ActiveSession};
use itools_plugin::table::Table;

fn allowed(s: &PluginSettings, d: &Declared, who: &ActiveSession, perm: &str) -> bool {
    let mut log = AuditLog::new();
    let granted = plugin_granted(&mut log, s, d, who, perm, 7);
    let shown = log.plugin_audit_log(Some(&who.id), None);
    assert_eq!(shown.len(), 1, "每次判定都要留痕");
    assert_eq!((shown[0].dev, shown[0].permission.as_str(), shown[0].granted), (who.dev, perm, granted));
    granted
}

fn dev_session() -> ActiveSession {
    ActiveSession { id: "demo".to_string(), dev: true }
}

fn prod_session() -> ActiveSession {
    ActiveSession { id: "demo".to_string(), dev: false }
}

fn strings(v: &[&str]) -> Vec<String> {
    v.iter().map(|s| s.to_string()).collect()
}

fn declared() -> Declared {
    let mut d = Declared { installed: Table::new(), dev: Table::new() };
    d.installed.insert("demo".to_string(), strings(&["network"]));
    d.dev.insert("demo".to_string(), strings(&["network"]));
    d
}

#[test]
fn dev_session_writes_only_to_the_test_db() {
    let dev = "test db";
    let prod = "real db";
    assert_eq!(*session_db(&dev_session(), &dev, &prod), "test db", "调试写入必须落测试库");
    assert_eq!(*session_db(&prod_session(), &dev, &prod), "real db");
    let w = plan_data_set(&dev_session(), "1");
    assert!(w.test && !w.auto_sync, "调试数据永不上云");
    assert_eq!(w.ns, plugin_ns("demo"));
    let w = plan_data_set(&prod_session(), "{\"a\": 1}");
    assert!(!w.test && w.auto_sync);
    assert_eq!(w.json, "{\"a\":1}");
    assert_ne!(plugin_ns("a"), plugin_ns("b"));
}

#[test]
fn dev_session_uses_a_separate_file_sandbox() {
    let dev_dir = session_files_dir(&dev_session());
    let prod_dir = session_files_dir(&prod_session());
    assert_ne!(dev_dir, prod_dir);
    assert!(!dev_dir.starts_with(&prod_dir));
}

#[test]
fn permission_tables_are_separate() {
    let declared = declared();
    let mut s = PluginSettings::new();
    s.dev_plugin_permissions.insert("demo".to_string(), strings(&["network"]));
    assert!(allowed(&s, &declared, &dev_session(), "network"));
    assert!(!allowed(&s, &declared, &prod_session(), "network"), "调试环境的授权不得让正式插件也拿到能力");

    let mut s = PluginSettings::new();
    s.plugin_permissions.insert("demo".to_string(), strings(&["network"]));
    assert!(allowed(&s, &declared, &prod_session(), "network"));
    assert!(!allowed(&s, &declared, &dev_session(), "network"), "正式授权不得自动带到调试会话");

    s.dev_plugin_permissions.insert("demo".to_string(), strings(&["runCommand"]));
    assert!(!allowed(&s, &declared, &dev_session(), "runCommand"));
}

#[test]
fn permissions_follow_the_user_and_end_with_the_plugin() {
    let declared = declared();
    let mut s = PluginSettings::new();
    s.set_plugin_permission("demo", "network", true);
    assert!(allowed(&s, &declared, &prod_session(), "network"));
    s.set_plugin_permission("demo", "network", false);
    assert!(!allowed(&s, &declared, &prod_session(), "network"));
    s.set_plugin_permission("demo", "network", true);
    s.set_plugin_enabled("demo", false);
    assert_eq!(s.disabled_plugins, strings(&["demo"]));
    s.forget_plugin("demo");
    assert!(!allowed(&s, &declared, &prod_session(), "network"));
    assert!(s.disabled_plugins.is_empty());
}

#[test]
fn sessions_are_tracked_per_window() {
    let mut w = PluginWindows::new();
    w.set_session(PLUGIN_WINDOW_LABEL, prod_session());
    w.set_session(DEV_WINDOW_LABEL, dev_session());
    assert!(w.session_for(PLUGIN_WINDOW_LABEL).unwrap().same_as(&prod_session()));
    assert!(w.session_for(DEV_WINDOW_LABEL).unwrap().same_as(&dev_session()));
    assert!(w.session_for("main").is_none(), "非插件窗口没有会话");
    assert!(w.caller_session("main").is_err());
}

#[test]
fn pending_enter_is_per_window() {
    let mut w = PluginWindows::new();
    let info = |code: &str| EnterInfo {
        code: code.to_string(),
        kind: "keyword".to_string(),
        query: String::new(),
        plugin_id: "demo".to_string(),
    };
    w.set_enter(PLUGIN_WINDOW_LABEL, info("prod"));
    w.set_enter(DEV_WINDOW_LABEL, info("dev"));
    assert_eq!(w.take_enter(PLUGIN_WINDOW_LABEL).map(|e| e.code), Some("prod".to_string()));
    assert_eq!(w.take_enter(DEV_WINDOW_LABEL).map(|e| e.code), Some("dev".to_string()));
    assert!(w.take_enter(PLUGIN_WINDOW_LABEL).is_none(), "取走即清");
    w.reseed_enter(PLUGIN_WINDOW_LABEL);
    assert_eq!(w.take_enter(PLUGIN_WINDOW_LABEL).map(|e| e.code), Some("prod".to_string()));
    assert!(w.take_enter(DEV_WINDOW_LABEL).is_none());
}

#[test]
fn targets_lead_to_plugins() {
    assert!(matches!(route("demo#main").unwrap(), Route::Installed(id, code) if id == "demo" && code == "main"));
    assert!(matches!(route("dev:demo#main").unwrap(), Route::Dev(id, code) if id == "demo" && code == "main"));
    assert!(route("nothing").is_err());
}

#[test]
fn opening_knows_what_to_reuse() {
    let p = open_plan("demo", "main", "q", "keyword", false, true, true, Some(prod_session()), true).unwrap();
    assert!(p.session.same_as(&prod_session()));
    assert_eq!(p.enter.query, "q");
    assert!(p.reuse && p.show && p.resize && !p.noted_size);
    let new = open_plan("demo", "main", "", "keyword", true, true, false, None, true).unwrap();
    assert!(!new.reuse && !new.show && !new.resize && new.noted_size);
    assert!(open_plan("demo", "main", "", "keyword", false, false, false, None, false).is_err());
}

#[test]
fn pages_stay_with_their_own_protocol() {
    assert!(!may_navigate("https", Some("evil.example")));
    assert!(!may_navigate("file", None));
}

#[test]
fn only_plugin_directories_are_deleted() {
    let root = strings(&["data", "plugins"]);
    assert!(check_delete(&root, &Some(strings(&["data", "plugins", "demo"]))).is_ok());
    assert!(check_delete(&root, &Some(strings(&["data", "plugins"]))).is_err());
    assert!(check_delete(&root, &Some(strings(&["data", "other"]))).is_err());
}

#[test]
fn sandbox_paths_stay_inside() {
    assert_eq!(sandbox_relative("a/b.txt").unwrap(), strings(&["a", "b.txt"]));
    assert!(sandbox_relative("../x").is_err());
    assert!(sandbox_relative("/etc/passwd").is_err());
    assert!(check_write_parent(&Some(strings(&["s"])), &Some(strings(&["s", "a"]))).is_ok());
    assert!(check_write_parent(&Some(strings(&["s"])), &Some(strings(&["t"]))).is_err());
    assert!(remove_result(None, false).is_ok());
    assert!(remove_result(Some("gone".to_string()), true).is_ok());
    assert!(remove_result(Some("denied".to_string()), false).is_err());
}

#[test]
fn images_are_read_as_base64() {
    assert!(check_image_path("C:/a/b.png").is_ok());
    assert!(check_image_path("C:/a/b.exe").is_err());
    assert_eq!(read_local_image(Some(Ok(b"hello".to_vec()))).unwrap(), "aGVsbG8=");
    assert!(read_local_image(Some(Err("io".to_string()))).is_err());
    assert!(read_local_image(None).is_err());
    assert_eq!(read_base64("aGVsbG8=").unwrap(), b"hello");
    assert!(read_base64("***").is_err());
    assert!(!save_name(None).is_empty());
}

#[test]
fn only_safe_things_are_opened() {
    assert!(check_external("https://example.com").is_ok());
    assert!(check_external("file:///C:/x.exe").is_err());
    assert!(check_open_path("").is_err());
    assert!(check_open_path("C:/a/b.txt").is_ok());
    assert!(check_openable("C:/a/b.exe", false).is_err());
    assert!(check_openable("C:/a/b.txt", false).is_ok());
    assert!(check_openable("C:/a", true).is_ok());
}

#[test]
fn fetches_are_checked_and_answered() {
    assert!(check_fetch(false, "https://example.com", None).is_err());
    assert!(check_fetch(true, "ftp://example.com", None).is_err());
    assert_eq!(check_fetch(true, "https://example.com", Some("post")).unwrap(), "POST");
    assert_eq!(check_fetch(true, "https://example.com", None).unwrap(), "GET");
    let r = fetch_result(Reply::Answered(200, Ok("body".to_string()))).unwrap();
    assert!(r.ok && r.status == 200 && r.body == "body");
    let r = fetch_result(Reply::Refused(404, Some("no".to_string()))).unwrap();
    assert!(!r.ok && r.status == 404 && r.body == "no");
    assert!(fetch_result(Reply::Failed("dns".to_string())).is_err());
}

#[test]
fn stored_values_are_json() {
    assert_eq!(to_stored("{\"b\": 1}"), "{\"b\":1}");
    assert_eq!(to_stored("not json"), "\"not json\"");
    assert_eq!(store_as("x\"y", None), "\"x\\\"y\"");
    assert_eq!(store_as("raw", Some("1".to_string())), "1");
    let odd = "\u{8}\t\n\u{c}\r\u{1}\u{1f}\u{7f}\\/中";
    assert_eq!(store_as(odd, None), "\"\\b\\t\\n\\f\\r\\u0001\\u001f\u{7f}\\\\/中\"");
}

#[test]
fn dev_plugins_see_a_mock_account() {
    let actual = PluginAccountState { logged_in: true, cloud_configured: true, sync_enabled: true };
    let seen = account_state(Some(&prod_session()), "anonymous", actual);
    assert!(seen.logged_in);
}

#[test]
fn notices_name_their_plugin() {
    assert_eq!(who(&dev_session()), "dev:demo");
    assert_eq!(who(&prod_session()), "demo");
    assert!(notice_source(Some(&prod_session()), "plugin").contains("demo"));
    assert_eq!(
        emit_script("chan", "{\"a\":1}"),
        "window.__itoolsEmit && window.__itoolsEmit('chan', {\"a\":1})"
    );
}
