use itools_plugin::hotkey::{
    arbitrate, check_register, check_unregister, dispatch, window_label, HotkeyBinding, HOTKEY_ENTER_KIND, HOTKEY_QUERY, PluginHotkeys, Pressed, Takeover,
};
use itools_plugin::session::ActiveSession;

fn binding(id: &str, dev: bool) -> HotkeyBinding {
    HotkeyBinding {
        plugin_id: id.to_string(),
        code: Some("main".to_string()),
        accelerator: "Alt+Q".to_string(),
        dev,
    }
}

fn session(id: &str, dev: bool) -> ActiveSession {
    ActiveSession { id: id.to_string(), dev }
}

#[test]
fn free_slot_and_self_rebind_are_allowed() {
    assert_eq!(arbitrate(None, &session("demo", false), "Alt+Q"), Takeover::Free);
    assert_eq!(
        arbitrate(Some(&binding("demo", false)), &session("demo", false), "Alt+Q"),
        Takeover::Replace
    );
    assert_eq!(
        arbitrate(Some(&binding("demo", true)), &session("demo", true), "Alt+Q"),
        Takeover::Replace
    );
}

#[test]
fn cross_dev_prod_takeover_is_denied() {
    let deny = arbitrate(Some(&binding("demo", false)), &session("demo", true), "Alt+Q");
    let Takeover::Deny(msg) = deny else {
        panic!("调试会话抢正式插件的热键必须被拒绝，实际: {deny:?}");
    };
    assert!(msg.contains("正式插件"), "要说清被谁占着: {msg}");
    assert!(msg.contains("demo") && msg.contains("Alt+Q"), "{msg}");
    assert!(msg.contains("换一个组合键"), "要给出真的管用的出路: {msg}");

    let deny = arbitrate(Some(&binding("demo", true)), &session("demo", false), "Alt+Q");
    let Takeover::Deny(msg) = deny else {
        panic!("正式插件抢调试会话的热键必须被拒绝，实际: {deny:?}");
    };
    assert!(msg.contains("调试"), "{msg}");
    assert!(!msg.contains("关掉调试窗口就"), "{msg}");
    assert!(msg.contains("重启"), "真正能释放热键的只有重启（或插件自己注销）: {msg}");
}

#[test]
fn same_side_preemption_keeps_last_writer_wins() {
    assert_eq!(
        arbitrate(Some(&binding("other", false)), &session("demo", false), "Alt+Q"),
        Takeover::Replace
    );
    assert_eq!(
        arbitrate(Some(&binding("other", true)), &session("demo", true), "Alt+Q"),
        Takeover::Replace
    );
}

#[test]
fn ownership_is_symmetric_between_register_and_unregister() {
    let prod = binding("demo", false);
    assert!(prod.owned_by(&session("demo", false)));
    assert!(!prod.owned_by(&session("demo", true)), "同名调试会话不是同一个归属者");
    assert!(!prod.owned_by(&session("other", false)));
}

#[test]
fn hotkeys_are_claimed_bound_and_released() {
    let mut keys = PluginHotkeys::new();
    let me = session("demo", false);
    assert_eq!(keys.claim(1, &me, "Alt+Q"), Ok(false), "空位：没有旧键要撤");
    keys.bind(1, &me, Some("main".to_string()), "Alt+Q".to_string());
    assert_eq!(keys.claim(1, &me, "Alt+Q"), Ok(true));
    keys.bind(1, &me, None, "Alt+Q".to_string());
    assert!(keys.claim(1, &session("demo", true), "Alt+Q").is_err());
    assert!(keys.release(1, &session("other", false)).is_err());
    assert_eq!(keys.release(1, &me), Ok(true));
    assert_eq!(keys.release(1, &me), Ok(false));
}

#[test]
fn pressed_keys_go_to_their_owner() {
    assert!(!dispatch(None, true, None).is_handled());
    let b = binding("demo", false);
    assert!(matches!(dispatch(Some(&b), true, Some(&session("demo", false))), Pressed::Emit(js) if js.contains("Alt+Q") && js.contains("main")));
    match dispatch(Some(&b), false, None) {
        Pressed::Open { target, query, hidden } => {
            assert_eq!((target.as_str(), query, hidden), ("demo#main", "__hotkey__", true));
        }
        other => panic!("{other:?}"),
    }
    let mut quiet = binding("demo", false);
    quiet.code = None;
    assert!(!dispatch(Some(&quiet), false, None).is_handled(), "没有 feature 的键与无主的键一样回退");
    assert!(dispatch(Some(&quiet), true, Some(&session("demo", false))).is_handled());
    let d = binding("demo", true);
    match dispatch(Some(&d), true, Some(&session("other", true))) {
        Pressed::OpenDev { id, code, query, kind } => {
            assert_eq!((id.as_str(), code.as_str()), ("demo", "main"));
            assert_eq!((query, kind), (HOTKEY_QUERY, HOTKEY_ENTER_KIND));
            assert_eq!((query, kind), ("__hotkey__", "keyword"));
        }
        other => panic!("{other:?}"),
    }
    assert_eq!(window_label(&b), "plugin");
    assert_eq!(window_label(&d), "plugin-dev");
    assert!(check_register(true).is_ok() && check_register(false).is_err());
    assert!(check_unregister(true).is_ok() && check_unregister(false).is_err());
}
