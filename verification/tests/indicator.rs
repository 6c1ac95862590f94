use itools_plugin::indicator::{
    active_entries, active_uses, any_active, capability_of, has_session, indicator_step, sessions_to_stop, tray_tooltip,
    InUse,
};
use itools_plugin::session::ActiveSession;

fn session(id: &str, dev: bool) -> ActiveSession {
    ActiveSession { id: id.to_string(), dev }
}

fn nothing() -> InUse {
    InUse { audio: None, record: None, cameras: vec![], recordings: vec![] }
}

#[test]
fn capability_follows_actual_purpose() {
    assert_eq!(capability_of("系统内录（回环声卡）"), "audio-capture");
    assert_eq!(capability_of("屏幕录制（mp4）"), "screen-capture");
}

#[test]
fn every_use_is_shown_and_can_be_stopped() {
    let u = InUse {
        audio: Some(session("mic", true)),
        record: Some(session("rec", false)),
        cameras: vec![session("cam", false), session("mic", true)],
        recordings: vec![(session("rec", false), "系统内录（回环声卡）".to_string())],
    };
    assert!(any_active(&u));
    let entries = active_entries(&u);
    assert_eq!(entries.len(), 5);
    assert_eq!(active_uses(&u).len(), 5);
    let stop = sessions_to_stop(&u);
    assert_eq!(stop.len(), 3, "同一会话只停一次");
    for e in &entries {
        assert!(has_session(&stop, &e.session));
    }
    assert!(!has_session(&stop, &session("mic", false)), "同名的正式会话没有在用");
    let tip = tray_tooltip(&u).unwrap();
    assert!(tip.contains("mic") && tip.contains("cam"), "{tip}");
}

#[test]
fn the_tray_is_silent_without_uses() {
    assert!(!any_active(&nothing()));
    assert!(tray_tooltip(&nothing()).is_none());
    assert!(sessions_to_stop(&nothing()).is_empty());
}

#[test]
fn the_tray_changes_only_when_the_uses_do() {
    let tip = Some("x 正在使用".to_string());
    assert!(indicator_step(&tip, &tip).is_none());
    let on = indicator_step(&None, &tip).unwrap();
    assert!(on.enabled);
    assert!(on.tooltip.contains("x 正在使用"));
    let off = indicator_step(&tip, &None).unwrap();
    assert!(!off.enabled);
}
