use itools_plugin::input_api::{
    check_clipboard_watch, check_input, clipboard_step, ctrl_v, file_list, key_tap, modifier_vk, mouse_click, mouse_move,
    named_vk, resolve_key, sent_result, stop_all_for_session, to_absolute, type_string, unit_to_scan, ClipboardChanged,
    ClipboardWatch, Desktop, KeyEvent, MouseEvent, NO_KEY,
};
use itools_plugin::session::ActiveSession;

fn key(vk: u16, up: bool) -> KeyEvent {
    KeyEvent { vk, scan: 0, flags: if up { 2 } else { 0 } }
}

#[test]
fn text_is_typed_unit_by_unit() {
    let v = type_string("a😀");
    let units: Vec<u16> = "a😀".encode_utf16().collect();
    assert_eq!(v.len(), 2 * units.len());
    for (i, u) in units.iter().enumerate() {
        assert_eq!(v[2 * i], KeyEvent { vk: 0, scan: *u, flags: 4 });
        assert_eq!(v[2 * i + 1], KeyEvent { vk: 0, scan: *u, flags: 6 });
    }
    assert!(type_string("").is_empty());
}

#[test]
fn keys_have_names() {
    assert_eq!(named_vk("Enter"), Some(0x0D));
    assert_eq!(named_vk("PGDN"), Some(0x22));
    assert_eq!(named_vk("f12"), Some(0x7B));
    assert_eq!(named_vk("f13"), None);
    assert_eq!(modifier_vk("Control"), Some(0x11));
    assert_eq!(modifier_vk("super"), Some(0x5B));
    assert_eq!(modifier_vk("fn"), None);
    assert_eq!(unit_to_scan("v"), Some('v' as u16));
    assert_eq!(unit_to_scan("tab"), None);
    assert_eq!(unit_to_scan("😀"), None);
}

#[test]
fn keys_are_resolved_by_the_layout() {
    assert_eq!(resolve_key("tab", NO_KEY), Ok((0x09, false)));
    assert_eq!(resolve_key("v", 0x0056), Ok((0x56, false)));
    assert_eq!(resolve_key("V", 0x0156), Ok((0x56, true)));
    assert_eq!(resolve_key("é", NO_KEY).unwrap_err(), "当前键盘布局无法输入按键：é");
    assert_eq!(resolve_key("😀", 0x0056).unwrap_err(), "当前键盘布局无法输入按键：😀");
    assert_eq!(resolve_key("hyper", 0x0056).unwrap_err(), "不支持的按键名：hyper");
}

#[test]
fn taps_release_in_the_opposite_order() {
    let mods = ["ctrl".to_string(), "alt".to_string(), "control".to_string()];
    let v = key_tap("A", &mods, 0x0141).unwrap();
    assert_eq!(
        v,
        vec![
            key(0x11, false),
            key(0x12, false),
            key(0x10, false),
            key(0x41, false),
            key(0x41, true),
            key(0x10, true),
            key(0x12, true),
            key(0x11, true),
        ]
    );
    assert_eq!(key_tap("a", &["hyper".to_string()], 0x41).unwrap_err(), "不支持的修饰键：hyper");
    assert_eq!(
        ctrl_v(0x56).unwrap(),
        vec![key(0x11, false), key(0x56, false), key(0x56, true), key(0x11, true)]
    );
}

#[test]
fn refused_events_are_reported() {
    assert!(sent_result(4, 4).is_ok());
    assert!(sent_result(1, 4).unwrap_err().contains("已发送 1/4 个事件"));
}

#[test]
fn places_are_scaled_to_the_desktop() {
    let d = Desktop { x: -100, y: 0, width: 201, height: 101 };
    assert_eq!(to_absolute(d, -100, 0), Some((0, 0)));
    assert_eq!(to_absolute(d, 100, 100), Some((65535, 65535)));
    assert_eq!(to_absolute(d, 0, 50), Some((32767, 32767)));
    assert_eq!(to_absolute(d, -500, 5000), Some((0, 65535)));
    assert_eq!(to_absolute(Desktop { x: 0, y: 0, width: 0, height: 5 }, 0, 0), None);
    assert_eq!(mouse_move(d, 100, 100).unwrap(), vec![MouseEvent { dx: 65535, dy: 65535, flags: 0xC001 }]);
    let e = |flags| MouseEvent { dx: 0, dy: 0, flags };
    assert_eq!(mouse_click(d, -100, 0, false, false).unwrap(), vec![e(0xC001), e(0x8002), e(0x8004)]);
    assert_eq!(
        mouse_click(d, -100, 0, true, true).unwrap(),
        vec![e(0xC001), e(0x8008), e(0x8010), e(0x8008), e(0x8010)]
    );
    let none = Desktop { x: 0, y: 0, width: 0, height: 0 };
    assert_eq!(mouse_move(none, 0, 0).unwrap_err(), "无法读取虚拟桌面尺寸");
}

#[test]
fn file_lists_are_laid_out_for_the_clipboard() {
    let b = file_list(&vec!["C:\\a".to_string(), "文".to_string()]).unwrap();
    assert_eq!(&b[..4], &20u32.to_le_bytes());
    assert_eq!(&b[4..16], &[0; 12]);
    assert_eq!(&b[16..20], &1u32.to_le_bytes());
    let units: Vec<u16> = b[20..].chunks(2).map(|c| u16::from_le_bytes([c[0], c[1]])).collect();
    let want: Vec<u16> = "C:\\a\0文\0\0".encode_utf16().collect();
    assert_eq!(units, want);
    assert_eq!(file_list(&vec![]).unwrap_err(), "文件路径列表为空");
}

#[test]
fn one_session_watches_the_clipboard() {
    let a = ActiveSession { id: "a".to_string(), dev: false };
    let b = ActiveSession { id: "a".to_string(), dev: true };
    let mut w = ClipboardWatch::new();
    assert!(!w.start(a.clone()));
    assert!(w.start(b.clone()), "后来者接管，旧的要收");
    assert!(!stop_all_for_session(&mut w, &a));
    assert!(stop_all_for_session(&mut w, &b));
    assert!(!stop_all_for_session(&mut w, &b));
    assert_eq!(clipboard_step(3, 3), None);
    assert_eq!(clipboard_step(3, 4), Some(ClipboardChanged { sequence: 4 }));
    assert!(check_input(true).is_ok() && check_input(false).is_err());
    assert!(check_clipboard_watch(true).is_ok() && check_clipboard_watch(false).is_err());
}
