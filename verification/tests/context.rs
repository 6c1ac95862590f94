use itools_plugin::context::{
    address_bar, address_of, capture_if_foreign, check_access, file_url_to_path, folder_path_for, hex_val, is_explorer,
    matches_found, matches_snapshot, percent_decode, refresh_now, window_matches, ActiveWindowInfo, AddressBarLocator,
    Foreground, Front, ShellWindow, WindowRect,
};

#[test]
fn file_url_to_path_local_drive() {
    assert_eq!(
        file_url_to_path("file:///C:/Users/%E6%A1%8C%E9%9D%A2"),
        Some("C:\\Users\\桌面".to_string())
    );
}

#[test]
fn file_url_to_path_unc() {
    assert_eq!(
        file_url_to_path("file://server/share/folder"),
        Some("\\\\server\\share\\folder".to_string())
    );
}

#[test]
fn file_url_to_path_empty_is_none() {
    assert_eq!(file_url_to_path(""), None);
}

fn rect() -> WindowRect {
    WindowRect { left: 0, top: 0, right: 0, bottom: 0 }
}

fn window(app: &str, class: &str) -> ActiveWindowInfo {
    ActiveWindowInfo {
        app: app.to_string(),
        title: "示例页面 - Google Chrome".to_string(),
        class: class.to_string(),
        hwnd: 12345,
        rect: rect(),
    }
}

fn sample_window() -> ActiveWindowInfo {
    window("chrome.exe", "Chrome_WidgetWin_1")
}

#[test]
fn matches_snapshot_empty_app_is_wildcard() {
    assert!(matches_snapshot(&sample_window(), "", None, None));
}

#[test]
fn matches_snapshot_app_case_insensitive() {
    assert!(matches_snapshot(&sample_window(), "CHROME.EXE", None, None));
    assert!(!matches_snapshot(&sample_window(), "msedge.exe", None, None));
}

#[test]
fn matches_snapshot_title_regex() {
    assert!(matches_snapshot(&sample_window(), "", Some("示例.*"), None));
    assert!(!matches_snapshot(&sample_window(), "", Some("^不会匹配$"), None));
}

#[test]
fn matches_snapshot_invalid_regex_is_false_not_panic() {
    assert!(!matches_snapshot(&sample_window(), "", Some("("), None));
}

#[test]
fn matches_snapshot_class_case_insensitive() {
    assert!(matches_snapshot(&sample_window(), "", None, Some("chrome_widgetwin_1")));
    assert!(!matches_snapshot(&sample_window(), "", None, Some("CabinetWClass")));
}

#[test]
fn found_titles_decide_as_told() {
    let w = sample_window();
    assert!(matches_found(&w, "", None, None));
    assert!(matches_found(&w, "", Some(Some(true)), None));
    assert!(!matches_found(&w, "", Some(Some(false)), None));
    assert!(!matches_found(&w, "", Some(None), None));
}

#[test]
fn percent_signs_are_decoded() {
    assert_eq!(percent_decode("a%20b%").iter().collect::<String>(), "a b%");
    assert_eq!(percent_decode("plain").iter().collect::<String>(), "plain");
    assert_eq!(hex_val(b'f'), Some(15));
    assert_eq!(hex_val(b'g'), None);
}

fn front(pid: u32) -> Front {
    Front {
        found: true,
        pid,
        title: "标题".encode_utf16().collect(),
        class: "Cls".encode_utf16().collect(),
        hwnd: 7,
        rect: Some(rect()),
        image: Some("C:\\x\\app.exe".encode_utf16().collect()),
    }
}

#[test]
fn own_windows_are_not_captured() {
    assert!(capture_if_foreign(&front(5), 5).is_none());
    let w = capture_if_foreign(&front(6), 5).unwrap();
    assert_eq!(w.app, "app.exe");
    assert_eq!(w.title, "标题");
    assert_eq!(w.hwnd, 7);
    let mut none = front(6);
    none.found = false;
    assert!(capture_if_foreign(&none, 5).is_none());
}

#[test]
fn the_last_foreign_window_is_kept() {
    let mut state = Foreground::new();
    assert!(state.current_target(None).is_none());
    refresh_now(&mut state, Some(sample_window()));
    refresh_now(&mut state, None);
    assert_eq!(state.current_target(None).unwrap().app, "chrome.exe");
    assert_eq!(state.current_target(Some(window("edge.exe", "x"))).unwrap().app, "edge.exe");
    assert!(window_matches(&state, None, "chrome.exe", Some("Google"), None));
    assert!(!window_matches(&Foreground::new(), None, "", None, None));
    assert!(check_access(true).is_ok());
    assert!(check_access(false).is_err());
}

#[test]
fn folders_and_addresses_are_found() {
    let explorer = window("explorer.exe", "CabinetWClass");
    assert!(is_explorer(&explorer));
    assert!(!is_explorer(&sample_window()));
    let shells = vec![
        ShellWindow { hwnd: Some(1), url: Some("file:///C:/no".to_string()) },
        ShellWindow { hwnd: Some(12345), url: Some("file:///C:/yes".to_string()) },
    ];
    assert_eq!(folder_path_for(&explorer, &shells).as_deref(), Some("C:\\yes"));
    assert!(folder_path_for(&sample_window(), &shells).is_none());
    assert!(matches!(address_bar(&sample_window()), Some(AddressBarLocator::OmniboxClass)));
    assert!(matches!(address_bar(&window("firefox.exe", "MozillaWindowClass")), Some(AddressBarLocator::UrlbarId)));
    assert!(address_bar(&explorer).is_none());
    assert_eq!(address_of(None), None);
    assert!(address_of(Some("https://example.com")).is_some());
    assert_eq!(address_of(Some("  ")), None);
}
