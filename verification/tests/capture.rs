use itools_plugin::capture::{
    bitmap, display_at, display_by_id, downscale, fault_text, freeze_pixels, freeze_shot, full_answer, invalid_hotkey,
    is_screenshot_hotkey, keeps_text, make_opaque, native_answer, overlay_script, overlay_url, plan_shot,
    primary_monitor, region_answer, require_capture, CaptureFlow, GdiFault, NativeResult, RegionResult, ScreenshotState,
    Shot, ShotPlan,
};
use itools_plugin::image_api::MonitorRect;
use itools_plugin::picture::read_pixels;
use base64::Engine;

fn from_b64(s: &str) -> Vec<u8> {
    base64::engine::general_purpose::STANDARD.decode(s).unwrap()
}

fn shot(width: u32, height: u32, px: [u8; 4]) -> Shot {
    let mut rgba = Vec::new();
    for _ in 0..width * height {
        rgba.extend_from_slice(&px);
    }
    Shot { width, height, rgba }
}

fn mon(x: i32, y: i32, width: u32, height: u32) -> MonitorRect {
    MonitorRect { x, y, width, height, is_primary: false }
}

#[test]
fn captures_need_permission() {
    assert!(require_capture(true).is_ok());
    assert!(require_capture(false).unwrap_err().contains("screen-capture"));
}

#[test]
fn displays_are_chosen() {
    assert_eq!(primary_monitor(&vec![false, true, true]).unwrap(), 1);
    assert_eq!(primary_monitor(&vec![false, false]).unwrap(), 0);
    assert_eq!(primary_monitor(&vec![]).unwrap_err(), "未找到任何显示器");
    assert_eq!(display_by_id(&vec![None, Some(7), Some(7)], 7).unwrap(), 1);
    assert_eq!(display_by_id(&vec![None, Some(7)], 8).unwrap_err(), "找不到显示器 id=8");
    let mons = vec![mon(0, 0, 10, 10), mon(10, 0, 10, 10)];
    assert_eq!(display_at(&mons, 12, 3, None), Some(mons[1]));
    assert_eq!(display_at(&mons, 99, 3, Some(mons[0])), Some(mons[0]));
    assert_eq!(display_at(&mons, 99, 3, None), None);
}

#[test]
fn wide_pictures_get_narrower() {
    let same = downscale(shot(4, 2, [1, 2, 3, 255]), 4);
    assert_eq!((same.width, same.height), (4, 2));
    let small = downscale(shot(8, 6, [50, 60, 70, 255]), 4);
    assert_eq!((small.width, small.height), (4, 3));
    assert_eq!(&small.rgba[..4], &[50, 60, 70, 255]);
    assert_eq!(small.rgba.len(), 4 * 3 * 4);
    let flat = downscale(shot(100, 1, [9, 9, 9, 255]), 10);
    assert_eq!((flat.width, flat.height), (10, 1));
}

#[test]
fn displays_are_answered_as_png() {
    let png = from_b64(&full_answer(shot(2, 2, [5, 6, 7, 255])).unwrap());
    let px = read_pixels(&png).unwrap();
    assert_eq!((px.width, px.height), (2, 2));
    assert_eq!(&px.rgba[..4], &[5, 6, 7, 255]);
}

#[test]
fn bitmaps_have_a_head_and_opaque_pixels() {
    let b = bitmap(1, 2, vec![1, 2, 3, 0, 4, 5, 6, 0]).unwrap();
    assert_eq!(&b[..2], b"BM");
    assert_eq!(&b[2..6], &62u32.to_le_bytes());
    assert_eq!(&b[6..10], &[0; 4]);
    assert_eq!(&b[10..14], &54u32.to_le_bytes());
    assert_eq!(&b[14..18], &40u32.to_le_bytes());
    assert_eq!(&b[18..22], &1i32.to_le_bytes());
    assert_eq!(&b[22..26], &(-2i32).to_le_bytes());
    assert_eq!(&b[26..30], &[1, 0, 32, 0]);
    assert_eq!(&b[30..34], &[0; 4]);
    assert_eq!(&b[34..38], &8u32.to_le_bytes());
    assert_eq!(&b[38..54], &[0; 16]);
    assert_eq!(&b[54..], &[1, 2, 3, 255, 4, 5, 6, 255]);
    let px = read_pixels(&b).unwrap();
    assert_eq!(&px.rgba[..3], &[3, 2, 1]);
    assert_eq!(bitmap(0, 1, vec![]).unwrap_err(), "尺寸非法");
    let mut raw = vec![1, 2, 3, 4];
    make_opaque(&mut raw);
    assert_eq!(raw, vec![1, 2, 3, 255]);
    assert_eq!(fault_text(GdiFault::NoScreen), "GetDC 失败");
}

#[test]
fn displays_are_frozen() {
    let f = freeze_pixels(mon(3, 4, 1, 1), Some(vec![1, 2, 3, 0])).unwrap();
    assert_eq!((f.x, f.y, f.width, f.height, f.bmp.len()), (3, 4, 1, 1, 58));
    assert!(freeze_pixels(mon(3, 4, 1, 1), None).is_none());
    assert!(freeze_pixels(mon(3, 4, 0, 1), Some(vec![])).is_none());
    let f = freeze_shot(Some(mon(3, 4, 9, 9)), shot(2, 1, [1, 2, 3, 255])).unwrap();
    assert_eq!((f.x, f.y, f.width, f.height), (3, 4, 2, 1));
    let f = freeze_shot(None, shot(2, 1, [1, 2, 3, 255])).unwrap();
    assert_eq!((f.x, f.y), (0, 0));
    assert_eq!(&f.bmp[..2], b"BM");
}

#[test]
fn the_screenshot_key_can_be_changed() {
    let mut s = ScreenshotState::new();
    assert!(!is_screenshot_hotkey(&s, 1));
    assert_eq!(s.release_for(1), None);
    assert!(s.bind(1, Ok(())).is_ok());
    assert!(is_screenshot_hotkey(&s, 1));
    assert_eq!(s.release_for(1), None, "同一个键不必撤");
    s.bind(1, Ok(())).unwrap();
    assert_eq!(s.release_for(2), Some(1));
    assert!(s.bind(2, Err("占用".to_string())).unwrap_err().contains("占用"));
    assert!(!is_screenshot_hotkey(&s, 1) && !is_screenshot_hotkey(&s, 2));
    assert_eq!(invalid_hotkey("x"), "无效快捷键：x");
}

fn made(action: &str) -> NativeResult {
    NativeResult { action: action.to_string(), shot: shot(1, 1, [1, 2, 3, 255]) }
}

#[test]
fn actions_on_pictures_are_planned() {
    match plan_shot(made("save"), 1234).unwrap() {
        ShotPlan::Save { name, png } => {
            assert_eq!(name, "Shot_1234.png");
            assert_eq!(&png[1..4], b"PNG");
        }
        other => panic!("{other:?}"),
    }
    assert!(matches!(plan_shot(made("pin"), 0).unwrap(), ShotPlan::Pin { .. }));
    assert!(matches!(plan_shot(made("ocr"), 0).unwrap(), ShotPlan::Ocr { .. }));
    assert!(matches!(plan_shot(made("whatever"), 0).unwrap(), ShotPlan::Copy { shot } if shot.rgba == vec![1, 2, 3, 255]));
    assert!(keeps_text("字"));
    assert!(!keeps_text(" \n"));
}

#[test]
fn cancelled_captures_say_so() {
    let some = |b64: &str| Some(RegionResult { b64: b64.to_string(), action: "copy".to_string() });
    let out = region_answer(some("123456789")).unwrap();
    assert_eq!((out.action.as_str(), out.b64.as_str()), ("copy", "123456789"));
    assert_eq!(region_answer(some("12345678")).unwrap_err(), "__cancelled__");
    assert_eq!(region_answer(None).unwrap_err(), "__cancelled__");
    assert_eq!(native_answer(None).unwrap_err(), "__cancelled__");
    let out = native_answer(Some(made("pin"))).unwrap();
    assert_eq!(out.action, "pin");
    assert_eq!(read_pixels(&from_b64(&out.b64)).unwrap().rgba, vec![1, 2, 3, 255]);
}

#[test]
fn captures_run_one_at_a_time() {
    let mut f = CaptureFlow::new();
    assert!(f.begin().is_ok());
    assert_eq!(f.begin().unwrap_err(), "截图正在进行中");
    assert!(f.frozen_png().is_none());
    assert_eq!(f.freeze(vec![1, 2]), 0);
    assert_eq!(f.frozen_png(), Some(vec![1, 2]));
    assert!(f.is_waiting());
    assert!(f.report());
    assert!(!f.report(), "只有第一次上报算数");
    f.finish();
    assert!(f.frozen_png().is_none() && !f.is_waiting());
    assert!(f.begin().is_ok());
    assert_eq!(f.freeze(vec![3]), 1, "每次的图都有新编号");
    assert_eq!(overlay_script(true, 3), "window.__begin && window.__begin(true, 3)");
    assert_eq!(overlay_url(false, 4), "itoverlay://localhost/overlay.html?full=0&b=4");
    assert_eq!(overlay_url(true, 4), "itoverlay://localhost/overlay.html?full=1&b=4");
}
