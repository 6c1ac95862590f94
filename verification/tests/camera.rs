use itools_plugin::camera::{
    active_sessions, asked_size, bgrx_to_rgba, check_camera, check_device, find_device, frame_payload, frame_pixels,
    grab_answer, interval_of, is_active, list_devices, native_formats, open_result, opened_size, pack_u64, pick_frame,
    quality_or, rgba_to_jpeg, round_rate, stop_all_for_session, stream_fps, unpack_u64, CameraFormat, CameraStreams,
    FoundDevice, FrameRead, GrabOptions, NativeType, OpenStep, Opened, Pacer, ReadEvent, StreamEvent, StreamOptions,
    StreamStep,
};
use itools_plugin::picture::read_pixels;
use itools_plugin::session::ActiveSession;
use base64::Engine;

fn session(id: &str, dev: bool) -> ActiveSession {
    ActiveSession { id: id.to_string(), dev }
}

fn from_b64(s: &str) -> Vec<u8> {
    base64::engine::general_purpose::STANDARD.decode(s).unwrap()
}

#[test]
fn cameras_need_permission_and_a_name() {
    assert!(check_camera(true).is_ok());
    assert!(check_camera(false).unwrap_err().contains("camera"));
    assert!(check_device("x").is_ok());
    assert_eq!(check_device("  ").unwrap_err(), "deviceId 不能为空");
}

#[test]
fn settings_are_kept_within_limits() {
    assert_eq!(stream_fps(None), 10);
    assert_eq!(stream_fps(Some(0)), 1);
    assert_eq!(stream_fps(Some(60)), 15);
    assert_eq!(quality_or(None, 70), 70);
    assert_eq!(quality_or(Some(0), 70), 1);
    assert_eq!(quality_or(Some(200), 70), 100);
    let g = GrabOptions::default();
    assert!(g.width.is_none() && g.format.is_none());
    assert!(StreamOptions::default().fps.is_none());
}

#[test]
fn packed_numbers_come_apart() {
    assert_eq!(pack_u64(640, 480), 0x0000_0280_0000_01E0);
    for (a, b) in [(0, 0), (1, u32::MAX), (u32::MAX, 7)] {
        assert_eq!(unpack_u64(pack_u64(a, b)), (a, b));
    }
}

#[test]
fn rates_are_rounded_like_numbers() {
    assert_eq!(round_rate(None), None);
    assert_eq!(round_rate(Some(pack_u64(30, 1))), Some(30));
    assert_eq!(round_rate(Some(pack_u64(30000, 1001))), Some(30));
    assert_eq!(round_rate(Some(pack_u64(15, 2))), Some(8));
    assert_eq!(round_rate(Some(pack_u64(1, 3))), None);
    assert_eq!(round_rate(Some(pack_u64(30, 0))), None);
    for (num, den) in [(7u32, 2u32), (29, 10), (u32::MAX, 1), (u32::MAX, 2), (1, u32::MAX), (5, 10), (4_294_967_291, 8_589_934)] {
        let float = (num as f64 / den as f64).round() as u32;
        assert_eq!(round_rate(Some(pack_u64(num, den))), if float > 0 { Some(float) } else { None });
    }
}

fn kind(w: u32, h: u32, fps: u32) -> NativeType {
    NativeType { size: Some(pack_u64(w, h)), rate: Some(pack_u64(fps, 1)) }
}

#[test]
fn formats_are_listed_once() {
    let v = native_formats(&vec![
        kind(640, 480, 30),
        kind(640, 480, 30),
        kind(0, 480, 30),
        NativeType { size: None, rate: None },
        kind(640, 480, 15),
    ]);
    assert_eq!(
        v,
        vec![
            CameraFormat { width: 640, height: 480, fps: Some(30) },
            CameraFormat { width: 640, height: 480, fps: Some(15) },
        ]
    );
    let many: Vec<NativeType> = (1..200).map(|i| kind(i, 1, 1)).collect();
    assert_eq!(native_formats(&many).len(), 64);
}

#[test]
fn devices_without_an_id_are_left_out() {
    let found = vec![
        FoundDevice { name: Some("前置".to_string()), device_id: Some("id1".to_string()), types: vec![kind(1, 1, 1)] },
        FoundDevice { name: Some("坏".to_string()), device_id: None, types: vec![] },
        FoundDevice { name: None, device_id: Some("id2".to_string()), types: vec![] },
    ];
    let v = list_devices(&found);
    assert_eq!(v.len(), 2);
    assert_eq!((v[0].name.as_str(), v[0].formats.len()), ("前置", 1));
    assert_eq!((v[1].device_id.as_str(), v[1].name.as_str()), ("id2", ""));
    let ids = vec![None, Some("id1".to_string()), Some("id2".to_string())];
    assert_eq!(find_device(&ids, "id2").unwrap(), 2);
    assert!(find_device(&ids, "id3").unwrap_err().contains("id3"));
}

#[test]
fn sizes_are_asked_for_and_checked() {
    assert_eq!(asked_size(Some(1), Some(2)), Some(pack_u64(1, 2)));
    assert_eq!(asked_size(Some(1), None), None);
    assert!(open_result(OpenStep::Format, Err("不支持".to_string())).unwrap_err().contains("不支持所选分辨率"));
    assert!(open_result(OpenStep::Activate, Ok(())).is_ok());
    assert_eq!(opened_size(Some(pack_u64(640, 480)), None, None).unwrap(), (640, 480));
    assert_eq!(opened_size(None, Some(3), Some(4)).unwrap(), (3, 4));
    assert_eq!(opened_size(None, Some(3), None).unwrap_err(), "无法确定摄像头输出分辨率");
}

#[test]
fn empty_samples_are_waited_for() {
    let mut r = FrameRead::new();
    for _ in 0..59 {
        assert_eq!(r.step(ReadEvent::Empty), Ok(false));
    }
    assert!(r.step(ReadEvent::Empty).unwrap_err().contains("60 次"));
    let mut r = FrameRead::new();
    assert_eq!(r.step(ReadEvent::Empty), Ok(false));
    assert_eq!(r.step(ReadEvent::Sample), Ok(true));
    assert_eq!(r.step(ReadEvent::Ended).unwrap_err(), "摄像头数据流已结束");
    assert_eq!(r.step(ReadEvent::Failed("x".to_string())).unwrap_err(), "读取摄像头帧失败: x");
}

#[test]
fn pixels_are_turned_around() {
    assert_eq!(bgrx_to_rgba(&[1, 2, 3, 9, 4, 5, 6, 9, 7]), vec![3, 2, 1, 255, 6, 5, 4, 255, 0]);
    assert_eq!(frame_pixels(&[1, 2, 3, 9, 4], 1, 1).unwrap(), vec![3, 2, 1, 255]);
    assert_eq!(frame_pixels(&[1, 2, 3], 1, 1).unwrap_err(), "帧数据大小异常（期望至少 4 字节，实际 3）");
}

#[test]
fn the_last_good_read_counts() {
    assert_eq!(pick_frame(vec![Ok(vec![1]), Ok(vec![2]), Err("x".to_string())]).unwrap(), vec![2]);
    assert_eq!(pick_frame(vec![Err("a".to_string()), Err("b".to_string())]).unwrap_err(), "b");
    assert_eq!(pick_frame(vec![]).unwrap_err(), "抓拍失败：连续多次读取不到有效帧");
}

#[test]
fn grabs_are_png_unless_jpeg_is_asked_for() {
    let rgba = vec![10, 20, 30, 255];
    let png = from_b64(&grab_answer(1, 1, rgba.clone(), &GrabOptions::default()).unwrap());
    assert_eq!(read_pixels(&png).unwrap().rgba, rgba);
    let mut opts = GrabOptions::default();
    opts.format = Some("jpg".to_string());
    let jpeg = from_b64(&grab_answer(1, 1, rgba, &opts).unwrap());
    assert_eq!(&jpeg[..3], &[0xFF, 0xD8, 0xFF]);
    assert!(rgba_to_jpeg(0, 0, &[], 70).unwrap_err().starts_with("JPEG 编码失败"));
}

#[test]
fn frames_carry_their_stream() {
    let f = frame_payload("s1", 2, 1, &[1, 2, 3, 255, 4, 5, 6, 255], 70).unwrap();
    assert_eq!((f.stream_id.as_str(), f.width, f.height), ("s1", 2, 1));
    let px = read_pixels(&from_b64(&f.b64)).unwrap();
    assert_eq!((px.width, px.height), (2, 1));
}

#[test]
fn camera_streams_belong_to_their_session() {
    let mut reg = CameraStreams::new();
    assert!(!is_active(&reg));
    reg.add("1".to_string(), session("b", false));
    reg.add("2".to_string(), session("a", true));
    reg.add("3".to_string(), session("b", false));
    reg.add("4".to_string(), session("a", false));
    assert!(is_active(&reg));
    let who: Vec<(String, bool)> = active_sessions(&reg).into_iter().map(|s| (s.id, s.dev)).collect();
    assert_eq!(who, vec![("a".to_string(), false), ("a".to_string(), true), ("b".to_string(), false)]);
    assert_eq!(reg.stop("9", &session("b", false)).unwrap_err(), "该预览流不存在或已结束");
    assert_eq!(reg.stop("1", &session("b", true)).unwrap_err(), "该预览流不属于本插件");
    assert!(reg.stop("1", &session("b", false)).is_ok());
    let mut ids = stop_all_for_session(&mut reg, &session("a", true));
    ids.sort();
    assert_eq!(ids, vec!["2".to_string()]);
    assert_eq!(active_sessions(&reg).len(), 2);
    assert!(stop_all_for_session(&mut reg, &session("a", true)).is_empty());
    reg.remove("3");
    stop_all_for_session(&mut reg, &session("a", false));
    assert!(!is_active(&reg));
}

#[test]
fn streams_that_do_not_start_are_dropped() {
    for (opened, message) in [
        (Opened::Failed("坏了".to_string()), "坏了"),
        (Opened::Gone, "预览流线程提前退出"),
        (Opened::Late, "打开摄像头超时"),
    ] {
        let mut reg = CameraStreams::new();
        reg.add("1".to_string(), session("b", false));
        assert_eq!(reg.started("1", opened).unwrap_err(), message);
        assert!(!is_active(&reg));
    }
    let mut reg = CameraStreams::new();
    reg.add("1".to_string(), session("b", false));
    assert!(reg.started("1", Opened::Running).is_ok());
    assert!(is_active(&reg));
}

#[test]
fn streams_do_not_exceed_their_pace() {
    assert_eq!(interval_of(15), 66_000_000);
    assert_eq!(interval_of(10), 100_000_000);
    assert_eq!(interval_of(0), 1_000_000_000);
    assert_eq!(interval_of(5000), 1_000_000);
    let mut p = Pacer::new(10);
    let mut sent = Vec::new();
    for t in (0..1_000_000_000u64).step_by(30_000_000) {
        if matches!(p.step(StreamEvent::Frame(t)), StreamStep::Send) {
            sent.push(t);
        }
    }
    assert_eq!(sent[0], 0);
    assert!(sent.windows(2).all(|w| w[1] - w[0] >= 100_000_000), "{sent:?}");
    assert!(matches!(p.step(StreamEvent::Stop), StreamStep::End(None)));
    assert!(matches!(p.step(StreamEvent::Failed("拔了".to_string())), StreamStep::End(Some(e)) if e == "拔了"));
}
