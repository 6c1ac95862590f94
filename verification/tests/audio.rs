use itools_plugin::audio::{
    check_audio, encode_wav, fault_text, goes_on, push_unsigned, recording_answer, AudioState, Fault, Ready, Recorded,
};
use itools_plugin::session::ActiveSession;
use base64::Engine;

fn session(id: &str, dev: bool) -> ActiveSession {
    ActiveSession { id: id.to_string(), dev }
}

#[test]
fn wav_files_have_a_head_and_samples() {
    let w = encode_wav(&[1, -1, i16::MIN], 44100, 2);
    assert_eq!(w.len(), 44 + 6);
    assert_eq!(&w[..4], b"RIFF");
    assert_eq!(&w[4..8], &42u32.to_le_bytes());
    assert_eq!(&w[8..16], b"WAVEfmt ");
    assert_eq!(&w[16..20], &16u32.to_le_bytes());
    assert_eq!(&w[20..24], &[1, 0, 2, 0]);
    assert_eq!(&w[24..28], &44100u32.to_le_bytes());
    assert_eq!(&w[28..32], &176400u32.to_le_bytes());
    assert_eq!(&w[32..36], &[4, 0, 16, 0]);
    assert_eq!(&w[36..40], b"data");
    assert_eq!(&w[40..44], &6u32.to_le_bytes());
    let back: Vec<i16> = w[44..].chunks(2).map(|b| i16::from_le_bytes([b[0], b[1]])).collect();
    assert_eq!(back, vec![1, -1, i16::MIN]);
}

#[test]
fn unsigned_samples_are_centred() {
    let mut v = vec![5];
    push_unsigned(&mut v, &[0, 32768, 65535]);
    assert_eq!(v, vec![5, -32768, 0, 32767]);
}

#[test]
fn one_recording_at_a_time() {
    let mut s = AudioState::new();
    let me = session("demo", false);
    assert_eq!(s.stop(&me).unwrap_err(), "当前没有录音");
    assert!(s.start(me.clone(), false).is_ok());
    assert_eq!(s.start(session("x", false), false).unwrap_err(), "已经在录音了");
    assert!(s.active_owner().unwrap().same_as(&me));
    assert_eq!(s.stop(&session("demo", true)).unwrap_err(), "该录音会话不属于本插件");
    assert!(s.stop(&me).is_ok());
    assert!(s.active_owner().is_none());
    s.start(me.clone(), false).unwrap();
    assert!(s.start(session("x", false), true).is_ok(), "自然结束的旧会话会被回收");
    assert!(s.force_stop());
    assert!(!s.force_stop());
}

#[test]
fn recordings_that_do_not_start_are_dropped() {
    for (ready, message) in [
        (Ready::Failed("坏".to_string()), "坏"),
        (Ready::Gone, "录音线程提前退出"),
        (Ready::Late, "录音启动超时"),
    ] {
        let mut s = AudioState::new();
        s.start(session("demo", false), false).unwrap();
        assert_eq!(s.started(ready).unwrap_err(), message);
        assert!(s.active_owner().is_none());
    }
    let mut s = AudioState::new();
    s.start(session("demo", false), false).unwrap();
    assert!(s.started(Ready::Started).is_ok());
    assert!(s.active_owner().is_some());
}

#[test]
fn recordings_end_and_are_answered() {
    assert!(goes_on(false, 600));
    assert!(!goes_on(false, 601));
    assert!(!goes_on(true, 0));
    let rec = Recorded { samples: vec![7], sample_rate: 8000, channels: 1 };
    let wav = base64::engine::general_purpose::STANDARD.decode(recording_answer(Some(Ok(rec))).unwrap()).unwrap();
    assert_eq!(wav, encode_wav(&[7], 8000, 1));
    assert_eq!(recording_answer(None).unwrap_err(), "录音线程异常");
    assert_eq!(recording_answer(Some(Err("e".to_string()))).unwrap_err(), "e");
    assert!(check_audio(true).is_ok());
    assert!(check_audio(false).unwrap_err().contains("audio-capture"));
    assert_eq!(fault_text(&Fault::NoDevice), "找不到麦克风输入设备");
    assert_eq!(fault_text(&Fault::Play("x".to_string())), "启动录音失败: x");
}
