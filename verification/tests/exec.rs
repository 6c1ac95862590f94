use itools_plugin::exec::{
    check_exec, collect_step, creation_flags, decode, decode_full, exec_result, exit_code, gbk_complete_prefix_len,
    new_stream_id, quit_result, resolve_encoding, text_of_gbk, wants_gbk, Capped, EncodingMode, ExecState, Piece, Polled,
    StreamDecoder, WaitStep, Waiter, EXEC_OUTPUT_LIMIT,
};
use itools_plugin::session::ActiveSession;

fn session(id: &str, dev: bool) -> ActiveSession {
    ActiveSession { id: id.to_string(), dev }
}

#[test]
fn programs_need_permission_and_a_name() {
    assert!(check_exec(true, "git").is_ok());
    assert!(check_exec(false, "git").is_err());
    assert!(check_exec(true, "  ").is_err());
    assert_eq!(creation_flags(false), 0x0800_0000);
    assert_eq!(creation_flags(true), 0x0800_0200);
    assert_eq!(new_stream_id(255, 16), "ff-10");
}

#[test]
fn output_is_kept_up_to_its_limit() {
    let mut c = Capped::new();
    c.push(b"abc");
    let (kept, more) = c.finish();
    assert_eq!(kept, b"abc");
    assert!(!more);
    let mut c = Capped::new();
    let half = vec![7u8; EXEC_OUTPUT_LIMIT / 2];
    c.push(&half);
    c.push(&half);
    c.push(b"x");
    let (kept, more) = c.finish();
    assert_eq!(kept.len(), EXEC_OUTPUT_LIMIT);
    assert!(more);
}

#[test]
fn encodings_are_chosen() {
    assert_eq!(resolve_encoding(None), EncodingMode::Auto);
    assert_eq!(resolve_encoding(Some("UTF-8")), EncodingMode::Utf8);
    assert_eq!(resolve_encoding(Some("gbk")), EncodingMode::Gbk);
    assert!(!wants_gbk("中文".as_bytes(), EncodingMode::Auto));
    assert!(wants_gbk(&[0xD6, 0xD0], EncodingMode::Auto));
    assert!(wants_gbk(b"abc", EncodingMode::Gbk));
    assert!(!wants_gbk(&[0xD6, 0xD0], EncodingMode::Utf8));
}

#[test]
fn text_is_decoded() {
    assert_eq!(decode_full("中文".as_bytes(), EncodingMode::Auto, None), "中文");
    assert_eq!(decode_full(&[0xD6, 0xD0], EncodingMode::Auto, Some("中".to_string())), "中");
    assert_eq!(decode_full(&[0xFF, b'a'], EncodingMode::Utf8, None), "\u{FFFD}a");
    let wide: Vec<u16> = "中".encode_utf16().collect();
    assert_eq!(decode(&[0xD6, 0xD0], Some(&wide)).as_deref(), Some("中"));
    assert_eq!(decode(&[], None).as_deref(), Some(""));
    assert_eq!(text_of_gbk(b"x", Some("y".to_string())), "y");
    assert_eq!(text_of_gbk(b"x", None), "x");
}

#[test]
fn gbk_is_cut_between_characters() {
    assert_eq!(gbk_complete_prefix_len(b"ab"), 2);
    assert_eq!(gbk_complete_prefix_len(&[0xD6, 0xD0]), 2);
    assert_eq!(gbk_complete_prefix_len(&[b'a', 0xD6]), 1);
    assert_eq!(gbk_complete_prefix_len(&[]), 0);
}

fn text_in(p: Piece) -> String {
    match p {
        Piece::Text(s) => s,
        Piece::Gbk(b) => panic!("{b:?}"),
    }
}

#[test]
fn streams_join_characters_that_were_cut() {
    let all = "前中文后".as_bytes();
    for cut in 0..all.len() {
        let mut d = StreamDecoder::new(EncodingMode::Utf8);
        let mut s = text_in(d.push(&all[..cut]));
        s.push_str(&text_in(d.push(&all[cut..])));
        s.push_str(&text_in(d.finish()));
        assert_eq!(s, "前中文后");
    }
}

#[test]
fn gbk_streams_hand_on_whole_characters() {
    let mut d = StreamDecoder::new(EncodingMode::Gbk);
    assert!(matches!(d.push(&[0xD6]), Piece::Gbk(b) if b.is_empty()));
    assert!(matches!(d.push(&[0xD0, b'a']), Piece::Gbk(b) if b == vec![0xD6, 0xD0, b'a']));
}

#[test]
fn waiting_ends_with_the_program_or_the_time() {
    assert!(matches!(collect_step(Polled::Running, None, u64::MAX), (WaitStep::Sleep, false)));
    assert!(matches!(collect_step(Polled::Running, Some(10), 10), (WaitStep::Kill, true)));
    assert_eq!(exit_code(Some(3)), 3);
    assert_eq!(exit_code(None), -1);
    let mut w = Waiter { timed_out: false };
    let (step, _) = w.step(Polled::Running, Some(5), 9);
    assert!(matches!(step, WaitStep::Kill));
    assert!(w.timed_out);
    let r = exec_result(
        Some(0),
        true,
        EncodingMode::Utf8,
        (b"out".to_vec(), false, None),
        (b"err".to_vec(), true, None),
    );
    assert_eq!((r.stdout.as_str(), r.stderr.as_str()), ("out", "err"));
    assert!(r.timed_out && r.truncated);
}

#[test]
fn streams_belong_to_their_session() {
    let mut s = ExecState::new();
    let me = session("demo", false);
    s.add("1-0".to_string(), me.clone());
    assert!(s.take_owned_child("1-0", &me).is_ok());
    assert!(s.take_owned_child("1-0", &session("demo", true)).is_err());
    assert!(s.take_owned_child("2-0", &me).is_err());
    s.remove("1-0");
    assert!(s.take_owned_child("1-0", &me).is_err());
    assert!(quit_result(5, true, true).is_ok());
    assert!(quit_result(5, false, true).unwrap_err().contains("pid=5"));
    assert!(quit_result(5, true, false).unwrap_err().contains("CTRL_BREAK"));
}

#[test]
fn streams_of_unknown_encoding_keep_characters_whole() {
    let told = |chunks: &[&[u8]]| {
        let mut d = StreamDecoder::new(EncodingMode::Auto);
        let (mut text, mut gbk) = (String::new(), Vec::new());
        let mut take = |p: Piece| match p {
            Piece::Text(s) => text.push_str(&s),
            Piece::Gbk(b) => gbk.extend(b),
        };
        for c in chunks {
            take(d.push(c));
        }
        take(d.finish());
        (text, gbk)
    };
    let utf8 = "中文".as_bytes();
    for cut in 0..=utf8.len() {
        assert_eq!(told(&[&utf8[..cut], &utf8[cut..]]), ("中文".to_string(), Vec::new()), "{cut}");
    }
    let gbk: &[u8] = &[0xD6, 0xD0, 0xCE, 0xC4];
    assert_eq!(told(&[gbk]), (String::new(), gbk.to_vec()));
    assert_eq!(told(&[&gbk[..3], &gbk[3..]]), (String::new(), gbk.to_vec()));
}
