use itools_plugin::archive_api::icon::{icon_answer, icon_base64_png, icon_pixels, shell_path, IconBits};
use itools_plugin::archive_api::pack::{
    check_chosen, normalize_zip_root_name, FoundKind, PackStep, Packing, MAX_ZIP_CREATE_ENTRIES,
};
use itools_plugin::archive_api::unpack::{safe_zip_entry_path, Unzip, UnzipStep};
use itools_plugin::archive_api::watch::{
    check_watched, join_reported, new_watch_id, read_changes, read_records, reader_step, watch_target, Debounce, RawEvent, ReaderInput, ReaderThen,
    WatchTarget, Watches, DEBOUNCE_WINDOW, MAX_WATCHES_PER_SESSION,
};
use itools_plugin::session::ActiveSession;
use std::io::Write;

fn session(id: &str, dev: bool) -> ActiveSession {
    ActiveSession { id: id.to_string(), dev }
}

#[test]
fn normalize_zip_root_name_strips_dot_segments_and_backslashes() {
    assert_eq!(normalize_zip_root_name("docs"), "docs");
    assert_eq!(normalize_zip_root_name("./docs/readme.txt"), "docs/readme.txt");
    assert_eq!(normalize_zip_root_name("docs\\sub\\a.txt"), "docs/sub/a.txt");
}

#[test]
fn safe_zip_entry_path_accepts_normal_nested_paths() {
    let p = safe_zip_entry_path("docs/sub/readme.txt").expect("应当放行");
    assert_eq!(p, vec!["docs".to_string(), "sub".to_string(), "readme.txt".to_string()]);
}

#[test]
fn safe_zip_entry_path_accepts_backslash_as_separator() {
    let p = safe_zip_entry_path("docs\\sub\\readme.txt").expect("应当放行（反斜杠也当分隔符）");
    assert_eq!(p, vec!["docs".to_string(), "sub".to_string(), "readme.txt".to_string()]);
}

#[test]
fn safe_zip_entry_path_rejects_absolute_and_parent_traversal() {
    assert!(safe_zip_entry_path("/etc/passwd").is_err());
    assert!(safe_zip_entry_path("../escape.txt").is_err());
    assert!(safe_zip_entry_path("a/../../b.txt").is_err());
    assert!(safe_zip_entry_path("..").is_err());
    assert!(safe_zip_entry_path("...").is_err());
}

#[test]
fn safe_zip_entry_path_rejects_drive_letter_and_nul() {
    assert!(safe_zip_entry_path("C:\\Windows\\system.ini").is_err());
    assert!(safe_zip_entry_path("a\0b").is_err());
    assert!(safe_zip_entry_path("").is_err());
}

#[test]
fn safe_zip_entry_path_rejects_trailing_space_or_dot() {
    assert!(safe_zip_entry_path("payload.exe.").is_err());
    assert!(safe_zip_entry_path("evil ").is_err());
}

#[test]
fn root_names_stay_as_they_are_once_normal() {
    for s in ["docs", "./a/./b", "a\\b\\c", ".", ""] {
        let once = normalize_zip_root_name(s);
        assert_eq!(normalize_zip_root_name(&once), once);
    }
}

// ---------- packing ----------

#[test]
fn packing_names_and_counts_entries() {
    let mut p = Packing::new();
    assert!(matches!(p.root("docs", true).unwrap(), PackStep::Directory(_)));
    match p.walked("docs", "sub/a.txt", FoundKind::File).unwrap() {
        PackStep::File(name) => assert_eq!(name, "docs/sub/a.txt"),
        other => panic!("{other:?}"),
    }
    assert!(matches!(p.walked("docs", "link", FoundKind::Other).unwrap(), PackStep::Skip));
    let s = p.summary(42);
    assert_eq!(s.archive_bytes, 42);
    assert!(s.entry_count >= 1 && s.entry_count <= MAX_ZIP_CREATE_ENTRIES);
    assert!(check_chosen(&vec![]).is_err());
    assert!(check_chosen(&vec!["a".to_string()]).is_ok());
}

// ---------- unpacking ----------

fn zip_of(entries: &[(&str, &[u8])]) -> Vec<u8> {
    let mut buf = Vec::new();
    {
        let mut w = zip::ZipWriter::new(std::io::Cursor::new(&mut buf));
        let opts: zip::write::FileOptions<'_, ()> =
            zip::write::FileOptions::default().compression_method(zip::CompressionMethod::Deflated);
        for (n, c) in entries {
            if n.ends_with('/') {
                w.add_directory(*n, opts).unwrap();
            } else {
                w.start_file(*n, opts).unwrap();
                w.write_all(c).unwrap();
            }
        }
        w.finish().unwrap();
    }
    buf
}

#[test]
fn archives_are_unpacked_step_by_step() {
    let mut u = Unzip::open(zip_of(&[("docs/", b""), ("docs/a.txt", b"hello"), ("b.bin", &[0, 255, 7])])).unwrap();
    let mut dirs = 0;
    let mut files = Vec::new();
    while let Some(step) = u.next() {
        match step.unwrap() {
            UnzipStep::Directory(p) => {
                assert_eq!(p, vec!["docs".to_string()]);
                dirs += 1;
            }
            UnzipStep::File { path, data, .. } => files.push((path.join("/"), data)),
            UnzipStep::Unreadable { why, .. } => panic!("{why}"),
        }
    }
    assert_eq!(dirs, 1);
    assert_eq!(files, vec![("docs/a.txt".to_string(), b"hello".to_vec()), ("b.bin".to_string(), vec![0, 255, 7])]);
    let s = u.summary();
    assert_eq!(s.extracted_files, 2);
    assert_eq!(s.extracted_bytes, 8);
}

#[test]
fn unpacking_stops_at_an_entry_that_leads_outside() {
    let mut u = Unzip::open(zip_of(&[("ok.txt", b"1"), ("../evil.txt", b"2")])).unwrap();
    assert!(u.next().unwrap().is_ok());
    assert!(u.next().unwrap().is_err());
    assert!(Unzip::open(b"no archive".to_vec()).is_err());
}

// ---------- icons ----------

#[test]
fn shell_paths_use_backslashes_and_end_in_zero() {
    let w = shell_path("C:/a/b");
    let want: Vec<u16> = "C:\\a\\b\0".encode_utf16().collect();
    assert_eq!(w, want);
}

#[test]
fn icon_pixels_are_turned_to_rgba() {
    // 有真 alpha：只换红蓝
    assert_eq!(icon_pixels(&[1, 2, 3, 4, 5, 6, 7, 8], None), vec![3, 2, 1, 4, 7, 6, 5, 8]);
    // 没有 alpha、也没有遮罩：整张不透明
    assert_eq!(icon_pixels(&[1, 2, 3, 0], None), vec![3, 2, 1, 255]);
    // 没有 alpha：遮罩为 0 的不透明，其余透明
    assert_eq!(icon_pixels(&[1, 2, 3, 0, 4, 5, 6, 0], Some(&[0, 0, 0, 0, 255, 255, 255, 0])), vec![3, 2, 1, 255, 6, 5, 4, 0]);
}

#[test]
fn icons_become_png_images() {
    let icon = IconBits { width: 1, height: 1, color: Some(vec![10, 20, 30, 255]), mask: None };
    let b64 = icon_base64_png(&icon).unwrap();
    assert!(b64.starts_with("iVBORw0KGgo"), "{b64}");
    assert_eq!(icon_answer(Some(b64.clone())).unwrap(), b64);
    let none = IconBits { width: 0, height: 1, color: Some(vec![]), mask: None };
    assert!(icon_base64_png(&none).is_none());
    assert!(icon_answer(None).is_err());
}

// ---------- watching ----------

fn record(action: u32, name: &str, last: bool) -> Vec<u8> {
    let wide: Vec<u8> = name.encode_utf16().flat_map(|u| u.to_le_bytes()).collect();
    let len = 12 + wide.len();
    let padded = (len + 3) / 4 * 4;
    let mut b = Vec::new();
    b.extend_from_slice(&(if last { 0u32 } else { padded as u32 }).to_le_bytes());
    b.extend_from_slice(&action.to_le_bytes());
    b.extend_from_slice(&(wide.len() as u32).to_le_bytes());
    b.extend_from_slice(&wide);
    b.resize(padded, 0);
    b
}

#[test]
fn change_records_are_read_in_order() {
    let mut b = record(1, "a.txt", false);
    b.extend(record(3, "子目录\\b.txt", true));
    let v = read_records(&b);
    assert_eq!(v.len(), 2);
    assert_eq!(v[0].action, 1);
    assert_eq!(v[1].name.iter().collect::<String>(), "子目录\\b.txt");
    assert!(read_records(&[]).is_empty());
}

#[test]
fn renames_come_as_one_event() {
    let mut b = record(4, "old.txt", false);
    b.extend(record(5, "new.txt", true));
    let v = read_changes(&b, "D:\\w", None);
    assert_eq!(v.len(), 1);
    match &v[0] {
        RawEvent::Rename { old, new } => {
            assert_eq!(old, "D:\\w\\old.txt");
            assert_eq!(new, "D:\\w\\new.txt");
        }
        other => panic!("{other:?}"),
    }
}

#[test]
fn told_paths_are_whole() {
    let name: Vec<char> = "sub\\b.txt".chars().collect();
    assert_eq!(join_reported("\\\\?\\D:\\w", &name), "\\\\?\\D:\\w\\sub\\b.txt");
    assert_eq!(join_reported("D:\\w", &name), "D:\\w\\sub/b.txt");
    assert_eq!(join_reported("D:\\", &name), "D:\\sub/b.txt");
    assert_eq!(join_reported("D:", &name), "D:sub/b.txt");
}

#[test]
fn a_watched_file_hears_of_itself_only() {
    let mut b = record(3, "mine.txt", false);
    b.extend(record(3, "other.txt", true));
    assert_eq!(read_changes(&b, "D:\\w", Some("mine.txt")).len(), 1);
    assert_eq!(read_changes(&b, "D:\\w", None).len(), 2);
}

#[test]
fn readers_tell_why_they_end() {
    let (events, then) = reader_step(&ReaderInput::NotStarted("拒绝访问".to_string()), "D:\\w", None);
    assert!(matches!(then, ReaderThen::Stop));
    assert!(matches!(&events[0], RawEvent::Error(e) if e.contains("拒绝访问")));
    let (events, then) = reader_step(&ReaderInput::Read(record(1, "a", true)), "D:\\w", None);
    assert_eq!(events.len(), 1);
    assert!(matches!(then, ReaderThen::Start));
    let (events, then) = reader_step(&ReaderInput::Read(Vec::new()), "D:\\w", None);
    assert!(matches!(then, ReaderThen::Start));
    assert!(matches!(&events[0], RawEvent::Change { kind: "modified", path } if path == "D:\\w"));
}

#[test]
fn repeated_changes_are_put_together() {
    let mut d = Debounce::new();
    for now in [0, 100, 200] {
        let e = RawEvent::Change { kind: "modified", path: "a.txt".to_string() };
        assert!(d.note("w", e, now).is_none());
    }
    assert!(d.flush_due("w", 300, false).is_empty());
    let out = d.flush_due("w", 200 + DEBOUNCE_WINDOW, false);
    assert_eq!(out.len(), 1);
    assert_eq!(out[0].path, "a.txt");
    assert_eq!(out[0].watch_id, "w");
    let e = RawEvent::Change { kind: "created", path: "b.txt".to_string() };
    d.note("w", e, 1000);
    assert_eq!(d.flush_due("w", 1000, true).len(), 1, "收摊时全部补发");
    assert!(d.note("w", RawEvent::Error("断了".to_string()), 1).is_some());
}

#[test]
fn watches_have_owners_and_a_limit() {
    let mut w = Watches::new();
    let me = session("demo", false);
    for i in 0..MAX_WATCHES_PER_SESSION {
        assert!(w.may_start(&me).is_ok());
        w.add(format!("w{i}"), me.clone());
    }
    assert_eq!(w.count_for(&me), MAX_WATCHES_PER_SESSION);
    assert!(w.may_start(&me).is_err());
    assert!(w.may_start(&session("demo", true)).is_ok(), "调试会话单独计数");
    assert!(w.stop("w0", &session("demo", true)).is_err());
    assert!(w.stop("nope", &me).is_err());
    assert!(w.stop("w0", &me).is_ok());
    w.remove("w0");
    assert!(w.may_start(&me).is_ok());
    assert_ne!(new_watch_id(1, 5), new_watch_id(2, 5));
    assert_eq!(watch_target(true, "").unwrap(), WatchTarget::ParentOfFile);
    assert_eq!(watch_target(false, "sub").unwrap(), WatchTarget::Directory);
    assert!(watch_target(true, "sub").is_err());
    assert!(WatchTarget::Directory.is_recursive() && !WatchTarget::ParentOfFile.is_recursive());
    assert!(check_watched(WatchTarget::Directory, true).is_ok());
    assert_eq!(check_watched(WatchTarget::Directory, false).unwrap_err(), "监听目标不是文件夹");
    assert_eq!(check_watched(WatchTarget::ParentOfFile, false).unwrap_err(), "无法定位文件所在目录");
}
