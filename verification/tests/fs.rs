use itools_plugin::commands::read_base64;
use itools_plugin::fs_api::{
    check_access, check_algo, check_chunk, check_extract_base, check_landing, check_list, dir_title, file_base64,
    file_hash, file_title, is_file_scope, label_of, new_scope_id, open_scope, plan_existing, plan_extract, plan_write,
    plugin_scope_store_dir, reject_itools_data_root, resolve_existing, resolve_extract_dir, resolve_for_write,
    scope_relative, stat_name, strip_extended_prefix, FsScope, PickDirOptions, Picked, ScopeStore, WritePlan, MAX_CHUNK_LEN,
};
use itools_plugin::session::ActiveSession;

fn strings(v: &[&str]) -> Vec<String> {
    v.iter().map(|s| s.to_string()).collect()
}

fn roots() -> Vec<Vec<String>> {
    vec![strings(&["C:", "itools"])]
}

fn scope(id: &str, kind: &str) -> FsScope {
    FsScope {
        id: id.to_string(),
        kind: kind.to_string(),
        path: "C:\\work".to_string(),
        label: "work".to_string(),
        created: 1,
    }
}

#[test]
fn scopes_are_added_found_and_revoked() {
    let mut s = ScopeStore { scopes: vec![] };
    s.add_scope(scope("a", "dir"));
    s.add_scope(scope("b", "file"));
    assert_eq!(s.resolve_scope("a").unwrap().kind, "dir");
    assert!(s.resolve_scope("c").is_err());
    assert!(s.revoke("a").is_ok());
    assert!(s.resolve_scope("a").is_err());
    assert!(s.revoke("a").is_err());
    assert!(s.resolve_scope("b").is_ok());
}

#[test]
fn scope_stores_are_kept_apart() {
    let dev = plugin_scope_store_dir(&ActiveSession { id: "demo".to_string(), dev: true });
    let prod = plugin_scope_store_dir(&ActiveSession { id: "demo".to_string(), dev: false });
    assert_ne!(dev, prod);
    assert!(prod.contains(&"demo".to_string()));
}

#[test]
fn scope_ids_are_digests() {
    let a = new_scope_id(1, 2, 3, 4);
    assert_eq!(a.len(), 64);
    assert!(a.chars().all(|c| c.is_ascii_hexdigit()));
    assert_ne!(a, new_scope_id(1, 3, 3, 4));
    assert_eq!(a, new_scope_id(1, 2, 3, 4));
}

#[test]
fn own_data_cannot_be_picked() {
    assert!(reject_itools_data_root(&strings(&["C:", "itools", "x"]), &roots()).is_err());
    assert!(reject_itools_data_root(&strings(&["C:", "itools2"]), &roots()).is_ok());
    let picked = |pieces: &[&str], of_kind: bool| Picked {
        whole: "\\\\?\\C:\\work".to_string(),
        pieces: strings(pieces),
        file_name: Some("work".to_string()),
        of_kind,
    };
    let ok = open_scope(true, &picked(&["C:", "work"], true), &roots(), "id".to_string(), 9).unwrap();
    assert_eq!((ok.kind.as_str(), ok.label.as_str(), ok.path.as_str(), ok.created), ("dir", "work", "C:\\work", 9));
    assert!(open_scope(true, &picked(&["C:", "itools"], true), &roots(), "id".to_string(), 9).is_err());
    assert!(open_scope(false, &picked(&["C:", "work"], false), &roots(), "id".to_string(), 9).is_err());
    assert_eq!(strip_extended_prefix("\\\\?\\C:\\a"), "C:\\a");
    assert_eq!(strip_extended_prefix("\\\\?\\UNC\\s\\a"), "\\\\s\\a");
    assert_eq!(strip_extended_prefix("C:\\a"), "C:\\a");
    assert_eq!(label_of(Some("n".to_string()), "w"), "n");
    assert_eq!(label_of(None, "C:\\"), "C:\\");
}

#[test]
fn paths_in_a_scope_are_relative() {
    assert_eq!(scope_relative("a/b.txt").unwrap(), strings(&["a", "b.txt"]));
    for bad in ["../x", "/etc", "C:\\x", "a/../../b"] {
        assert!(scope_relative(bad).is_err(), "{bad}");
    }
    assert!(is_file_scope(&scope("a", "file")));
    assert!(plan_existing(&scope("a", "file"), "x").is_err());
    assert_eq!(plan_existing(&scope("a", "dir"), "x/y").unwrap(), strings(&["x", "y"]));
    assert!(plan_existing(&scope("a", "file"), "").unwrap().is_empty());
}

#[test]
fn reached_paths_stay_in_their_scope() {
    let base = strings(&["C:", "work"]);
    let inside = strings(&["C:", "work", "a"]);
    assert_eq!(resolve_existing(Ok(base.clone()), Ok(inside.clone()), &roots()).unwrap(), inside);
    assert!(resolve_existing(Ok(base.clone()), Ok(strings(&["C:", "other"])), &roots()).is_err());
    assert!(resolve_existing(Err("gone".to_string()), Ok(inside.clone()), &roots()).is_err());
    assert!(resolve_existing(Ok(base.clone()), Err("gone".to_string()), &roots()).is_err());
    assert!(resolve_existing(Ok(strings(&["C:"])), Ok(strings(&["C:", "itools", "db"])), &roots()).is_err());
}

#[test]
fn writes_stay_in_their_scope() {
    let base = strings(&["C:", "work"]);
    match plan_write(&scope("a", "dir"), "./sub\\n.txt", &Ok(base.clone()), &roots()).unwrap() {
        WritePlan::Below { dir, name } => assert_eq!((dir, name.as_str()), (strings(&["sub"]), "n.txt")),
        other => panic!("{other:?}"),
    }
    assert!(matches!(plan_write(&scope("a", "file"), "", &Ok(base.clone()), &roots()).unwrap(), WritePlan::ScopeItself(_)));
    assert!(matches!(plan_write(&scope("a", "dir"), ".", &Ok(base.clone()), &roots()).unwrap(), WritePlan::ScopeDirectory));
    assert!(plan_write(&scope("a", "file"), "x", &Ok(base.clone()), &roots()).is_err());
    assert!(plan_write(&scope("a", "dir"), "", &Ok(base.clone()), &roots()).is_err());
    let here: Result<Vec<String>, String> = Ok(base.clone());
    let parent = || Some(Ok(strings(&["C:", "work", "sub"])));
    let dir = scope("a", "dir");
    let to = resolve_for_write(&dir, "sub/n.txt", &here, parent(), &roots()).unwrap();
    assert_eq!(to, strings(&["C:", "work", "sub", "n.txt"]));
    assert_eq!(resolve_for_write(&scope("a", "file"), "", &here, None, &roots()).unwrap(), base);
    let err = resolve_for_write(&dir, "sub/..", &here, parent(), &roots()).unwrap_err();
    assert!(err.contains("相对路径"), "{err}");
    let err = resolve_for_write(&dir, "n", &here, Some(Ok(strings(&["C:"]))), &roots()).unwrap_err();
    assert_eq!(err, "路径越出 scope 范围");
    let above = Some(Ok(strings(&["C:"])));
    assert_eq!(resolve_for_write(&dir, ".", &here, above, &roots()).unwrap_err(), "路径越出 scope 范围");
    let mut linked = scope("a", "dir");
    linked.path = "C:\\work\\sub\\up".to_string();
    let to = resolve_for_write(&linked, "./.", &here, parent(), &roots()).unwrap();
    assert_eq!(to, strings(&["C:", "work", "sub", "up"]));
    linked.path = "C:\\work\\..".to_string();
    assert_eq!(resolve_for_write(&linked, ".", &here, parent(), &roots()).unwrap_err(), "非法路径（缺文件名）");
    assert_eq!(resolve_for_write(&dir, "n", &here, None, &roots()).unwrap_err(), "非法路径");
    let err = resolve_for_write(&dir, "n", &here, Some(Err("gone".to_string())), &roots()).unwrap_err();
    assert_eq!(err, "目标所在目录不存在: gone");
    let gone: Result<Vec<String>, String> = Err("gone".to_string());
    assert!(resolve_for_write(&dir, "n", &gone, parent(), &roots()).is_err());
}

#[test]
fn archives_are_unpacked_inside_a_scope() {
    let base = strings(&["C:", "work"]);
    assert!(plan_extract(&scope("a", "file"), "").is_err());
    assert_eq!(plan_extract(&scope("a", "dir"), "out").unwrap(), strings(&["out"]));
    assert_eq!(check_extract_base(Ok(base.clone()), &roots()).unwrap(), base);
    assert!(check_extract_base(Ok(strings(&["C:", "itools"])), &roots()).is_err());
    assert!(resolve_extract_dir(&base, Ok(strings(&["C:", "work", "out"])), &roots()).is_ok());
    assert!(resolve_extract_dir(&base, Ok(strings(&["C:", "else"])), &roots()).is_err());
    assert!(check_landing(&base, &strings(&["C:", "work", "out"]), "a.txt").is_ok());
    assert!(check_landing(&base, &strings(&["C:", "else"]), "a.txt").is_err());
}

#[test]
fn files_are_hashed_and_encoded() {
    assert!(check_algo("sha256").is_ok());
    assert!(check_algo("md5").is_err());
    assert_eq!(
        file_hash(Some(b"abc".to_vec())).unwrap(),
        "ba7816bf8f01cfea414140de5dae2223b00361a396177a9cb410ff61f20015ad"
    );
    assert!(file_hash(None).is_err());
    assert_eq!(file_base64(Some(b"abc".to_vec())).unwrap(), "YWJj");
    assert!(file_base64(None).is_err());
    assert!(check_chunk(MAX_CHUNK_LEN).is_ok());
    assert!(check_chunk(MAX_CHUNK_LEN + 1).is_err());
}

#[test]
fn dialogs_have_titles() {
    assert!(!dir_title(None).is_empty());
    assert_eq!(dir_title(Some(PickDirOptions { title: Some("选".to_string()) })), "选");
    assert!(!file_title(None).is_empty());
    assert_eq!(file_title(Some("选".to_string())), "选");
    assert!(check_access(true).is_ok());
    assert!(check_access(false).is_err());
    assert!(check_list(&scope("a", "dir"), Some(true)).is_ok());
    assert!(check_list(&scope("a", "dir"), Some(false)).is_err());
    assert!(check_list(&scope("a", "file"), Some(true)).is_err());
    assert_eq!(stat_name(Some("x".to_string()), &scope("a", "dir")), "x");
    assert_eq!(stat_name(None, &scope("a", "dir")), "work");
}

#[test]
fn files_can_be_written_back() {
    let bytes = vec![0u8, 1, 2, 250, 255, b'\n'];
    let text = file_base64(Some(bytes.clone())).unwrap();
    assert_eq!(text, "AAEC+v8K");
    assert_eq!(read_base64(&text).unwrap(), bytes);
    assert_eq!(read_base64("  AAEC+v8K\n").unwrap(), bytes);
    assert!(read_base64("AAEC+v8").unwrap_err().starts_with("base64 解码失败: "));
}
