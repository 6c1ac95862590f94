use itools_plugin::market::{
    check_declared, check_hash, check_preview_name, content_hash, describe, endpoint, entry_to_install, expect_of,
    fetch_capped, fetch_index, fetch_package, find_entry, hash_lines, latest_version, line_of, market_list,
    verify_content_hash, MarketEntry, MarketIndex, MAX_INDEX_BYTES,
};
use itools_plugin::table::Table;

fn files(entries: &[(&str, &[u8])]) -> Table<Vec<u8>> {
    let mut t = Table::new();
    for (n, c) in entries {
        t.insert(n.to_string(), c.to_vec());
    }
    t
}

fn hash_of(entries: &[(&str, &[u8])]) -> String {
    let lines: Vec<Vec<char>> = entries.iter().map(|(rel, c)| line_of(rel, c).chars().collect()).collect();
    hash_lines(&lines)
}

#[test]
fn content_hash_matches_node_golden() {
    assert_eq!(
        hash_of(&[("index.html", b"<h1>hi</h1>")]),
        "sha256:19211284cbca24a70a77c34606aa41d0750538c8ffee9fd7ed3916f90e575a59",
        "单文件"
    );

    assert_eq!(
        hash_of(&[
            ("index.html", b"<h1>hi</h1>".as_slice()),
            ("plugin.json", br#"{"name":"demo"}"#.as_slice()),
            ("assets/logo.png", [0x89u8, 0x50, 0x4e, 0x47].as_slice()),
        ]),
        "sha256:5298b33fa66beb06374e0164dc939880e1edf77df11258d30a8221b2205af38f",
        "典型插件（含子目录）"
    );

    assert_eq!(
        hash_of(&[
            ("a.txt", "a".as_bytes()),
            ("a/b.txt", "ab".as_bytes()),
            ("中文.txt", "zh".as_bytes()),
            ("\u{FF21}.txt", "fullwidth-A".as_bytes()),
            ("\u{1F600}.txt", "emoji".as_bytes()),
        ]),
        "sha256:f5d12a366e1cddbcc2e85e8ba65b193e1dd6ef00e30f45994af25655f875d218",
        "排序口径（UTF-8 字节序，不是 UTF-16 序）"
    );

    assert_eq!(
        hash_of(&[("empty.txt", b"")]),
        "sha256:0bb554efdf07f6e39bbec3980cb56dce47a344a7c5574cddf74f05e715ccd8aa",
        "空文件也必须参与哈希"
    );
}

#[test]
fn walks_dir_into_relative_paths() {
    let d = files(&[
        ("index.html", b"<h1>hi</h1>"),
        ("plugin.json", br#"{"name":"demo"}"#),
        ("assets/logo.png", &[0x89, 0x50, 0x4e, 0x47]),
    ]);
    assert_eq!(
        content_hash(&d),
        hash_of(&[
            ("index.html", b"<h1>hi</h1>".as_slice()),
            ("plugin.json", br#"{"name":"demo"}"#.as_slice()),
            ("assets/logo.png", [0x89u8, 0x50, 0x4e, 0x47].as_slice()),
        ]),
        "遍历的结果必须与同内容的内存条目一致"
    );
}

#[test]
fn verify_reports_both_sides() {
    let d = files(&[("a.txt", b"a")]);
    let real = content_hash(&d);
    assert!(verify_content_hash(&d, &real).is_ok());

    let err = verify_content_hash(&d, "sha256:deadbeef").unwrap_err();
    assert!(err.contains("sha256:deadbeef"), "错误里要有期望值");
    assert!(err.contains(&real), "错误里要有实际值，否则无从排查");
    assert!(err.contains("已拒绝安装"), "必须明确说明结果是拒绝，而不是含糊带过");
    assert!(check_hash("a", "a").is_ok());
    assert!(check_hash("a", "b").is_err());
}

#[test]
fn git_dir_is_skipped() {
    let without = content_hash(&files(&[("a.txt", b"a")]));
    let with = content_hash(&files(&[
        ("a.txt", b"a"),
        (".git/HEAD", b"ref: refs/heads/main"),
        (".git/config", b"[core]"),
    ]));
    assert_eq!(with, without, ".git 不得参与内容哈希");
}

fn item(name: &str, version: &str) -> MarketEntry {
    MarketEntry {
        name: name.to_string(),
        display_name: name.to_string(),
        description: String::new(),
        author: String::new(),
        version: version.to_string(),
        package: format!("/api/packages/{name}.zip"),
        content_hash: "sha256:abc".to_string(),
        reviewed_by: String::new(),
        published_at: 0,
        updated_at: 0,
        size_bytes: 0,
        readme: String::new(),
        category: String::new(),
        tags: vec![],
        keywords: vec![],
        permissions: vec![],
        permission_reasons: Table::new(),
        min_app_version: String::new(),
        license: String::new(),
        homepage: String::new(),
        source_repo: String::new(),
        screenshots: vec![],
        revoked: false,
        revoked_reason: String::new(),
        added_at: String::new(),
        audit_report: String::new(),
        file_count: 0,
    }
}

fn index(plugins: Vec<MarketEntry>) -> MarketIndex {
    MarketIndex { version: 1, review_mode: "strict".to_string(), review_model: "m".to_string(), plugins }
}

#[test]
fn requests_need_a_server() {
    assert!(endpoint(None).is_err());
    assert_eq!(endpoint(Some("https://m.example/".to_string())).unwrap(), "https://m.example/");
    assert_eq!(item("demo", "1").package_url("https://m.example//"), "https://m.example/api/packages/demo.zip");
    let mut bare = item("demo", "1");
    bare.package = String::new();
    assert_eq!(bare.package_url("https://m.example"), "https://m.example/api/market/package/demo");
    assert!(fetch_index(None).is_err());
    let f = fetch_index(Some("https://m.example".to_string())).unwrap();
    assert!(f.url.starts_with("https://m.example/"));
    assert_eq!(f.max_bytes, MAX_INDEX_BYTES);
    let p = fetch_package(&item("demo", "1.0.0"), Some("https://m.example".to_string())).unwrap();
    assert!(p.url.starts_with("https://m.example/"), "{}", p.url);
    assert_eq!(item("demo", "1.0.0").source_url(), "itools-market://demo");
}

#[test]
fn answers_have_a_limit() {
    assert!(check_declared(Some("10"), 10, "索引").is_ok());
    assert!(check_declared(Some("11"), 10, "索引").is_err());
    assert!(check_declared(None, 10, "索引").is_ok());
    assert_eq!(fetch_capped(Ok(vec![1, 2]), 2, "索引").unwrap(), vec![1, 2]);
    assert!(fetch_capped(Ok(vec![1, 2, 3]), 2, "索引").is_err());
    assert!(fetch_capped(Err("断".to_string()), 2, "索引").unwrap_err().contains("断"));
    assert_eq!(describe(404, "没有"), "HTTP 404：服务器上没有这个端点或插件（请确认服务器地址与版本）");
    assert_eq!(describe(429, ""), "HTTP 429：请求过于频繁，已被服务端限流，请稍后再试");
    assert_eq!(describe(503, "忙"), "HTTP 503：服务端出错。忙");
    assert_eq!(describe(403, "不行"), "HTTP 403。不行");
}

#[test]
fn entries_are_found_by_name() {
    let idx = Ok(index(vec![item("demo", "1.2.0")]));
    assert_eq!(find_entry(&idx, "demo").unwrap().version, "1.2.0");
    assert!(find_entry(&idx, "none").is_err());
    assert_eq!(entry_to_install(&idx, "demo").unwrap().name, "demo");
    assert_eq!(expect_of(&item("demo", "1")).as_deref(), Some("sha256:abc"));
    let mut gone = item("gone", "1.0.0");
    gone.revoked = true;
    gone.revoked_reason = "有问题".to_string();
    let idx = Ok(index(vec![gone]));
    assert!(entry_to_install(&idx, "gone").is_err(), "下架的不能装");
    assert!(find_entry(&Err("离线".to_string()), "demo").is_err());
    assert!(check_preview_name("demo", "demo").is_ok());
    assert!(check_preview_name("demo", "other").is_err());
}

#[test]
fn the_latest_version_comes_from_the_index() {
    assert_eq!(latest_version(Ok(index(vec![item("demo", "2.0.0")])), "demo").unwrap().as_deref(), Some("2.0.0"));
    assert_eq!(latest_version(Ok(index(vec![])), "demo").unwrap(), None);
    assert!(latest_version(Err("离线".to_string()), "demo").is_err());
}

#[test]
fn the_cache_stands_in_when_offline() {
    let online = market_list(Ok(index(vec![item("a", "1")])), None, Table::new(), Some("s".to_string()));
    assert_eq!(online.plugins.len(), 1);
    assert!(online.error.is_none());
    let cached = market_list(Err("离线".to_string()), Some(index(vec![item("b", "1")])), Table::new(), None);
    assert_eq!(cached.plugins[0].name, "b");
    assert!(cached.error.is_some());
    assert_ne!(online.origin, cached.origin);
    let none = market_list(Err("离线".to_string()), None, Table::new(), None);
    assert!(none.plugins.is_empty() && none.error.is_some());
}
