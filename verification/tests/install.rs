use itools_plugin::install::archive::{check_written, denied_ext, extract_zip, marks_link, safe_entry_path};
use itools_plugin::install::download::{check_digest, download_capped, with_token, Kind};
use itools_plugin::install::lock::{forget, read_lock, update_lock, InstalledEntry, LockFile, LOCK_VERSION};
use itools_plugin::install::package::{finish_stage, single_root, stage_from_bytes, stage_from_source, Fetched, StagedPackage};
use itools_plugin::install::place::{atomic_place, place_result, recover_dir, recover_orphans, retry_delay, PlaceAction, PlaceState};
use itools_plugin::install::preview::{
    new_token, preview_from_market_package, preview_impl, preview_request, Extras, Place,
};
use itools_plugin::install::redact::redact_token;
use itools_plugin::install::source::{
    allowed_hosts, is_pinned, is_valid_plugin_name, parse_git_url, parse_git_url_with, Forge, GitSource, MARKET_HOST,
};
use itools_plugin::install::staging::{
    build_preview, clear_permissions, hold_preview, init_builtins, installed_record, is_builtin, plugin_install_confirm,
    read_readme, Confirm, InstallStaging, MAX_README_CHARS, STAGING_TTL_NANOS,
};
use itools_plugin::install::update::{
    check_broke_off, check_one, check_targets, check_update, finish_market_update, judge_market, judge_probe,
    market_label, plugin_update, source_page, update_step, CheckStep, Probe, UpdateStep,
};
use itools_plugin::install::version::version_gt;
use itools_plugin::manifest::{keyword_cmds, Cmd, Feature, PluginManifest};
use itools_plugin::market::{content_hash, MarketEntry};
use itools_plugin::table::Table;
use std::io::Write;

/// Where archives are unpacked to.
const RAW: &str = "\\\\?\\C:\\plugins\\.staging\\t\\raw";

fn hosts() -> Vec<(String, Forge)> {
    vec![
        ("github.com".to_string(), Forge::GitHub),
        ("gitee.com".to_string(), Forge::Gitee),
    ]
}

fn git(url: &str) -> GitSource {
    parse_git_url_with(url, &hosts()).unwrap()
}

fn entry(url: &str, version: &str) -> InstalledEntry {
    InstalledEntry { source: git(url), resolved_version: version.to_string(), installed_at: "x".to_string() }
}

// ---------- 市场来源 ----------

#[test]
fn market_source_parses_and_is_recognized() {
    let s = parse_git_url("itools-market://deskbox", None).unwrap();
    assert!(s.is_market());
    assert_eq!(s.host, MARKET_HOST);
    assert_eq!(s.repo, "deskbox");
    assert_eq!(s.url, "itools-market://deskbox");
    assert!(!is_pinned(&s.revision));
}

#[test]
fn market_source_survives_lock_roundtrip() {
    let mut lock = LockFile { version: LOCK_VERSION, plugins: Table::new() };
    let source = parse_git_url("itools-market://deskbox", None).unwrap();
    update_lock(
        &mut lock,
        "deskbox".to_string(),
        InstalledEntry { source, resolved_version: "1.0.0".into(), installed_at: "x".into() },
    );
    let back = read_lock(Some(lock), &["deskbox".to_string()], &hosts());
    let e = back.plugins.get("deskbox").expect("市场来源的记录必须能读回来");
    assert!(e.source.is_market());
    assert_eq!(e.source.repo, "deskbox");
}

#[test]
fn market_source_rejected_by_git_download_path() {
    let s = parse_git_url("itools-market://deskbox", None).unwrap();
    let err = download_capped(&s, Kind::Archive, "", 1, 1024, "下载插件归档", None, None, None)
        .err()
        .expect("市场来源必须被 Git 下载路径拒绝");
    assert!(err.contains("插件市场"), "{err}");
    assert!(err.contains("deskbox"), "{err}");
}

#[test]
fn market_source_has_no_repo_page() {
    let s = parse_git_url("itools-market://deskbox", None).unwrap();
    assert!(s.verified_page_url(&hosts()).is_err());
}

#[test]
fn market_source_name_is_validated() {
    assert!(parse_git_url("itools-market://Bad Name", None).is_err());
    assert!(parse_git_url("itools-market://../etc", None).is_err());
    assert!(parse_git_url("itools-market://", None).is_err());
}

// ---------- 从 zip 字节 stage ----------

fn zip_of(entries: &[(&str, &[u8])]) -> Vec<u8> {
    let mut buf = Vec::new();
    {
        let mut w = zip::ZipWriter::new(std::io::Cursor::new(&mut buf));
        let opts: zip::write::FileOptions<'_, ()> =
            zip::write::FileOptions::default().compression_method(zip::CompressionMethod::Deflated);
        for (n, c) in entries {
            if n.ends_with('/') {
                w.add_directory(*n, opts).unwrap();
            } else {
                w.start_file(*n, opts).unwrap();
                w.write_all(c).unwrap();
            }
        }
        w.finish().unwrap();
    }
    buf
}

fn plugin_zip(name: &str, version: &str, extra: &[(&str, &[u8])]) -> Vec<u8> {
    let json = format!("{{\"name\":\"{name}\",\"version\":\"{version}\"}}");
    let mut all: Vec<(&str, &[u8])> = vec![("plugin.json", json.as_bytes()), ("index.html", b"<html></html>")];
    all.extend_from_slice(extra);
    zip_of(&all)
}

fn manifest(name: &str, version: &str) -> PluginManifest {
    PluginManifest {
        name: name.to_string(),
        version: version.to_string(),
        description: "d".to_string(),
        author: String::new(),
        permissions: vec!["network".to_string()],
        features: vec![Feature {
            code: "main".to_string(),
            cmds: vec![Cmd::Keyword(name.to_string()), Cmd::Other, Cmd::Keyword("second".to_string())],
        }],
    }
}

fn staged_demo(version: &str) -> StagedPackage {
    let staged = stage_from_bytes(plugin_zip("demo", version, &[]), RAW, "插件市场（测试）").unwrap();
    finish_stage(staged, manifest("demo", version), None).unwrap()
}

#[test]
fn stage_from_bytes_extracts_and_parses() {
    let zip = plugin_zip("demo", "1.2.3", &[("assets/app.js", b"console.log(1)")]);
    let staged = stage_from_bytes(zip, RAW, "插件市场（测试）").unwrap();
    let pkg = finish_stage(staged, manifest("demo", "1.2.3"), None).unwrap();
    assert_eq!(pkg.manifest.name, "demo");
    assert_eq!(pkg.manifest.version, "1.2.3");
    assert_eq!(pkg.files.get("index.html").unwrap(), b"<html></html>");
    assert_eq!(pkg.files.get("assets/app.js").unwrap(), b"console.log(1)");
    assert!(!pkg.hash_verified);
    assert!(!pkg.via_mirror);
    assert_eq!(pkg.download_source, "插件市场（测试）");
}

#[test]
fn stage_from_bytes_verifies_content_hash() {
    let zip = plugin_zip("demo", "1.0.0", &[]);
    let probe = stage_from_bytes(zip.clone(), RAW, "市场").unwrap();
    let probe = finish_stage(probe, manifest("demo", "1.0.0"), None).unwrap();
    let real = content_hash(&probe.files);

    let ok = stage_from_bytes(zip.clone(), RAW, "市场").unwrap();
    let ok = finish_stage(ok, manifest("demo", "1.0.0"), Some(&real)).unwrap();
    assert!(ok.hash_verified);

    let bad = "sha256:0000000000000000000000000000000000000000000000000000000000000000";
    let staged = stage_from_bytes(zip, RAW, "市场").unwrap();
    let err = finish_stage(staged, manifest("demo", "1.0.0"), Some(bad)).err().expect("内容哈希对不上必须拒绝");
    assert!(err.contains("内容校验失败"), "{err}");
}

#[test]
fn stage_from_bytes_rejects_executables() {
    let zip = plugin_zip("demo", "1.0.0", &[("payload.exe", b"MZ")]);
    let err = stage_from_bytes(zip, RAW, "市场").err().expect("包内含可执行文件必须整包拒绝");
    assert!(err.contains(".exe"), "{err}");
}

#[test]
fn stage_from_bytes_accepts_wrapped_single_root() {
    let zip = zip_of(&[("demo/plugin.json", b"{}"), ("demo/index.html", b"<html></html>")]);
    let staged = stage_from_bytes(zip, RAW, "市场").unwrap();
    assert!(staged.files.contains("plugin.json"));
    assert!(staged.files.contains("index.html"));
    assert_eq!(staged.files.len(), 2);
}

#[test]
fn strip_single_root_needs_one_directory_on_top() {
    // 再加一个顶层项 → 不剥，于是根上没有清单
    let zip = zip_of(&[("repo-main/plugin.json", b"{}"), ("README.md", b"x")]);
    assert!(stage_from_bytes(zip, RAW, "市场").is_err());
}

#[test]
fn sub_path_is_taken_out_of_the_archive() {
    let source = git("https://github.com/u/r.git?path=/plugins/foo");
    let zip = zip_of(&[
        ("r-HEAD/plugins/foo/plugin.json", b"{}"),
        ("r-HEAD/plugins/foo/index.html", b"foo"),
        ("r-HEAD/plugins/bar/index.html", b"bar"),
    ]);
    let got = Fetched { bytes: zip, source_label: "GitHub".to_string(), via_mirror: true, hash_verified: false };
    let staged = stage_from_source(&source, got, RAW).unwrap();
    assert_eq!(staged.files.get("index.html").unwrap(), b"foo");
    assert!(staged.via_mirror);
    assert_eq!(staged.files.len(), 2);
    let none = git("https://github.com/u/r.git?path=/plugins/none");
    let zip = zip_of(&[("r-HEAD/plugin.json", b"{}")]);
    let got = Fetched { bytes: zip, source_label: "GitHub".to_string(), via_mirror: false, hash_verified: false };
    assert!(stage_from_source(&none, got, RAW).is_err());
}

#[test]
fn broken_archives_are_refused() {
    assert!(extract_zip(b"not a zip".to_vec(), RAW).is_err());
    assert!(extract_zip(zip_of(&[("../evil.js", b"x")]), RAW).is_err());
    let ok = extract_zip(zip_of(&[("a/", b""), ("a/b.js", b"12345")]), RAW).unwrap();
    assert_eq!(ok.len(), 2);
    assert!(ok[0].data.is_none());
    assert_eq!(ok[1].path, vec!["a".to_string(), "b.js".to_string()]);
    assert_eq!(ok[1].data.as_deref(), Some(b"12345".as_slice()));
}

#[test]
fn extraction_limits_are_exact() {
    assert_eq!(check_written("a", 16_777_216, 0), Ok(16_777_216));
    assert!(check_written("a", 16_777_217, 0).is_err());
    assert_eq!(check_written("a", 1, 33_554_431), Ok(33_554_432));
    assert!(check_written("a", 1, 33_554_432).is_err());
    assert!(marks_link(Some(0o120777)));
    assert!(!marks_link(Some(0o100644)));
    assert!(!marks_link(None));
}

// ---------- 解析 ----------

#[test]
fn parse_basic() {
    let s = parse_git_url_with("https://gitee.com/user/repo.git", &hosts()).unwrap();
    assert_eq!(s.host, "gitee");
    assert_eq!(s.domain, "gitee.com");
    assert_eq!(s.real_host(), "gitee.com");
    assert_eq!(s.owner, "user");
    assert_eq!(s.repo, "repo");
    assert_eq!(s.sub_path, "");
    assert_eq!(s.revision, "");
    assert_eq!(s.url, "https://gitee.com/user/repo.git");
    assert_eq!(s.page_url, "https://gitee.com/user/repo");
    assert_eq!(s.git_ref(), "HEAD");
    assert_eq!(s.archive_url(), "https://gitee.com/user/repo/repository/archive/HEAD.zip");
    assert_eq!(s.raw_url(&s.manifest_rel()), "https://gitee.com/user/repo/raw/HEAD/plugin.json");
}

#[test]
fn parse_without_git_suffix_and_trailing_slash() {
    let s = parse_git_url_with("https://GitHub.com/User/Repo/", &hosts()).unwrap();
    assert_eq!(s.host, "github");
    assert_eq!(s.owner, "User");
    assert_eq!(s.repo, "Repo");
    assert_eq!(s.url, "https://github.com/User/Repo.git");
    assert_eq!(s.archive_url(), "https://codeload.github.com/User/Repo/zip/HEAD");
    assert_eq!(s.raw_url("plugin.json"), "https://raw.githubusercontent.com/User/Repo/HEAD/plugin.json");
}

#[test]
fn parse_www_prefix_is_equivalent() {
    let s = parse_git_url_with("https://www.gitee.com/u/r.git", &hosts()).unwrap();
    assert_eq!(s.page_url, "https://gitee.com/u/r");
}

#[test]
fn parse_revision_and_path() {
    let s = parse_git_url_with("https://gitee.com/user/repo.git#v1.2.3", &hosts()).unwrap();
    assert_eq!(s.revision, "v1.2.3");
    assert_eq!(s.git_ref(), "v1.2.3");

    let s = parse_git_url_with("https://github.com/user/repo.git?path=/plugins/foo", &hosts()).unwrap();
    assert_eq!(s.sub_path, "plugins/foo");
    assert_eq!(s.url, "https://github.com/user/repo.git?path=/plugins/foo");
    assert_eq!(s.manifest_rel(), "plugins/foo/plugin.json");

    let s = parse_git_url_with("https://github.com/user/repo.git?path=/plugins/foo#dev", &hosts()).unwrap();
    assert_eq!(s.sub_path, "plugins/foo");
    assert_eq!(s.revision, "dev");
    assert_eq!(s.url, "https://github.com/user/repo.git?path=/plugins/foo#dev");
    // 规范化后的 URL 可原样再次解析（幂等）
    let again = parse_git_url_with(&s.url, &hosts()).unwrap();
    assert_eq!(again.url, s.url);

    // path 前后斜杠都容忍
    let s = parse_git_url_with("https://gitee.com/u/r.git?path=plugins/foo/", &hosts()).unwrap();
    assert_eq!(s.sub_path, "plugins/foo");
}

#[test]
fn parse_rejects_bad_input() {
    let bad = [
        "",
        "git@gitee.com:user/repo.git",
        "ssh://git@gitee.com/user/repo.git",
        "file:///C:/tmp/repo",
        "http://gitee.com/user/repo.git",
        "https://evil.com/user/repo.git",
        "https://gitee.com/user",
        "https://gitee.com/user/repo/extra",
        "https://gitee.com/user/repo.git?path=/a/../../etc",
        "https://gitee.com/user/repo.git?path=..",
        "https://gitee.com/user/repo.git?ref=main",
        "https://gitee.com/user/repo.git#bad rev",
        "https://gitee.com/user/repo.git#a..b",
        "https://gitee.com:8443/user/repo.git",
        "https://gitee.com/user/repo.git?path=/C:/foo",
        "https://gitee.com/user/repo.git?path=/c:",
        "https://gitee.com/user/repo.git?path=/a?b",
        "https://gitee.com/user/repo.git?path=/a b",
    ];
    for b in bad {
        assert!(parse_git_url_with(b, &hosts()).is_err(), "本应拒绝但通过了: {b}");
    }
}

#[test]
fn extra_hosts_are_honored() {
    let allowed = vec![
        ("gitee.com".to_string(), Forge::Gitee),
        ("git.corp.com".to_string(), Forge::GitHub),
    ];
    let s = parse_git_url_with("https://git.corp.com/u/r.git", &allowed).unwrap();
    assert_eq!(s.host, "github");
    assert_eq!(s.page_url, "https://git.corp.com/u/r");
    assert_eq!(s.archive_url(), "https://git.corp.com/u/r/archive/HEAD.zip");
    assert!(parse_git_url_with("https://github.com/u/r.git", &allowed).is_err());
}

#[test]
fn configured_hosts_join_the_built_in_ones() {
    let hosts = allowed_hosts(Some("git.corp.com"));
    assert!(parse_git_url_with("https://git.corp.com/u/r.git", &hosts).is_ok());
    assert!(parse_git_url_with("https://github.com/u/r.git", &hosts).is_ok());
    assert!(parse_git_url_with("https://git.corp.com/u/r.git", &allowed_hosts(None)).is_err());
}

#[test]
fn zip_slip_entries_rejected() {
    for bad in [
        "../evil.js",
        "a/../../evil.js",
        "/etc/passwd",
        "C:/Windows/evil.js",
        "a\\..\\..\\evil.js",
        "..",
        "",
        "a/ /b",
        "payload.exe.",
        "a/b./c.js",
        "trailing ",
    ] {
        assert!(safe_entry_path(bad).is_err(), "本应拒绝但通过了: {bad:?}");
    }
    assert_eq!(
        safe_entry_path("repo-main/index.html").unwrap(),
        vec!["repo-main".to_string(), "index.html".to_string()]
    );
    assert_eq!(
        safe_entry_path("repo-main//assets/").unwrap(),
        vec!["repo-main".to_string(), "assets".to_string()]
    );
    assert_eq!(safe_entry_path("repo\\a.js").unwrap(), vec!["repo".to_string(), "a.js".to_string()]);
}

#[test]
fn executable_extensions_rejected() {
    for bad in [
        "a.exe", "x/y.DLL", "s.Ps1", "m.msi", "j.jar", "c.cpl", "s.lnk", "u.URL", "h.hta", "r.reg", "s.scf", "p.pif",
        "m.msc", "payload.exe.", "x/y.dll. ",
    ] {
        assert!(denied_ext(bad).is_some(), "本应拒收但放行了: {bad}");
    }
    for ok in ["index.html", "a.js", "logo.png", "README.md", "s.json", "LICENSE", ".gitignore"] {
        assert!(denied_ext(ok).is_none(), "本应放行但拒收了: {ok}");
    }
}

#[test]
fn redact_masks_access_token() {
    let leaked = "下载插件归档失败：https://gitee.com/u/r/repository/archive/HEAD.zip?access_token=abc123SECRET: io: timed out".to_string();
    let safe = redact_token(leaked);
    assert!(!safe.contains("abc123SECRET"), "令牌仍在: {safe}");
    assert!(safe.contains("access_token=***"), "脱敏形态不对: {safe}");
    assert!(safe.contains(": io: timed out"), "错误原因被误删: {safe}");

    let s = redact_token("a?x=1&ACCESS_TOKEN=tok1&y=2 和 access_token=tok2".to_string());
    assert_eq!(s, "a?x=1&ACCESS_TOKEN=***&y=2 和 access_token=***");

    let plain = "检查插件更新失败：仓库不存在（中文）".to_string();
    assert_eq!(redact_token(plain.clone()), plain);
    assert_eq!(redact_token("access_token=中文令牌&next=1".to_string()), "access_token=***&next=1");
}

#[test]
fn single_root_detection() {
    assert_eq!(single_root(&[("repo-main".to_string(), true)]), Some("repo-main".to_string()));
    // 只有一个顶层文件 → 不剥
    assert_eq!(single_root(&[("plugin.json".to_string(), false)]), None);
    // 多个顶层项 → 不剥
    assert_eq!(single_root(&[("a".to_string(), true), ("b".to_string(), true)]), None);
    assert_eq!(single_root(&[]), None);
}

#[test]
fn version_compare() {
    assert!(version_gt("1.2.3", "1.2.2"));
    assert!(version_gt("v1.3.0", "1.2.9"));
    assert!(version_gt("1.0.0", "0.9.9"));
    assert!(version_gt("1.2.1", "1.2"));
    assert!(!version_gt("1.2.3", "1.2.3"));
    assert!(!version_gt("1.2.2", "1.2.3"));
    assert!(!version_gt("1.2", "1.2.0"));
}

#[test]
fn plugin_name_validation() {
    for ok in ["base64", "a", "0abc", "my.plugin_v2-x"] {
        assert!(is_valid_plugin_name(ok), "本应合法: {ok}");
    }
    for bad in [
        "",
        ".",
        "..",
        "-lead",
        "UpperCase",
        "has space",
        "a/b",
        "a\\b",
        "中文名",
        &"x".repeat(65),
    ] {
        assert!(!is_valid_plugin_name(bad), "本应非法: {bad}");
    }
}

#[test]
fn pinned_detection() {
    assert!(is_pinned(&"a".repeat(40)));
    assert!(is_pinned("0123456789abcdef0123456789abcdef01234567"));
    assert!(!is_pinned("main"));
    assert!(!is_pinned(""));
    assert!(!is_pinned(&"z".repeat(40)));
    assert!(!is_pinned(&"a".repeat(39)));
}

// ---------- 锁文件 ----------

#[test]
fn lock_file_roundtrip() {
    let none = read_lock(None, &["demo".to_string()], &hosts());
    assert_eq!(none.plugins.len(), 0);
    assert_eq!(none.version, LOCK_VERSION);

    let source = git("https://gitee.com/u/r.git?path=/plugins/demo#v1.0.0");
    let mut lock = LockFile { version: LOCK_VERSION, plugins: Table::new() };
    update_lock(
        &mut lock,
        "demo".to_string(),
        InstalledEntry {
            source,
            resolved_version: "1.0.2".to_string(),
            installed_at: "2026-08-12T10:00:00+08:00".to_string(),
        },
    );
    let back = read_lock(Some(lock), &["demo".to_string()], &hosts());
    assert_eq!(back.version, LOCK_VERSION);
    let e = back.plugins.get("demo").expect("应存在 demo 记录");
    assert_eq!(e.resolved_version, "1.0.2");
    assert_eq!(e.installed_at, "2026-08-12T10:00:00+08:00");
    assert_eq!(e.source.host, "gitee");
    assert_eq!(e.source.domain, "gitee.com");
    assert_eq!(e.source.sub_path, "plugins/demo");
    assert_eq!(e.source.revision, "v1.0.0");
}

#[test]
fn legacy_lock_without_domain_is_compatible() {
    let source = || GitSource {
        host: "github".to_string(),
        domain: String::new(),
        owner: "u".to_string(),
        repo: "r".to_string(),
        sub_path: String::new(),
        revision: String::new(),
        url: "https://git.corp.com/u/r.git".to_string(),
        page_url: "https://git.corp.com/u/r".to_string(),
    };
    assert_eq!(source().real_host(), "git.corp.com", "domain 为空时必须回退到从 pageUrl 还原");
    assert_eq!(source().raw_url("plugin.json"), "https://git.corp.com/u/r/raw/HEAD/plugin.json");

    let mut lock = LockFile { version: LOCK_VERSION, plugins: Table::new() };
    lock.plugins.insert(
        "demo".to_string(),
        InstalledEntry {
            source: source(),
            resolved_version: "1.0.0".to_string(),
            installed_at: "2026-01-01T00:00:00+08:00".to_string(),
        },
    );
    assert_eq!(read_lock(Some(lock), &["demo".to_string()], &hosts()).plugins.len(), 0, "未放行域名的记录必须被丢弃");
}

#[test]
fn read_lock_revalidates_tampered_entries() {
    let tampered = |url: &str, page: &str| InstalledEntry {
        source: GitSource {
            host: "gitee".to_string(),
            domain: "evil.tld".to_string(),
            owner: "u".to_string(),
            repo: "r".to_string(),
            sub_path: String::new(),
            revision: String::new(),
            url: url.to_string(),
            page_url: page.to_string(),
        },
        resolved_version: "1.0.0".to_string(),
        installed_at: "x".to_string(),
    };
    let mut lock = LockFile { version: LOCK_VERSION, plugins: Table::new() };
    lock.plugins.insert("demo".to_string(), tampered("https://gitee.com/u/r.git", "file:///C:/tmp/payload.exe"));
    lock.plugins.insert("evil".to_string(), tampered("https://evil.tld/u/r.git", "https://evil.tld/u/r"));
    let present = ["demo".to_string(), "evil".to_string(), "gone".to_string()];
    let back = read_lock(Some(lock), &present, &hosts());

    let demo = back.plugins.get("demo").expect("合法来源应保留");
    assert_eq!(demo.source.domain, "gitee.com");
    assert_eq!(demo.source.page_url, "https://gitee.com/u/r");
    assert_eq!(
        demo.source.verified_page_url(&hosts()).unwrap(),
        "https://gitee.com/u/r",
        "「查看仓库」必须用重建的 https 地址，而不是存盘的 file:// 字符串"
    );
    assert!(!back.plugins.contains("evil"), "未放行域名的记录必须丢弃");
}

#[test]
fn stale_entries_are_reconciled_and_forgettable() {
    let mut lock = LockFile { version: LOCK_VERSION, plugins: Table::new() };
    for name in ["alive", "deleted"] {
        lock.plugins.insert(name.to_string(), entry("https://gitee.com/u/r.git", "1.0.0"));
    }
    let mut back = read_lock(Some(lock), &["alive".to_string()], &hosts());
    assert!(back.plugins.contains("alive"));
    assert!(!back.plugins.contains("deleted"), "目录不存在的插件不应再被认作有 Git 来源");
    forget(&mut back, "alive");
    assert_eq!(back.plugins.len(), 0);
}

#[test]
fn lock_updates_keep_all_records() {
    let mut lock = LockFile { version: LOCK_VERSION, plugins: Table::new() };
    for name in ["a", "b", "c", "d", "a"] {
        update_lock(&mut lock, name.to_string(), entry("https://github.com/u/r.git", "1.0.0"));
    }
    for name in ["a", "b", "c", "d"] {
        assert!(lock.plugins.contains(name));
    }
    assert_eq!(lock.plugins.len(), 4);
}

#[test]
fn verified_page_url_rejects_unlisted_host() {
    let mut s = parse_git_url_with("https://gitee.com/u/r.git", &hosts()).unwrap();
    assert_eq!(s.verified_page_url(&hosts()).unwrap(), "https://gitee.com/u/r");
    s.domain = "evil.tld".to_string();
    s.page_url = "file:///C:/tmp/payload.exe".to_string();
    assert!(s.verified_page_url(&hosts()).is_err(), "未放行域名必须拒绝");
}

// ---------- 落地 ----------

#[test]
fn recover_dir_survives_cleanup_and_is_restored() {
    assert_eq!(recover_dir("demo"), ".recover-demo");
    assert_eq!(recover_orphans(".recover-demo", true, &[]), Some("demo".to_string()));
    assert_eq!(recover_orphans(".recover-demo", true, &["demo".to_string()]), None, "已存在的插件目录不能被覆盖");
    assert_eq!(recover_orphans(".recover-demo", false, &[]), None);
    assert_eq!(recover_orphans("demo", true, &[]), None);
}

#[test]
fn atomic_place_replaces_and_rolls_back() {
    // 一路顺利：旧的挪开 → 新的落地 → 旧的删掉
    let mut s = atomic_place(true);
    let mut seen = Vec::new();
    while s.action() != PlaceAction::Stop {
        seen.push(s.action());
        s = s.advance(true);
    }
    assert_eq!(seen, vec![PlaceAction::MoveOldAside, PlaceAction::MovePackage, PlaceAction::DropOld]);
    assert_eq!(s, PlaceState::Placed);
    assert!(place_result(s, "", "").is_ok());

    // 落地失败 → 旧的搬回来
    let s = atomic_place(true).advance(true).advance(false);
    assert_eq!(s.action(), PlaceAction::RollBack);
    let back = s.advance(true);
    assert_eq!(back, PlaceState::Failed);
    assert!(place_result(back, "占用", "side").is_err());
    // 连回滚都失败 → 说清旧插件在哪
    let stranded = s.advance(false);
    assert_eq!(stranded, PlaceState::Stranded);
    assert!(place_result(stranded, "占用", "C:\\side").unwrap_err().contains("C:\\side"));
    // 旧的挪不开 → 什么都没变
    assert_eq!(atomic_place(true).advance(false), PlaceState::Blocked);
    assert_eq!(atomic_place(false).action(), PlaceAction::MovePackage);
}

#[test]
fn renames_are_retried_a_few_times() {
    assert_eq!(retry_delay(1, Some(5)), Some(40));
    assert_eq!(retry_delay(2, Some(32)), Some(80));
    assert_eq!(retry_delay(5, Some(33)), Some(640));
    assert_eq!(retry_delay(6, Some(5)), None);
    assert_eq!(retry_delay(1, Some(2)), None);
    assert_eq!(retry_delay(1, None), None);
}

// ---------- 令牌 ----------

#[test]
fn github_token_is_header_only_and_never_reaches_mirrors() {
    let gh = git("https://github.com/u/r.git");
    let gitee = git("https://gitee.com/u/r.git");
    let corp = parse_git_url_with(
        "https://git.corp.com/u/r.git",
        &[("git.corp.com".to_string(), Forge::GitHub)],
    )
    .unwrap();
    assert!(gh.auth_header(None).is_none(), "未设置令牌时应匿名请求");
    let token = Some("ghp_TESTTOKEN");
    let (k, v) = gh.auth_header(token).expect("github.com 应带上鉴权头");
    assert_eq!(k, "Authorization");
    assert_eq!(v, "Bearer ghp_TESTTOKEN");
    assert!(!gh.archive_url().contains("ghp_TESTTOKEN"));
    assert!(!gh.raw_url("plugin.json").contains("ghp_TESTTOKEN"));
    assert!(gitee.auth_header(token).is_none());
    assert!(corp.auth_header(token).is_none());
    assert!(gh.gh_coord("plugin.json").is_some());
    assert!(gitee.gh_coord("plugin.json").is_none());
    assert!(corp.gh_coord("plugin.json").is_none());
    assert_eq!(gh.archive_url(), "https://codeload.github.com/u/r/zip/HEAD");
    assert_eq!(
        gh.raw_url("plugins/foo/plugin.json"),
        "https://raw.githubusercontent.com/u/r/HEAD/plugins/foo/plugin.json"
    );
    let req = download_capped(&gh, Kind::Archive, "", 120, 1024, "下载插件归档", None, token, None).unwrap();
    assert_eq!(req.official_url, "https://codeload.github.com/u/r/zip/HEAD");
    assert_eq!(req.auth, Some(("Authorization".to_string(), "Bearer ghp_TESTTOKEN".to_string())));
    assert_eq!(req.max_bytes, 1024);
}

#[test]
fn gitee_tokens_go_into_the_query() {
    let url = "https://gitee.com/u/r/raw/HEAD/plugin.json".to_string();
    assert_eq!(
        with_token(url.clone(), Forge::Gitee, Some("tok")),
        "https://gitee.com/u/r/raw/HEAD/plugin.json?access_token=tok"
    );
    assert_eq!(with_token(url.clone(), Forge::GitHub, Some("tok")), url);
    assert_eq!(with_token(url.clone(), Forge::Gitee, None), url);
}

// ---------- 预览与确认 ----------

#[test]
fn previews_say_what_will_be_installed() {
    let staged = staged_demo("1.2.0");
    let source = git("https://gitee.com/u/r.git");
    let installed = [("demo".to_string(), "1.0.0".to_string())];
    let p = build_preview(
        "tok",
        &staged,
        &source,
        None,
        Some("# hi".to_string()),
        &installed,
        Some("https://gitee.com/u/r.git"),
        &["demo".to_string()],
    );
    assert_eq!(p.name, "demo");
    assert_eq!(p.version, "1.2.0");
    assert!(p.already_installed);
    assert_eq!(p.installed_version.as_deref(), Some("1.0.0"));
    assert!(p.same_source);
    assert!(p.is_builtin);
    assert_eq!(p.file_count, 2);
    assert_eq!(p.feature_count, 1);
    assert_eq!(p.cmds, vec!["demo".to_string(), "second".to_string()]);
    assert_eq!(p.permissions, vec!["network".to_string()]);
    assert_eq!(keyword_cmds(&manifest("x", "1")), vec!["x".to_string(), "second".to_string()]);
}

#[test]
fn confirmations_are_used_up() {
    let mut staging = InstallStaging::default();
    let staged = staged_demo("1.0.0");
    let source = git("https://gitee.com/u/r.git");
    let p = build_preview("tok", &staged, &source, None, None, &[], None, &[]);
    assert!(!p.already_installed && !p.same_source);
    hold_preview(&mut staging, &p, "dir".to_string(), "pkg".to_string(), 5);
    match plugin_install_confirm(&mut staging, "tok", &[]) {
        Confirm::Place(pending) => {
            assert_eq!(pending.name, "demo");
            assert_eq!(pending.pkg, "pkg");
            let record = installed_record(&pending, "now".to_string());
            assert_eq!(record.resolved_version, "1.0.0");
            assert_eq!(record.installed_at, "now");
        }
        other => panic!("{other:?}"),
    }
    assert!(matches!(plugin_install_confirm(&mut staging, "tok", &[]), Confirm::Expired(_)));
    hold_preview(&mut staging, &p, "dir".to_string(), "pkg".to_string(), 5);
    match plugin_install_confirm(&mut staging, "tok", &["demo".to_string()]) {
        Confirm::Refused { dir, why } => {
            assert_eq!(dir, "dir");
            assert!(why.contains("内置插件"));
        }
        other => panic!("{other:?}"),
    }
}

#[test]
fn old_previews_are_swept() {
    let mut staging = InstallStaging::default();
    let staged = staged_demo("1.0.0");
    let source = git("https://gitee.com/u/r.git");
    let p = build_preview("tok", &staged, &source, None, None, &[], None, &[]);
    hold_preview(&mut staging, &p, "dir".to_string(), "pkg".to_string(), 0);
    assert!(staging.sweep(STAGING_TTL_NANOS - 1).is_empty());
    assert_eq!(staging.sweep(STAGING_TTL_NANOS + 1), vec!["dir".to_string()]);
    assert!(staging.take("tok").is_none());
}

#[test]
fn long_readmes_are_cut() {
    let short = "# 标题".to_string();
    assert_eq!(read_readme(short.clone()), short);
    let long = "字".repeat(MAX_README_CHARS + 1);
    assert_ne!(read_readme(long.clone()), long);
}

#[test]
fn builtins_are_told_apart() {
    assert!(is_builtin("a", &["a".to_string()]));
    assert!(!is_builtin("b", &["a".to_string()]));
    let found = init_builtins(true, &[("a".to_string(), true), ("b".to_string(), false)]);
    assert_eq!(found, vec!["a".to_string()]);
}

#[test]
fn permissions_do_not_pass_to_another_source() {
    let source = git("https://gitee.com/u/r.git");
    let mut granted: Table<Vec<String>> = Table::new();
    granted.insert("demo".to_string(), vec!["network".to_string()]);
    assert!(!clear_permissions(&mut granted, "demo", Some("https://gitee.com/u/r.git"), &source));
    assert!(granted.contains("demo"));
    assert!(clear_permissions(&mut granted, "demo", Some("https://gitee.com/u/other.git"), &source));
    assert!(!granted.contains("demo"));
}

// ---------- 更新 ----------

#[test]
fn updates_are_judged_by_version() {
    let up = judge_market("demo", "1.0.0", Ok(Some("1.1.0".to_string())));
    assert!(up.has_update && up.checked);
    assert_eq!(up.latest_version.as_deref(), Some("1.1.0"));
    let same = judge_market("demo", "1.1.0", Ok(Some("1.1.0".to_string())));
    assert!(!same.has_update && same.checked);
    let gone = judge_market("demo", "1.1.0", Ok(None));
    assert!(!gone.has_update);
    let failed = judge_market("demo", "1.1.0", Err("网络".to_string()));
    assert!(!failed.has_update && failed.error.is_some());
    let probe = Probe { source_label: "GitHub".to_string(), via_mirror: true, version: Ok("2.0.0".to_string()) };
    let p = judge_probe("demo", "1.0.0", Ok(probe));
    assert!(p.has_update && p.via_mirror);
    assert_eq!(p.download_source.as_deref(), Some("GitHub"));
    assert!(check_broke_off("demo", "1.0.0").error.is_some());
}

#[test]
fn pinned_and_unknown_plugins_are_not_asked_for() {
    match check_one("demo", "1.0.0", None, None, None) {
        CheckStep::Done(u) => assert!(!u.has_update),
        other => panic!("{other:?}"),
    }
    let pinned = entry(&format!("https://github.com/u/r.git#{}", "a".repeat(40)), "1.0.0");
    match check_one("demo", "1.0.0", Some(&pinned), None, None) {
        CheckStep::Done(u) => assert!(u.pinned && !u.has_update),
        other => panic!("{other:?}"),
    }
    let plain = entry("https://github.com/u/r.git", "1.0.0");
    match check_one("demo", "1.0.0", Some(&plain), None, None) {
        CheckStep::Fetch(req) => {
            assert_eq!(req.official_url, "https://raw.githubusercontent.com/u/r/HEAD/plugin.json");
        }
        other => panic!("{other:?}"),
    }
    let market = InstalledEntry {
        source: parse_git_url("itools-market://deskbox", None).unwrap(),
        resolved_version: "1.0.0".to_string(),
        installed_at: "x".to_string(),
    };
    assert!(matches!(check_one("deskbox", "1.0.0", Some(&market), None, None), CheckStep::AskMarket(n) if n == "deskbox"));
}

#[test]
fn updates_keep_the_source() {
    let mut lock = LockFile { version: LOCK_VERSION, plugins: Table::new() };
    update_lock(&mut lock, "demo".to_string(), entry("https://gitee.com/u/r.git", "1.0.0"));
    let targets = check_targets(&[("demo".to_string(), "1.0.0".to_string()), ("own".to_string(), "0.1".to_string())], &lock);
    assert_eq!(targets.len(), 2);
    assert!(targets[0].2.is_some() && targets[1].2.is_none());
    assert!(check_update("demo", false, true, true).is_ok());
    assert!(check_update("demo", true, true, true).is_err());
    assert!(check_update("demo", false, false, true).is_err());
    assert!(check_update("demo", false, true, false).is_err());
    let old = entry("https://gitee.com/u/r.git", "1.0.0");
    let (record, told) = plugin_update("demo", &old, &staged_demo("1.5.0"), "now".to_string()).unwrap();
    assert_eq!(record.resolved_version, "1.5.0");
    assert_eq!(record.source.url, "https://gitee.com/u/r.git");
    assert_eq!(told.current_version, "1.5.0");
    assert!(plugin_update("other", &old, &staged_demo("1.5.0"), "now".to_string()).is_err());
    assert_eq!(source_page(&lock, "demo", &hosts()).unwrap(), "https://gitee.com/u/r");
    assert!(source_page(&lock, "own", &hosts()).is_err());
    assert!(market_label("https://m.example").contains("https://m.example"));
}

#[test]
fn tokens_have_two_numbers() {
    assert_eq!(new_token(0x1_23AB, u64::MAX), "00000000000123abffffffffffffffff");
    assert_eq!(new_token(0, 1), "00000000000000000000000000000001");
}

#[test]
fn preview_requests_ask_for_the_archive() {
    let (source, q) = preview_request("https://github.com/u/r.git#v1", None, Some("tok"), None).unwrap();
    assert_eq!(source.repo, "r");
    assert_eq!(q.what, "下载插件归档");
    assert!(!q.official_url.contains("tok"));
    assert!(q.auth.is_some());
    assert!(preview_request("ftp://github.com/u/r", None, None, None).is_err());
    let err = preview_request("itools-market://demo", None, None, None).err().unwrap();
    assert!(err.contains("插件市场"), "{err}");
}

fn place(token: &str) -> Place {
    Place { token: token.to_string(), dir: "d".to_string(), pkg: "d/pkg".to_string(), now: 7 }
}

#[test]
fn market_packages_are_shown_and_confirmed() {
    let (source, staged) = preview_from_market_package(
        plugin_zip("demo", "2.0.0", &[]),
        RAW,
        "itools-market://demo",
        "https://m.example",
        None,
    )
    .unwrap();
    assert_eq!(staged.download_source, "插件市场（https://m.example）");
    let hash = content_hash(&staged.files);
    let mut waiting = InstallStaging::default();
    let mut record = LockFile { version: LOCK_VERSION, plugins: Table::new() };
    let prior = parse_git_url("itools-market://demo", None).unwrap();
    update_lock(
        &mut record,
        "demo".to_string(),
        InstalledEntry { source: prior, resolved_version: "1.0.0".to_string(), installed_at: "x".to_string() },
    );
    let shown = preview_impl(
        &mut waiting,
        place("tok"),
        &source,
        staged,
        Extras { manifest: manifest("demo", "2.0.0"), logo: None, readme: Some("hi".to_string()) },
        Some(&hash),
        &[("demo".to_string(), "1.0.0".to_string())],
        &record,
        &[],
    )
    .unwrap();
    assert_eq!(shown.token, "tok");
    assert_eq!(shown.installed_version.as_deref(), Some("1.0.0"));
    assert!(shown.same_source && shown.hash_verified && !shown.is_builtin);
    assert_eq!(shown.readme.as_deref(), Some("hi"));
    match plugin_install_confirm(&mut waiting, "tok", &[]) {
        Confirm::Place(p) => {
            assert_eq!(p.name, shown.name);
            assert_eq!(p.version, "2.0.0");
            assert_eq!(p.source.url, shown.source.url);
            assert_eq!((p.dir.as_str(), p.pkg.as_str(), p.created), ("d", "d/pkg", 7));
        }
        other => panic!("{other:?}"),
    }
}

#[test]
fn refused_packages_do_not_wait() {
    let staged = stage_from_bytes(plugin_zip("demo", "1.0.0", &[]), RAW, "x").unwrap();
    let mut waiting = InstallStaging::default();
    let record = LockFile { version: LOCK_VERSION, plugins: Table::new() };
    let refused = preview_impl(
        &mut waiting,
        place("tok"),
        &git("https://gitee.com/u/r.git"),
        staged,
        Extras { manifest: manifest("demo", "1.0.0"), logo: None, readme: None },
        Some("00"),
        &[],
        &record,
        &[],
    );
    assert!(refused.is_err());
    assert!(waiting.take("tok").is_none());
}

#[test]
fn files_and_directories_do_not_share_a_place() {
    let one = extract_zip(zip_of(&[("a", b"x"), ("a/b", b"y")]), RAW).unwrap_err();
    assert_eq!(one, "创建目录失败: 路径上已有同名文件");
    let two = extract_zip(zip_of(&[("a/b", b"y"), ("a", b"x")]), RAW).unwrap_err();
    assert_eq!(two, "写入文件失败 \\\\?\\C:\\plugins\\.staging\\t\\raw\\a: 已有同名目录");
    let three = extract_zip(zip_of(&[("a", b"x"), ("a/b/", b"")]), "D:\\raw").unwrap_err();
    assert_eq!(three, "创建目录失败 D:\\raw\\a\\b: 路径上已有同名文件");
    assert!(extract_zip(zip_of(&[("a", b"x"), ("a/", b"")]), RAW).is_err());
    assert!(extract_zip(zip_of(&[("a/", b""), ("a/b", b"y"), ("ab", b"z")]), RAW).is_ok());
    assert!(stage_from_bytes(plugin_zip("demo", "1", &[("lib", b"1"), ("lib/x.js", b"2")]), RAW, "x").is_err());
}

#[test]
fn zeros_and_a_leading_v_do_not_count() {
    for (a, b) in [("1.2", "1.2.0"), ("1.2", "v1.2"), ("v1.2.0", "1.2")] {
        assert!(!version_gt(a, b) && !version_gt(b, a), "{a} {b}");
    }
    assert!(version_gt("1.2.1", "v1.2.0"));
}

#[test]
fn redaction_does_not_depend_on_the_token() {
    let said = |t: &str| redact_token(format!("GET https://x/?access_token={t}&a=1 failed"));
    assert_eq!(said("abc"), said("much-longer-token"));
    assert_eq!(said("abc"), "GET https://x/?access_token=***&a=1 failed");
    let shouted = |t: &str| redact_token(format!("GET https://x/?Access_TOKEN={t}#a"));
    assert_eq!(shouted("abc"), shouted(""));
    assert_eq!(shouted("abc"), "GET https://x/?Access_TOKEN=***#a");
}

#[test]
fn updates_come_from_where_the_plugin_came() {
    let market = InstalledEntry {
        source: parse_git_url("itools-market://deskbox", None).unwrap(),
        resolved_version: "1.0.0".to_string(),
        installed_at: "x".to_string(),
    };
    assert!(matches!(update_step(&market, Some("t"), Some("t")), UpdateStep::AskMarket(n) if n == "deskbox"));
    let repo = entry("https://github.com/u/p#v1", "1.0.0");
    match update_step(&repo, None, None) {
        UpdateStep::Fetch(q) => {
            assert_eq!(q.kind, Kind::Archive);
            assert_eq!(q.official_url, repo.source.archive_url());
            assert_eq!(q.what, "下载插件归档");
            assert!(q.auth.is_none() && q.github.is_some() && q.expect_sha256.is_none());
        }
        other => panic!("{other:?}"),
    }
    match update_step(&repo, Some("secret"), None) {
        UpdateStep::Fetch(q) => assert!(q.auth.is_some() && q.github.is_none(), "令牌不经镜像"),
        other => panic!("{other:?}"),
    }
}

fn market_item(name: &str, content_hash: &str) -> MarketEntry {
    MarketEntry {
        name: name.to_string(),
        display_name: name.to_string(),
        description: String::new(),
        author: String::new(),
        version: "2.0.0".to_string(),
        package: format!("/api/packages/{name}.zip"),
        content_hash: content_hash.to_string(),
        reviewed_by: String::new(),
        published_at: 0,
        updated_at: 0,
        size_bytes: 0,
        readme: String::new(),
        category: String::new(),
        tags: vec![],
        keywords: vec![],
        permissions: vec![],
        permission_reasons: Table::new(),
        min_app_version: String::new(),
        license: String::new(),
        homepage: String::new(),
        source_repo: String::new(),
        screenshots: vec![],
        revoked: false,
        revoked_reason: String::new(),
        added_at: String::new(),
        audit_report: String::new(),
        file_count: 0,
    }
}

#[test]
fn market_updates_are_held_to_the_index() {
    let staged = || stage_from_bytes(plugin_zip("demo", "2.0.0", &[]), RAW, "x").unwrap();
    let hash = content_hash(&staged().files);
    let done = |h: &str| finish_market_update(staged(), manifest("demo", "2.0.0"), &market_item("demo", h));
    assert!(done(&hash).unwrap().hash_verified);
    let wrong = format!("sha256:{}", "0".repeat(64));
    assert!(done(&wrong).is_err(), "内容与索引不符");
    assert!(!done("").unwrap().hash_verified, "索引没有哈希就不算校验过");
}

#[test]
fn spellings_of_an_address_are_one_source() {
    let plain = git("https://github.com/Some.One/My_Repo-1");
    assert_eq!((plain.owner.as_str(), plain.repo.as_str()), ("Some.One", "My_Repo-1"));
    for other in [
        "https://github.com/Some.One/My_Repo-1.git",
        "https://github.com/Some.One/My_Repo-1/",
        "https://github.com/Some.One/My_Repo-1.git/",
        "https://GitHub.Com/Some.One/My_Repo-1",
        "https://www.github.com/Some.One/My_Repo-1",
        "https://WWW.GITHUB.com/Some.One/My_Repo-1.git",
        " \thttps://github.com/Some.One/My_Repo-1\n\u{3000}",
    ] {
        let s = git(other);
        let told = |s: &GitSource| {
            [&s.host, &s.domain, &s.owner, &s.repo, &s.sub_path, &s.revision, &s.url, &s.page_url].map(String::clone)
        };
        assert_eq!(told(&s), told(&plain), "{other}");
    }
}

#[test]
fn packages_that_could_not_be_loaded_are_refused() {
    let staged = || stage_from_bytes(plugin_zip("demo", "1.0.0", &[]), RAW, "x").unwrap();
    let done = |m: PluginManifest| finish_stage(staged(), m, None);
    assert!(done(manifest("demo", "1.0.0")).is_ok());
    assert_eq!(done(manifest("", "1.0.0")).unwrap_err(), "plugin.json 的 name 不能为空");
    let mut none = manifest("demo", "1.0.0");
    none.features.clear();
    assert_eq!(done(none).unwrap_err(), "plugin.json 的 features 不能为空");
    let mut twice = manifest("demo", "1.0.0");
    for code in ["other", "main", "other"] {
        twice.features.push(Feature { code: code.to_string(), cmds: vec![] });
    }
    assert_eq!(done(twice).unwrap_err(), "plugin.json 的 features 里 code 重复：main");
    let bare = stage_from_bytes(zip_of(&[("plugin.json", b"{}")]), RAW, "x").unwrap();
    assert_eq!(finish_stage(bare, manifest("demo", "1"), None).unwrap_err(), "插件目录下没有 index.html");
    assert!(done(manifest("Demo", "1.0.0")).unwrap_err().contains("不合法"));
}

#[test]
fn directories_of_a_package_are_kept() {
    let zip = zip_of(&[
        ("demo/", b""),
        ("demo/plugin.json", b"{}"),
        ("demo/index.html", b""),
        ("demo/cache/", b""),
        ("demo/a/b/", b""),
    ]);
    let staged = stage_from_bytes(zip, RAW, "x").unwrap();
    assert_eq!(staged.dirs, vec!["cache", "a/b"]);
    assert_eq!(finish_stage(staged, manifest("demo", "1"), None).unwrap().dirs, vec!["cache", "a/b"]);
}

#[test]
fn downloads_are_held_to_their_digest() {
    let digest = "ba7816bf8f01cfea414140de5dae2223b00361a396177a9cb410ff61f20015ad";
    assert_eq!(check_digest("下载", b"abc", None), Ok(false));
    assert_eq!(check_digest("下载", b"abc", Some(digest)), Ok(true));
    assert_eq!(check_digest("下载", b"abc", Some(&digest.to_uppercase())), Ok(true));
    assert!(check_digest("下载", b"abd", Some(digest)).unwrap_err().starts_with("下载失败"));
}

#[test]
fn lock_updates_in_a_row_keep_all_records() {
    let names = ["a", "b", "c", "d"];
    let present: Vec<String> = names.iter().map(|n| n.to_string()).collect();
    let mut stored: Option<LockFile> = None;
    for round in 0..5 {
        for name in names {
            let mut lock = read_lock(stored, &present, &hosts());
            update_lock(&mut lock, name.to_string(), entry("https://github.com/u/r.git", &round.to_string()));
            stored = Some(lock);
        }
    }
    let back = read_lock(stored, &present, &hosts());
    assert_eq!(back.version, LOCK_VERSION);
    for name in names {
        assert_eq!(back.plugins.get(name).expect("记录不能丢").resolved_version, "4");
    }
}
