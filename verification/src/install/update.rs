//! Checking for updates and applying them.

use crate::install::download;
use crate::install::download::{
    Kind, Request, ARCHIVE_TIMEOUT_SECS, MAX_ARCHIVE_BYTES, MAX_META_BYTES, META_TIMEOUT_SECS,
};
use crate::install::lock::{EntryView, InstalledEntry, LockFile};
use crate::install::package;
use crate::install::package::{Staged, StagedPackage};
use crate::install::source;
use crate::install::source::Forge;
use crate::install::version;
use crate::manifest::PluginManifest;
use crate::market;
use crate::market::MarketEntry;
use crate::text;
use vstd::prelude::*;

verus! {

/// What is known of a plugin's newest version.
///
/// `checked` tells an answer from silence: a plugin without source, a pinned one and a failed
/// check are all not checked, and none of them counts as up to date.
#[derive(Debug)]
pub struct PluginUpdate {
    pub name: String,
    pub current_version: String,
    pub latest_version: Option<String>,
    pub has_update: bool,
    /// The revision is a commit id: the plugin does not follow updates.
    pub pinned: bool,
    /// Whether the origin was really asked and answered.
    pub checked: bool,
    /// Why the check failed.
    pub error: Option<String>,
    /// Where the answer came from.
    pub download_source: Option<String>,
    pub via_mirror: bool,
}

/// The mathematical content of a [`PluginUpdate`].
#[verifier::ext_equal]
pub struct UpdateView {
    pub name: Seq<char>,
    pub current_version: Seq<char>,
    pub latest_version: Option<Seq<char>>,
    pub has_update: bool,
    pub pinned: bool,
    pub checked: bool,
    pub error: Option<Seq<char>>,
    pub download_source: Option<Seq<char>>,
    pub via_mirror: bool,
}

impl View for PluginUpdate {
    type V = UpdateView;

    open spec fn view(&self) -> UpdateView {
        UpdateView {
            name: self.name@,
            current_version: self.current_version@,
            latest_version: text::opt_view(self.latest_version),
            has_update: self.has_update,
            pinned: self.pinned,
            checked: self.checked,
            error: text::opt_view(self.error),
            download_source: text::opt_view(self.download_source),
            via_mirror: self.via_mirror,
        }
    }
}

// ---------------------------------------------------------------------------
// Checking
// ---------------------------------------------------------------------------

/// Nothing known yet.
pub open spec fn unchecked(name: Seq<char>, current: Seq<char>) -> UpdateView {
    UpdateView {
        name,
        current_version: current,
        latest_version: None,
        has_update: false,
        pinned: false,
        checked: false,
        error: None,
        download_source: None,
        via_mirror: false,
    }
}

/// A check that failed.
pub open spec fn failed(name: Seq<char>, current: Seq<char>, why: Seq<char>) -> UpdateView {
    UpdateView { error: Some(why), ..unchecked(name, current) }
}

/// A check that brought a version.
pub open spec fn answered(name: Seq<char>, current: Seq<char>, latest: Seq<char>) -> UpdateView {
    UpdateView {
        latest_version: Some(latest),
        has_update: version::newer(latest, current),
        checked: true,
        ..unchecked(name, current)
    }
}

fn no_news(name: &str, current: &str) -> (r: PluginUpdate)
    ensures
        r@ == unchecked(name@, current@),
{
    PluginUpdate {
        name: text::owned(name),
        current_version: text::owned(current),
        latest_version: None,
        has_update: false,
        pinned: false,
        checked: false,
        error: None,
        download_source: None,
        via_mirror: false,
    }
}

fn with_error(name: &str, current: &str, why: String) -> (r: PluginUpdate)
    ensures
        r@ == failed(name@, current@, why@),
{
    let mut u = no_news(name, current);
    u.error = Some(why);
    u
}

fn with_latest(name: &str, current: &str, latest: String) -> (r: PluginUpdate)
    ensures
        r@ == answered(name@, current@, latest@),
{
    let mut u = no_news(name, current);
    u.has_update = version::version_gt(latest.as_str(), current);
    u.latest_version = Some(latest);
    u.checked = true;
    u
}

/// How a plugin is checked.
#[derive(Debug)]
pub enum CheckStep {
    /// There is nothing to ask.
    Done(PluginUpdate),
    /// Look the plugin up in the market's index.
    AskMarket(String),
    /// Fetch the manifest from the repository.
    Fetch(Request),
}

/// What fetching a manifest brought.
#[derive(Debug)]
pub struct Probe {
    pub source_label: String,
    pub via_mirror: bool,
    /// The version in the manifest (empty when it has none), or why it cannot be read.
    pub version: Result<String, String>,
}

/// Decides how a plugin is checked: one without source or with a pinned revision is not
/// asked for at all, a market plugin is looked up, any other has its manifest fetched.
pub fn check_one(
    name: &str,
    current: &str,
    entry: Option<&InstalledEntry>,
    github_token: Option<&str>,
    gitee_token: Option<&str>,
) -> (r: CheckStep)
    ensures
        match entry {
            None => r matches CheckStep::Done(u) && u@ == unchecked(name@, current@),
            Some(e) => if e.source@.forge() == Forge::Market {
                r matches CheckStep::AskMarket(n) && n@ == e.source@.repo
            } else if source::pinned(e.source@.revision) {
                r matches CheckStep::Done(u) && u@ == (UpdateView {
                    pinned: true,
                    ..unchecked(name@, current@)
                })
            } else {
                r matches CheckStep::Fetch(q) && {
                    let auth = e.source@.auth(text::opt_str(github_token));
                    &&& q.kind == Kind::Raw
                    &&& q.official_url@ == download::official_url(
                        e.source@,
                        Kind::Raw,
                        e.source@.manifest_rel(),
                        text::opt_str(gitee_token),
                    )
                    &&& q.official_label@ == e.source@.official_label()
                    &&& download::header_view(q.auth) == auth
                    &&& text::opt_view(q.github) == if auth is Some {
                        None
                    } else {
                        e.source@.coord(e.source@.manifest_rel())
                    }
                    &&& q.timeout_secs == META_TIMEOUT_SECS
                    &&& q.max_bytes == MAX_META_BYTES
                    &&& q.timeout_secs == 10
                    &&& q.max_bytes == 512 * 1024
                    &&& q.what@ == "检查插件更新"@
                    &&& q.expect_sha256 is None
                }
            },
        },
{
    match entry {
        None => CheckStep::Done(no_news(name, current)),
        Some(e) => {
            if e.source.is_market() {
                return CheckStep::AskMarket(e.source.repo.clone());
            }
            if source::is_pinned(e.source.revision.as_str()) {
                let mut u = no_news(name, current);
                u.pinned = true;
                return CheckStep::Done(u);
            }
            let rel = e.source.manifest_rel();
            match download::download_capped(
                &e.source,
                Kind::Raw,
                rel.as_str(),
                META_TIMEOUT_SECS,
                MAX_META_BYTES,
                "检查插件更新",
                None,
                github_token,
                gitee_token,
            ) {
                Ok(q) => CheckStep::Fetch(q),
                Err(why) => CheckStep::Done(with_error(name, current, why)),
            }
        },
    }
}

/// What the market's answer means.
pub open spec fn market_report(
    name: Seq<char>,
    current: Seq<char>,
    answer: Result<Option<Seq<char>>, Seq<char>>,
) -> UpdateView {
    match answer {
        Ok(Some(latest)) => answered(name, current, latest),
        Ok(None) => failed(name, current, "市场里已经没有这个插件了（可能已被下架）"@),
        Err(e) => failed(name, current, e),
    }
}

/// The view of the market's answer.
pub open spec fn answer_view(a: Result<Option<String>, String>) -> Result<
    Option<Seq<char>>,
    Seq<char>,
> {
    match a {
        Ok(v) => Ok(text::opt_view(v)),
        Err(e) => Err(e@),
    }
}

/// Judges the market's answer; a plugin that is gone from the market is not up to date.
pub fn judge_market(
    name: &str,
    current: &str,
    answer: Result<Option<String>, String>,
) -> (r: PluginUpdate)
    ensures
        r@ == market_report(name@, current@, answer_view(answer)),
{
    match answer {
        Ok(Some(latest)) => with_latest(name, current, latest),
        Ok(None) => with_error(
            name,
            current,
            text::owned("市场里已经没有这个插件了（可能已被下架）"),
        ),
        Err(e) => with_error(name, current, e),
    }
}

/// What a fetched manifest means.
pub open spec fn probe_report(
    name: Seq<char>,
    current: Seq<char>,
    label: Seq<char>,
    via_mirror: bool,
    version: Result<Seq<char>, Seq<char>>,
) -> UpdateView {
    let v = match version {
        Ok(s) => if text::trimmed(s).len() > 0 {
            answered(name, current, text::trimmed(s))
        } else {
            failed(name, current, "远端 plugin.json 没有 version 字段"@)
        },
        Err(e) => failed(name, current, "远端 plugin.json 解析失败: "@ + e),
    };
    UpdateView { download_source: Some(label), via_mirror, ..v }
}

/// Judges what fetching the manifest brought.
pub fn judge_probe(name: &str, current: &str, got: Result<Probe, String>) -> (r: PluginUpdate)
    ensures
        r@ == (match got {
            Ok(p) => probe_report(
                name@,
                current@,
                p.source_label@,
                p.via_mirror,
                text::outcome(p.version),
            ),
            Err(e) => failed(name@, current@, e@),
        }),
{
    match got {
        Err(e) => with_error(name, current, e),
        Ok(p) => {
            let mut u = match p.version {
                Ok(s) => {
                    let t = text::trim_str(s.as_str());
                    if t.len() > 0 {
                        with_latest(name, current, text::string_of(t.as_slice()))
                    } else {
                        with_error(
                            name,
                            current,
                            text::owned("远端 plugin.json 没有 version 字段"),
                        )
                    }
                },
                Err(e) => with_error(
                    name,
                    current,
                    text::owned("远端 plugin.json 解析失败: ").concat(e.as_str()),
                ),
            };
            u.download_source = Some(p.source_label);
            u.via_mirror = p.via_mirror;
            u
        },
    }
}

/// What is reported of a plugin whose check broke off.
pub fn check_broke_off(name: &str, current: &str) -> (r: PluginUpdate)
    ensures
        r@ == failed(name@, current@, "检查线程异常退出"@),
{
    with_error(name, current, text::owned("检查线程异常退出"))
}

/// Whether a report never passes silence off as an answer: a newer version is only reported
/// by a check that was answered, and one that was not answered knows no version.
pub open spec fn honest(u: UpdateView) -> bool {
    &&& u.has_update ==> u.checked
    &&& u.checked <==> u.latest_version is Some
    &&& u.checked ==> u.error is None && !u.pinned
}

/// Every report is honest, whatever the market or the origin answers.
pub proof fn reports_are_honest(
    name: Seq<char>,
    current: Seq<char>,
    answer: Result<Option<Seq<char>>, Seq<char>>,
    label: Seq<char>,
    via_mirror: bool,
    version: Result<Seq<char>, Seq<char>>,
)
    ensures
        honest(unchecked(name, current)),
        honest(market_report(name, current, answer)),
        honest(probe_report(name, current, label, via_mirror, version)),
{
}

/// The view of one plugin to check.
pub open spec fn target_view(t: (String, String, Option<InstalledEntry>)) -> (
    Seq<char>,
    Seq<char>,
    Option<EntryView>,
) {
    (t.0@, t.1@, text::opt_view(t.2))
}

/// The record of a plugin.
pub open spec fn record_of(lock: LockFile, name: Seq<char>) -> Option<EntryView> {
    if lock.plugins@.dom().contains(name) {
        Some(lock.plugins@[name]@)
    } else {
        None
    }
}

/// Pairs the loaded plugins with their records.
pub fn check_targets(loaded: &[(String, String)], lock: &LockFile) -> (r: Vec<
    (String, String, Option<InstalledEntry>),
>)
    ensures
        r@.len() == loaded@.len(),
        forall|i: int|
            0 <= i < r@.len() ==> target_view(#[trigger] r@[i]) == (
                loaded@[i].0@,
                loaded@[i].1@,
                record_of(*lock, loaded@[i].0@),
            ),
{
    let mut out: Vec<(String, String, Option<InstalledEntry>)> = Vec::new();
    let mut i: usize = 0;
    while i < loaded.len()
        invariant
            i <= loaded@.len(),
            out@.len() == i,
            forall|j: int|
                0 <= j < i ==> target_view(#[trigger] out@[j]) == (
                    loaded@[j].0@,
                    loaded@[j].1@,
                    record_of(*lock, loaded@[j].0@),
                ),
        decreases loaded@.len() - i,
    {
        let entry = match lock.plugins.get(loaded[i].0.as_str()) {
            Some(e) => Some(e.clone()),
            None => None,
        };
        out.push((loaded[i].0.clone(), loaded[i].1.clone(), entry));
        i += 1;
    }
    out
}

// ---------------------------------------------------------------------------
// Updating
// ---------------------------------------------------------------------------

/// Why an update is refused before anything is downloaded.
pub open spec fn update_refusal(
    name: Seq<char>,
    builtin: bool,
    loaded: bool,
    recorded: bool,
) -> Option<Seq<char>> {
    if builtin {
        Some("「"@ + name + "」是随安装包分发的内置插件，请通过应用整体更新升级"@)
    } else if !source::valid_plugin_name(name) {
        Some("非法的插件名："@ + name)
    } else if !loaded {
        Some("插件 "@ + name + " 未加载，无法更新"@)
    } else if !recorded {
        Some("「"@ + name + "」不是从插件市场或 Git 仓库安装的，没有可用的更新来源"@)
    } else {
        None
    }
}

/// Decides whether a plugin may be updated.
pub fn check_update(name: &str, builtin: bool, loaded: bool, recorded: bool) -> (r: Result<
    (),
    String,
>)
    ensures
        text::message_of(r) == update_refusal(name@, builtin, loaded, recorded),
{
    if builtin {
        return Err(
            text::owned("「").concat(name).concat(
                "」是随安装包分发的内置插件，请通过应用整体更新升级",
            ),
        );
    }
    if !source::is_valid_plugin_name(name) {
        return Err(text::owned("非法的插件名：").concat(name));
    }
    if !loaded {
        return Err(text::owned("插件 ").concat(name).concat(" 未加载，无法更新"));
    }
    if !recorded {
        return Err(
            text::owned("「").concat(name).concat(
                "」不是从插件市场或 Git 仓库安装的，没有可用的更新来源",
            ),
        );
    }
    Ok(())
}

/// Where the new version of a plugin comes from.
#[derive(Debug)]
pub enum UpdateStep {
    /// Look the plugin up in the market's index and fetch the package named there.
    AskMarket(String),
    /// Fetch the repository's archive.
    Fetch(Request),
}

/// Decides where an update comes from: a plugin of the market is looked up under its recorded
/// name, any other has the archive of its recorded repository fetched.
pub fn update_step(
    entry: &InstalledEntry,
    github_token: Option<&str>,
    gitee_token: Option<&str>,
) -> (r: UpdateStep)
    ensures
        if entry.source@.forge() == Forge::Market {
            r matches UpdateStep::AskMarket(n) && n@ == entry.source@.repo
        } else {
            r matches UpdateStep::Fetch(q) && {
                &&& download::is_request(
                    q,
                    entry.source@,
                    Kind::Archive,
                    ""@,
                    text::opt_str(github_token),
                    text::opt_str(gitee_token),
                )
                &&& q.timeout_secs == ARCHIVE_TIMEOUT_SECS
                &&& q.max_bytes == MAX_ARCHIVE_BYTES
                &&& q.timeout_secs == 2 * 60
                &&& q.max_bytes == 32 * 1024 * 1024
                &&& q.what@ == "下载插件归档"@
                &&& q.expect_sha256 is None
            }
        },
{
    match download::download_capped(
        &entry.source,
        Kind::Archive,
        "",
        ARCHIVE_TIMEOUT_SECS,
        MAX_ARCHIVE_BYTES,
        "下载插件归档",
        None,
        github_token,
        gitee_token,
    ) {
        Ok(q) => UpdateStep::Fetch(q),
        Err(_) => UpdateStep::AskMarket(entry.source.repo.clone()),
    }
}

/// Completes the staging of an update that came from the market: the content must match the
/// hash that the index gives for the plugin, wherever it gives one.
pub fn finish_market_update(
    staged: Staged,
    manifest: PluginManifest,
    found: &MarketEntry,
) -> (r: Result<StagedPackage, String>)
    ensures
        r matches Ok(p) ==> p.hash_verified == package::counts_as_verified(
            market::expected_hash(*found),
            staged.hash_verified,
        ),
        match r {
            Ok(p) => {
                &&& package::package_error(staged.files, manifest, market::expected_hash(*found)) is None
                &&& p.files == staged.files
                &&& p.dirs == staged.dirs
                &&& p.manifest == manifest
                &&& p.download_source == staged.download_source
                &&& p.via_mirror == staged.via_mirror
                &&& p.hash_verified == (market::expected_hash(*found) is Some
                    || staged.hash_verified)
            },
            Err(e) => package::package_error(staged.files, manifest, market::expected_hash(*found)) == Some(e@),
        },
{
    match market::expect_of(found) {
        Some(h) => package::finish_stage(staged, manifest, Some(h.as_str())),
        None => package::finish_stage(staged, manifest, None),
    }
}

/// How the market is named as the origin of a package.
pub open spec fn market_origin(server: Seq<char>) -> Seq<char> {
    if server.len() == 0 {
        "插件市场"@
    } else {
        "插件市场（"@ + server + "）"@
    }
}

/// How the market is named as the origin of a package, see [`market_origin`].
pub fn market_label(server: &str) -> (r: String)
    ensures
        r@ == market_origin(server@),
{
    if server.is_empty() {
        text::owned("插件市场")
    } else {
        text::owned("插件市场（").concat(server).concat("）")
    }
}

/// The record and the report of an update. A package of another name is refused: an update
/// never turns one plugin into another.
pub fn plugin_update(
    name: &str,
    entry: &InstalledEntry,
    staged: &StagedPackage,
    now: String,
) -> (r: Result<(InstalledEntry, PluginUpdate), String>)
    ensures
        match r {
            Ok(p) => update_outcome(name@, entry@, staged.manifest, staged.download_source@, staged.via_mirror, now@)
                == Some((p.0@, p.1@)),
            Err(_) => update_outcome(name@, entry@, staged.manifest, staged.download_source@, staged.via_mirror, now@) is None,
        },
        match r {
            Err(e) => staged.manifest.name@ != name@ && e@ == "远端包的插件名是「"@
                + staged.manifest.name@ + "」，与本地「"@ + name@
                + "」不一致，已拒绝更新（避免把插件替换成另一个插件）"@,
            Ok(p) => {
                &&& staged.manifest.name@ == name@
                &&& p.0@ == (EntryView {
                    source: entry.source@,
                    resolved_version: staged.manifest.version@,
                    installed_at: now@,
                })
                &&& p.1@ == (UpdateView {
                    name: name@,
                    current_version: staged.manifest.version@,
                    latest_version: Some(staged.manifest.version@),
                    has_update: false,
                    pinned: source::pinned(entry.source@.revision),
                    checked: true,
                    error: None,
                    download_source: Some(staged.download_source@),
                    via_mirror: staged.via_mirror,
                })
            },
        },
{
    if !text::str_eq(staged.manifest.name.as_str(), name) {
        return Err(
            text::owned("远端包的插件名是「").concat(staged.manifest.name.as_str()).concat(
                "」，与本地「",
            ).concat(name).concat("」不一致，已拒绝更新（避免把插件替换成另一个插件）"),
        );
    }
    let record = InstalledEntry {
        source: entry.source.clone(),
        resolved_version: staged.manifest.version.clone(),
        installed_at: now,
    };
    let report = PluginUpdate {
        name: text::owned(name),
        current_version: staged.manifest.version.clone(),
        latest_version: Some(staged.manifest.version.clone()),
        has_update: false,
        pinned: source::is_pinned(entry.source.revision.as_str()),
        checked: true,
        error: None,
        download_source: Some(staged.download_source.clone()),
        via_mirror: staged.via_mirror,
    };
    Ok((record, report))
}

/// The page of a recorded plugin that may be opened.
pub fn source_page(lock: &LockFile, name: &str, allowed: &[(String, Forge)]) -> (r: Result<
    String,
    String,
>)
    ensures
        text::outcome(r) == if lock.plugins@.dom().contains(name@) {
            lock.plugins@[name@].source@.page(source::host_views(allowed@))
        } else {
            Err("「"@ + name@ + "」不是从 Git 仓库安装的，没有仓库页面"@)
        },
{
    match lock.plugins.get(name) {
        None => Err(
            text::owned("「").concat(name).concat("」不是从 Git 仓库安装的，没有仓库页面"),
        ),
        Some(e) => e.source.verified_page_url(allowed),
    }
}

/// An update is reported exactly where the version that was found is greater than the installed
/// one, number by number; what was found is told, and so is where.
pub proof fn updates_are_reported_by_number(
    name: Seq<char>,
    current: Seq<u32>,
    latest: Seq<u32>,
    label: Seq<char>,
    via_mirror: bool,
)
    requires
        current.len() > 0,
        latest.len() > 0,
    ensures
        ({
            let a = version::dotted(latest);
            let b = version::dotted(current);
            let greater = exists|k: int|
                0 <= k && #[trigger] version::number_at(latest, k) > version::number_at(current, k)
                    && (forall|j: int|
                    0 <= j < k ==> #[trigger] version::number_at(latest, j) == version::number_at(
                        current,
                        j,
                    ));
            let m = market_report(name, b, Ok(Some(a)));
            let p = probe_report(name, b, label, via_mirror, Ok(a));
            &&& m.has_update <==> greater
            &&& p.has_update <==> greater
            &&& m.latest_version == Some(a) && p.latest_version == Some(a)
            &&& m.current_version == b && p.current_version == b
            &&& m.name == name && p.name == name
            &&& m.checked && p.checked
            &&& p.download_source == Some(label) && p.via_mirror == via_mirror
        }),
{
    version::versions_compare_by_their_numbers(latest, current);
    version::dotted_versions_are_trimmed(latest);
}

/// A failed check is told with its reason and claims nothing: a plugin that is gone from the
/// market, and a manifest without a version or that cannot be read, among them.
pub proof fn failed_checks_claim_nothing(
    name: Seq<char>,
    current: Seq<char>,
    e: Seq<char>,
    blank: Seq<char>,
    label: Seq<char>,
    via_mirror: bool,
)
    requires
        text::trimmed(blank).len() == 0,
    ensures
        ({
            let gone = market_report(name, current, Ok(None));
            let silent = market_report(name, current, Err(e));
            let empty = probe_report(name, current, label, via_mirror, Ok(blank));
            let broken = probe_report(name, current, label, via_mirror, Err(e));
            &&& gone.error is Some && !gone.checked && !gone.has_update
            &&& silent.error == Some(e) && !silent.checked && !silent.has_update
            &&& empty.error is Some && !empty.checked && !empty.has_update
            &&& broken.error is Some && e.is_suffix_of(broken.error->0) && !broken.checked
                && !broken.has_update
        }),
{
    let broken = probe_report(name, current, label, via_mirror, Err(e));
    let m = broken.error->0;
    assert(m.subrange(m.len() - e.len(), m.len() as int) =~= e);
}

/// A plugin may be updated exactly where it does not come with the application, has an allowed
/// name, is loaded and is on record.
pub proof fn recorded_plugins_may_be_updated(
    name: Seq<char>,
    builtin: bool,
    loaded: bool,
    recorded: bool,
)
    ensures
        update_refusal(name, builtin, loaded, recorded) is None <==> !builtin && loaded && recorded
            && source::valid_plugin_name(name),
{
}

/// The record and the report of an update; nothing where the package is another plugin's.
pub open spec fn update_outcome(
    name: Seq<char>,
    entry: EntryView,
    manifest: PluginManifest,
    origin: Seq<char>,
    via_mirror: bool,
    now: Seq<char>,
) -> Option<(EntryView, UpdateView)> {
    if manifest.name@ != name {
        None
    } else {
        Some(
            (
                EntryView {
                    source: entry.source,
                    resolved_version: manifest.version@,
                    installed_at: now,
                },
                UpdateView {
                    name,
                    current_version: manifest.version@,
                    latest_version: Some(manifest.version@),
                    has_update: false,
                    pinned: source::pinned(entry.source.revision),
                    checked: true,
                    error: None,
                    download_source: Some(origin),
                    via_mirror,
                },
            ),
        )
    }
}

/// An update never turns one plugin into another, and never changes where a plugin comes from:
/// the record keeps the source and takes the new version and time, and the report says that
/// there is nothing newer.
pub proof fn updates_keep_the_source(
    name: Seq<char>,
    entry: EntryView,
    manifest: PluginManifest,
    origin: Seq<char>,
    via_mirror: bool,
    now: Seq<char>,
)
    ensures
        ({
            let r = update_outcome(name, entry, manifest, origin, via_mirror, now);
            &&& r is Some <==> manifest.name@ == name
            &&& r matches Some((record, report)) ==> {
                &&& record.source == entry.source
                &&& record.resolved_version == manifest.version@
                &&& record.installed_at == now
                &&& report.name == name
                &&& report.current_version == manifest.version@
                &&& report.latest_version == Some(manifest.version@)
                &&& !report.has_update
                &&& report.checked
                &&& report.error is None
                &&& report.download_source == Some(origin)
            }
        }),
        !version::newer(manifest.version@, manifest.version@),
{
}

} // verus!
