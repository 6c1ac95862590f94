//! Packages between preview and confirmation.

use crate::install::lock;
use crate::install::lock::{EntryView, InstalledEntry};
use crate::install::package::StagedPackage;
use crate::install::source::{GitSource, SourceView};
use crate::manifest;
use crate::table::Table;
use crate::text;
use vstd::prelude::*;
use vstd::slice::slice_subrange;

verus! {

/// How long a preview waits for its confirmation, in nanoseconds: half an hour.
pub const STAGING_TTL_NANOS: u128 = 1_800_000_000_000;

/// The most characters of a README that a preview shows.
pub const MAX_README_CHARS: usize = 20_000;

/// An installation that waits for its confirmation.
#[derive(Debug)]
pub struct Pending {
    /// The staging directory.
    pub dir: String,
    /// The checked package inside it.
    pub pkg: String,
    pub name: String,
    pub version: String,
    pub source: GitSource,
    /// When it was staged, in nanoseconds since the epoch.
    pub created: u128,
}

/// The installations that wait for their confirmation.
#[derive(Debug)]
pub struct InstallStaging {
    pending: Table<Pending>,
}

impl Default for InstallStaging {
    fn default() -> (r: Self)
        ensures
            r@ == Map::<Seq<char>, Pending>::empty(),
    {
        InstallStaging { pending: Table::new() }
    }
}

impl View for InstallStaging {
    type V = Map<Seq<char>, Pending>;

    closed spec fn view(&self) -> Map<Seq<char>, Pending> {
        self.pending@
    }
}

/// Whether a waiting installation has run out of time. A clock that went back expires nothing.
pub open spec fn expired(p: Pending, now: u128) -> bool {
    now >= p.created && now - p.created > STAGING_TTL_NANOS
}

/// Whether a directory belongs to an installation that has run out of time.
pub open spec fn expired_dir(m: Map<Seq<char>, Pending>, now: u128, dir: Seq<char>) -> bool {
    exists|t: Seq<char>|
        #[trigger] m.dom().contains(t) && expired(m[t], now) && m[t].dir@ == dir
}

impl InstallStaging {
    /// The waiting installations, row by row.
    pub closed spec fn rows(&self) -> Seq<(String, Pending)> {
        self.pending.rows()
    }

    /// Stores an installation under its token.
    pub fn put(&mut self, token: String, p: Pending)
        ensures
            final(self)@ == old(self)@.insert(token@, p),
    {
        self.pending.insert(token, p);
    }

    /// Takes an installation out; a token works once.
    pub fn take(&mut self, token: &str) -> (r: Option<Pending>)
        ensures
            final(self)@ == old(self)@.remove(token@),
            match r {
                Some(p) => old(self)@.dom().contains(token@) && p == old(self)@[token@],
                None => !old(self)@.dom().contains(token@),
            },
    {
        self.pending.remove(token)
    }

    /// Drops what has run out of time and returns the directories to delete.
    pub fn sweep(&mut self, now: u128) -> (r: Vec<String>)
        ensures
            forall|t: Seq<char>|
                #![trigger final(self)@.dom().contains(t)]
                final(self)@.dom().contains(t) <==> old(self)@.dom().contains(t) && !expired(
                    old(self)@[t],
                    now,
                ),
            forall|t: Seq<char>|
                #![trigger final(self)@[t]]
                final(self)@.dom().contains(t) ==> final(self)@[t] == old(self)@[t],
            forall|t: Seq<char>|
                #![trigger old(self)@[t]]
                old(self)@.dom().contains(t) && expired(old(self)@[t], now) ==> lock::listed(
                    r@,
                    old(self)@[t].dir@,
                ),
            forall|k: int| 0 <= k < r@.len() ==> expired_dir(old(self)@, now, (#[trigger] r@[k])@),
    {
        let mut dead: Vec<String> = Vec::new();
        let mut i: usize = 0;
        let n: usize = self.pending.len();
        self.pending.rows_are_distinct();
        let ghost all = self.pending@;
        let ghost rows = self.pending.rows();
        while i < n
            invariant
                i <= n,
                n == rows.len(),
                rows == self.pending.rows(),
                all == self.pending@,
                crate::table::distinct(rows),
                forall|k: int|
                    0 <= k < dead@.len() ==> all.dom().contains((#[trigger] dead@[k])@) && expired(
                        all[dead@[k]@],
                        now,
                    ),
                forall|j: int|
                    0 <= j < i && expired((#[trigger] rows[j]).1, now) ==> lock::listed(
                        dead@,
                        rows[j].0@,
                    ),
            decreases n - i,
        {
            let row = self.pending.row(i);
            let ghost before = dead@;
            if now >= row.1.created && now - row.1.created > STAGING_TTL_NANOS {
                dead.push(row.0.clone());
                assert(dead@[dead@.len() - 1]@ == rows[i as int].0@);
            }
            proof {
                assert forall|j: int| 0 <= j < i && expired((#[trigger] rows[j]).1, now) implies
                    lock::listed(dead@, rows[j].0@) by {
                    assert(lock::listed(before, rows[j].0@));
                    let m = choose|m: int|
                        0 <= m < before.len() && (#[trigger] before[m])@ == rows[j].0@;
                    assert(dead@[m]@ == rows[j].0@);
                }
            }
            i += 1;
        }
        proof {
            assert forall|t: Seq<char>|
                #![trigger all[t]]
                all.dom().contains(t) && expired(all[t], now) implies lock::listed(dead@, t) by {
                self.pending.lemma_rows_cover(t);
                let j = choose|j: int| 0 <= j < rows.len() && (#[trigger] rows[j]).0@ == t;
                self.pending.lemma_row_value(j);
                assert(rows[j].1 == all[t]);
            }
        }
        let mut dirs: Vec<String> = Vec::new();
        let mut k: usize = 0;
        while k < dead.len()
            invariant
                k <= dead@.len(),
                forall|m: int|
                    0 <= m < dead@.len() ==> all.dom().contains((#[trigger] dead@[m])@) && expired(
                        all[dead@[m]@],
                        now,
                    ),
                forall|t: Seq<char>|
                    #![trigger all[t]]
                    all.dom().contains(t) && expired(all[t], now) ==> lock::listed(dead@, t),
                forall|t: Seq<char>|
                    #![trigger self.pending@.dom().contains(t)]
                    self.pending@.dom().contains(t) <==> all.dom().contains(t) && !lock::listed(
                        dead@.take(k as int),
                        t,
                    ),
                forall|t: Seq<char>|
                    #![trigger self.pending@[t]]
                    self.pending@.dom().contains(t) ==> self.pending@[t] == all[t],
                forall|m: int|
                    0 <= m < k ==> lock::listed(dirs@, all[(#[trigger] dead@[m])@].dir@),
                forall|m: int| 0 <= m < dirs@.len() ==> expired_dir(all, now, (#[trigger] dirs@[m])@),
            decreases dead@.len() - k,
        {
            let ghost gone = dead@.take(k as int);
            let ghost name = dead@[k as int]@;
            let ghost before = dirs@;
            assert forall|t: Seq<char>| #[trigger] lock::listed(dead@.take(k + 1), t)
                <==> lock::listed(gone, t) || t == name by {
                if lock::listed(dead@.take(k + 1), t) {
                    let m = choose|m: int|
                        0 <= m < k + 1 && (#[trigger] dead@.take(k + 1)[m])@ == t;
                    if m < k {
                        assert(gone[m]@ == t);
                    }
                }
                if lock::listed(gone, t) {
                    let m = choose|m: int| 0 <= m < gone.len() && (#[trigger] gone[m])@ == t;
                    assert(dead@.take(k + 1)[m]@ == t);
                }
                assert(dead@.take(k + 1)[k as int]@ == name);
            }
            match self.pending.remove(dead[k].as_str()) {
                Some(p) => {
                    assert(all.dom().contains(name));
                    assert(expired_dir(all, now, p.dir@));
                    dirs.push(p.dir);
                    assert(dirs@[dirs@.len() - 1]@ == all[name].dir@);
                },
                None => {
                    proof {
                        let m = choose|m: int| 0 <= m < gone.len() && (#[trigger] gone[m])@ == name;
                        assert(dead@[m]@ == name);
                        assert(lock::listed(dirs@, all[dead@[m]@].dir@));
                    }
                },
            }
            proof {
                assert forall|m: int| 0 <= m < k + 1 implies lock::listed(
                    dirs@,
                    all[(#[trigger] dead@[m])@].dir@,
                ) by {
                    if m < k {
                        assert(lock::listed(before, all[dead@[m]@].dir@));
                        let q = choose|q: int|
                            0 <= q < before.len() && (#[trigger] before[q])@
                                == all[dead@[m]@].dir@;
                        assert(dirs@[q]@ == all[dead@[m]@].dir@);
                    }
                }
            }
            k += 1;
        }
        proof {
            assert(dead@.take(k as int) =~= dead@);
            assert forall|t: Seq<char>|
                #![trigger self.pending@.dom().contains(t)]
                self.pending@.dom().contains(t) <==> all.dom().contains(t) && !expired(
                    all[t],
                    now,
                ) by {
                if lock::listed(dead@, t) {
                    let m = choose|m: int| 0 <= m < dead@.len() && (#[trigger] dead@[m])@ == t;
                    assert(expired(all[dead@[m]@], now));
                }
            }
            assert forall|t: Seq<char>|
                #![trigger all[t]]
                all.dom().contains(t) && expired(all[t], now) implies lock::listed(
                dirs@,
                all[t].dir@,
            ) by {
                let m = choose|m: int| 0 <= m < dead@.len() && (#[trigger] dead@[m])@ == t;
                assert(lock::listed(dirs@, all[dead@[m]@].dir@));
            }
        }
        dirs
    }
}

// ---------------------------------------------------------------------------
// Built-in plugins
// ---------------------------------------------------------------------------

/// Whether a plugin comes with the application; `builtins` lists those that do.
pub fn is_builtin(name: &str, builtins: &[String]) -> (r: bool)
    ensures
        r == lock::listed(builtins@, name@),
{
    lock::is_listed(builtins, name)
}

/// The directories of a listing, in order.
pub open spec fn dirs_in(v: Seq<(String, bool)>) -> Seq<Seq<char>>
    decreases v.len(),
{
    if v.len() == 0 {
        Seq::empty()
    } else if v.last().1 {
        dirs_in(v.drop_last()).push(v.last().0@)
    } else {
        dirs_in(v.drop_last())
    }
}

/// The plugins that come with the application: the directories among its resources, where
/// the plugin root is filled from them at all.
pub fn init_builtins(seeded: bool, resources: &[(String, bool)]) -> (r: Vec<String>)
    ensures
        text::texts(r@) == if seeded {
            dirs_in(resources@)
        } else {
            Seq::empty()
        },
{
    let mut out: Vec<String> = Vec::new();
    assert(text::texts(out@) =~= Seq::<Seq<char>>::empty());
    if !seeded {
        return out;
    }
    let mut i: usize = 0;
    assert(resources@.take(0) =~= Seq::<(String, bool)>::empty());
    while i < resources.len()
        invariant
            i <= resources@.len(),
            text::texts(out@) == dirs_in(resources@.take(i as int)),
        decreases resources@.len() - i,
    {
        assert(resources@.take(i + 1).drop_last() =~= resources@.take(i as int));
        if resources[i].1 {
            let ghost before = out@;
            out.push(resources[i].0.clone());
            assert(text::texts(out@) =~= text::texts(before).push(resources@[i as int].0@));
        }
        i += 1;
    }
    assert(resources@.take(i as int) =~= resources@);
    out
}

// ---------------------------------------------------------------------------
// Previews
// ---------------------------------------------------------------------------

/// What the user sees before an installation.
#[derive(Debug)]
pub struct InstallPreview {
    pub token: String,
    pub name: String,
    pub version: String,
    pub description: String,
    pub author: String,
    pub permissions: Vec<String>,
    pub feature_count: usize,
    pub cmds: Vec<String>,
    pub logo: Option<String>,
    pub readme: Option<String>,
    pub source: GitSource,
    pub already_installed: bool,
    pub installed_version: Option<String>,
    /// The installed plugin of this name came from the same address.
    pub same_source: bool,
    pub is_builtin: bool,
    pub file_count: usize,
    pub total_bytes: u64,
    pub download_source: String,
    pub via_mirror: bool,
    pub hash_verified: bool,
}

/// The end of a README that was cut.
pub open spec fn readme_notice() -> Seq<char> {
    "\n\n…（README 过长，已截断）"@
}

/// A README as a preview shows it.
pub open spec fn clipped(s: Seq<char>) -> Seq<char> {
    if s.len() <= MAX_README_CHARS {
        s
    } else {
        s.take(MAX_README_CHARS - readme_notice().len()) + readme_notice()
    }
}

/// Cuts a README that is too long, see [`clipped`].
pub fn read_readme(s: String) -> (r: String)
    ensures
        r@ == clipped(s@),
{
    proof {
        reveal_strlit("\n\n…（README 过长，已截断）");
    }
    let v = text::chars_of(s.as_str());
    if v.len() <= MAX_README_CHARS {
        return s;
    }
    let notice = "\n\n…（README 过长，已截断）";
    let n = text::chars_of(notice);
    let head = slice_subrange(v.as_slice(), 0, MAX_README_CHARS - n.len());
    assert(head@ =~= s@.take(MAX_README_CHARS - readme_notice().len()));
    text::string_of(head).concat(notice)
}

/// A shown README never has more characters than the limit.
pub proof fn readme_is_bounded(s: Seq<char>)
    ensures
        clipped(s).len() <= MAX_README_CHARS,
{
    reveal_strlit("\n\n…（README 过长，已截断）");
}

/// The bytes in all rows.
pub open spec fn bytes_in(rows: Seq<(String, Vec<u8>)>) -> nat
    decreases rows.len(),
{
    if rows.len() == 0 {
        0
    } else {
        bytes_in(rows.drop_last()) + rows.last().1@.len()
    }
}

/// The number of files and bytes of a package.
pub fn dir_stats(files: &Table<Vec<u8>>) -> (r: (usize, u64))
    ensures
        r.0 == files.rows().len(),
        r.1 == if bytes_in(files.rows()) <= u64::MAX {
            bytes_in(files.rows()) as u64
        } else {
            u64::MAX
        },
{
    let ghost rows = files.rows();
    let n: usize = files.len();
    let mut total: u64 = 0;
    let mut i: usize = 0;
    assert(rows.take(0) =~= Seq::<(String, Vec<u8>)>::empty());
    while i < n
        invariant
            i <= n,
            n == rows.len(),
            rows == files.rows(),
            total == if bytes_in(rows.take(i as int)) <= u64::MAX {
                bytes_in(rows.take(i as int)) as u64
            } else {
                u64::MAX
            },
        decreases n - i,
    {
        assert(rows.take(i + 1).drop_last() =~= rows.take(i as int));
        let row = files.row(i);
        let len: u64 = row.1.len() as u64;
        total = if len > u64::MAX - total {
            u64::MAX
        } else {
            total + len
        };
        i += 1;
    }
    assert(rows.take(i as int) =~= rows);
    (n, total)
}

/// Whether the entry at an index is the first with the name.
pub open spec fn first_installed(v: Seq<(String, String)>, name: Seq<char>, k: int) -> bool {
    &&& 0 <= k < v.len()
    &&& v[k].0@ == name
    &&& forall|j: int| 0 <= j < k ==> (#[trigger] v[j]).0@ != name
}

/// The version of an installed plugin.
pub fn installed_version(installed: &[(String, String)], name: &str) -> (r: Option<String>)
    ensures
        match r {
            Some(v) => exists|k: int|
                #[trigger] first_installed(installed@, name@, k) && v@ == installed@[k].1@,
            None => forall|j: int|
                0 <= j < installed@.len() ==> (#[trigger] installed@[j]).0@ != name@,
        },
{
    let mut i: usize = 0;
    while i < installed.len()
        invariant
            i <= installed@.len(),
            forall|j: int| 0 <= j < i ==> (#[trigger] installed@[j]).0@ != name@,
        decreases installed@.len() - i,
    {
        if text::str_eq(installed[i].0.as_str(), name) {
            assert(first_installed(installed@, name@, i as int));
            return Some(installed[i].1.clone());
        }
        i += 1;
    }
    None
}

/// Whether a plugin was installed from the same address before.
pub fn same_source(prior_url: Option<&str>, source: &GitSource) -> (r: bool)
    ensures
        r == (text::opt_str(prior_url) == Some(source.url@)),
{
    match prior_url {
        Some(u) => text::str_eq(u, source.url.as_str()),
        None => false,
    }
}

fn copy_texts(v: &Vec<String>) -> (r: Vec<String>)
    ensures
        text::texts(r@) == text::texts(v@),
{
    let mut out: Vec<String> = Vec::new();
    let mut i: usize = 0;
    assert(text::texts(out@) =~= text::texts(v@).take(0));
    while i < v.len()
        invariant
            i <= v@.len(),
            text::texts(out@) == text::texts(v@).take(i as int),
        decreases v@.len() - i,
    {
        let ghost before = out@;
        out.push(v[i].clone());
        assert(text::texts(out@) =~= text::texts(before).push(v@[i as int]@));
        assert(text::texts(v@).take(i + 1) =~= text::texts(v@).take(i as int).push(v@[i as int]@));
        i += 1;
    }
    assert(text::texts(v@).take(i as int) =~= text::texts(v@));
    out
}

/// Whether a preview shows a package as it is.
pub open spec fn shows(p: InstallPreview, staged: StagedPackage, source: SourceView) -> bool {
    &&& p.name@ == staged.manifest.name@
    &&& p.version@ == staged.manifest.version@
    &&& p.description@ == staged.manifest.description@
    &&& p.author@ == staged.manifest.author@
    &&& text::texts(p.permissions@) == text::texts(staged.manifest.permissions@)
    &&& p.feature_count == staged.manifest.features@.len()
    &&& text::texts(p.cmds@) == manifest::keywords_of(staged.manifest.features@)
    &&& p.source@ == source
    &&& p.file_count == staged.files.rows().len()
    &&& p.total_bytes == if bytes_in(staged.files.rows()) <= u64::MAX {
        bytes_in(staged.files.rows()) as u64
    } else {
        u64::MAX
    }
    &&& p.download_source@ == staged.download_source@
    &&& p.via_mirror == staged.via_mirror
    &&& p.hash_verified == staged.hash_verified
}

/// Builds the preview of a staged package.
///
/// `prior_url` is the address that the record gives for the installed plugin of this name.
pub fn build_preview(
    token: &str,
    staged: &StagedPackage,
    source: &GitSource,
    logo: Option<String>,
    readme: Option<String>,
    installed: &[(String, String)],
    prior_url: Option<&str>,
    builtins: &[String],
) -> (r: InstallPreview)
    ensures
        r.token@ == token@,
        shows(r, *staged, source@),
        r.logo == logo,
        text::opt_view(r.readme) == (match readme {
            Some(s) => Some(clipped(s@)),
            None => None,
        }),
        r.already_installed == (r.installed_version is Some),
        match r.installed_version {
            Some(v) => exists|k: int|
                #[trigger] first_installed(installed@, staged.manifest.name@, k) && v@
                    == installed@[k].1@,
            None => forall|j: int|
                0 <= j < installed@.len() ==> (#[trigger] installed@[j]).0@
                    != staged.manifest.name@,
        },
        r.same_source == (text::opt_str(prior_url) == Some(source.url@)),
        r.is_builtin == lock::listed(builtins@, staged.manifest.name@),
{
    let name = staged.manifest.name.as_str();
    let (file_count, total_bytes) = dir_stats(&staged.files);
    let version = installed_version(installed, name);
    InstallPreview {
        token: text::owned(token),
        name: text::owned(name),
        version: staged.manifest.version.clone(),
        description: staged.manifest.description.clone(),
        author: staged.manifest.author.clone(),
        permissions: copy_texts(&staged.manifest.permissions),
        feature_count: staged.manifest.features.len(),
        cmds: manifest::keyword_cmds(&staged.manifest),
        logo,
        readme: match readme {
            Some(s) => Some(read_readme(s)),
            None => None,
        },
        source: source.clone(),
        already_installed: version.is_some(),
        installed_version: version,
        same_source: same_source(prior_url, source),
        is_builtin: is_builtin(name, builtins),
        file_count,
        total_bytes,
        download_source: staged.download_source.clone(),
        via_mirror: staged.via_mirror,
        hash_verified: staged.hash_verified,
    }
}

/// Whether the list of waiting installations after a preview holds it, and all others as before.
pub open spec fn holds(
    before: Map<Seq<char>, Pending>,
    after: Map<Seq<char>, Pending>,
    preview: InstallPreview,
    dir: String,
    pkg: String,
    now: u128,
) -> bool {
    let p = after[preview.token@];
    &&& after.dom() == before.dom().insert(preview.token@)
    &&& forall|t: Seq<char>|
        #![trigger after[t]]
        t != preview.token@ && before.dom().contains(t) ==> after[t] == before[t]
    &&& p.dir == dir
    &&& p.pkg == pkg
    &&& p.name@ == preview.name@
    &&& p.version@ == preview.version@
    &&& p.source@ == preview.source@
    &&& p.created == now
}

/// Puts a previewed package into the waiting list.
pub fn hold_preview(
    staging: &mut InstallStaging,
    preview: &InstallPreview,
    dir: String,
    pkg: String,
    now: u128,
)
    ensures
        holds(old(staging)@, final(staging)@, *preview, dir, pkg, now),
{
    let token = preview.token.clone();
    let p = Pending {
        dir,
        pkg,
        name: preview.name.clone(),
        version: preview.version.clone(),
        source: preview.source.clone(),
        created: now,
    };
    staging.put(token, p);
}

// ---------------------------------------------------------------------------
// Confirmation
// ---------------------------------------------------------------------------

/// What a confirmation leads to.
#[derive(Debug)]
pub enum Confirm {
    /// The token stands for nothing any more.
    Expired(String),
    /// The plugin comes with the application: delete the directory and refuse.
    Refused { dir: String, why: String },
    /// Put the package in its place.
    Place(Pending),
}

/// Whether a decision is the one on a token: nothing waits under it, the plugin comes with the
/// application, or its package is put in its place.
pub open spec fn is_decision(
    waiting: Map<Seq<char>, Pending>,
    token: Seq<char>,
    builtins: Seq<String>,
    d: Confirm,
) -> bool {
    if !waiting.dom().contains(token) {
        d matches Confirm::Expired(e) && e@
            == "安装会话已失效（可能已超时或已被处理），请重新解析仓库地址"@
    } else if lock::listed(builtins, waiting[token].name@) {
        d matches Confirm::Refused { dir, why } && dir == waiting[token].dir && why@ == "「"@
            + waiting[token].name@
            + "」是随安装包分发的内置插件，不能被 Git 安装覆盖（每次启动都会被内置版本播种回来）"@
    } else {
        d matches Confirm::Place(p) && p == waiting[token]
    }
}

/// What is confirmed is what was shown: a confirmation that follows a preview puts the package
/// of that preview in its place, under the name, version and source that the preview told, or
/// is refused because the plugin comes with the application. A second one finds nothing.
pub proof fn what_is_confirmed_was_shown(
    before: Map<Seq<char>, Pending>,
    after: Map<Seq<char>, Pending>,
    preview: InstallPreview,
    dir: String,
    pkg: String,
    now: u128,
    builtins: Seq<String>,
    first: Confirm,
    second: Confirm,
)
    requires
        holds(before, after, preview, dir, pkg, now),
        is_decision(after, preview.token@, builtins, first),
        is_decision(after.remove(preview.token@), preview.token@, builtins, second),
    ensures
        match first {
            Confirm::Expired(_) => false,
            Confirm::Refused { dir: d, why } => lock::listed(builtins, preview.name@) && d == dir,
            Confirm::Place(p) => !lock::listed(builtins, preview.name@) && p.pkg == pkg && p.name@
                == preview.name@ && p.version@ == preview.version@ && p.source@ == preview.source@,
        },
        second is Expired,
{
}

/// Decides on a confirmation. The token is used up in any case.
pub fn plugin_install_confirm(
    staging: &mut InstallStaging,
    token: &str,
    builtins: &[String],
) -> (r: Confirm)
    ensures
        final(staging)@ == old(staging)@.remove(token@),
        is_decision(old(staging)@, token@, builtins@, r),
{
    match staging.take(token) {
        None => Confirm::Expired(
            text::owned("安装会话已失效（可能已超时或已被处理），请重新解析仓库地址"),
        ),
        Some(p) => {
            if is_builtin(p.name.as_str(), builtins) {
                let why = text::owned("「").concat(p.name.as_str()).concat(
                    "」是随安装包分发的内置插件，不能被 Git 安装覆盖（每次启动都会被内置版本播种回来）",
                );
                Confirm::Refused { dir: p.dir, why }
            } else {
                Confirm::Place(p)
            }
        },
    }
}

/// The record of a confirmed installation.
pub fn installed_record(p: &Pending, now: String) -> (r: InstalledEntry)
    ensures
        r@ == (EntryView {
            source: p.source@,
            resolved_version: p.version@,
            installed_at: now@,
        }),
{
    InstalledEntry {
        source: p.source.clone(),
        resolved_version: p.version.clone(),
        installed_at: now,
    }
}

/// Takes away what was granted to a plugin of this name, unless it came from the same address
/// before. Returns whether anything was taken away.
pub fn clear_permissions(
    granted: &mut Table<Vec<String>>,
    name: &str,
    prior_url: Option<&str>,
    source: &GitSource,
) -> (r: bool)
    ensures
        final(granted)@ == permissions_after(
            old(granted)@,
            name@,
            text::opt_str(prior_url),
            source.url@,
        ),
        final(granted)@ == if text::opt_str(prior_url) == Some(source.url@) {
            old(granted)@
        } else {
            old(granted)@.remove(name@)
        },
        r == (text::opt_str(prior_url) != Some(source.url@) && old(granted)@.dom().contains(name@)),
{
    if same_source(prior_url, source) {
        false
    } else {
        granted.remove(name).is_some()
    }
}

/// What is granted after a plugin was installed from an address, where `prior` is the one that
/// it came from before.
pub open spec fn permissions_after(
    granted: Map<Seq<char>, Vec<String>>,
    name: Seq<char>,
    prior: Option<Seq<char>>,
    url: Seq<char>,
) -> Map<Seq<char>, Vec<String>> {
    if prior == Some(url) {
        granted
    } else {
        granted.remove(name)
    }
}

/// A plugin that comes from another address than before starts without any permission; one
/// from the same address keeps what it had.
pub proof fn permissions_follow_the_source(
    granted: Map<Seq<char>, Vec<String>>,
    name: Seq<char>,
    prior: Option<Seq<char>>,
    url: Seq<char>,
)
    ensures
        ({
            let after = permissions_after(granted, name, prior, url);
            &&& prior != Some(url) ==> !after.dom().contains(name)
            &&& prior == Some(url) ==> after == granted
            &&& forall|other: Seq<char>|
                other != name ==> (#[trigger] after.dom().contains(other)
                    == granted.dom().contains(other))
        }),
{
}

/// A preview waits for half an hour, to the nanosecond, and no longer.
pub proof fn previews_wait_half_an_hour(p: Pending, now: u128)
    ensures
        expired(p, now) <==> now > p.created + 30int * 60 * 1_000_000_000,
{
}

/// A README of up to 20000 characters is shown whole; of a longer one the front is shown, with
/// a notice at its end, 20000 characters in all.
pub proof fn long_readmes_are_cut(s: Seq<char>)
    ensures
        s.len() <= 20_000 ==> clipped(s) == s,
        s.len() > 20_000 ==> {
            let shown = clipped(s);
            let kept = shown.len() - readme_notice().len();
            &&& shown.len() == 20_000
            &&& kept > 19_900
            &&& shown.take(kept) == s.take(kept)
            &&& shown.skip(kept) == readme_notice()
        },
{
    reveal_strlit("\n\n…（README 过长，已截断）");
    if s.len() > 20_000 {
        let shown = clipped(s);
        let kept = shown.len() - readme_notice().len();
        assert(shown.take(kept) =~= s.take(kept));
        assert(shown.skip(kept) =~= readme_notice());
    }
}

/// The plugins that come with the application are the directories among its resources, each of
/// them and nothing else.
pub proof fn every_directory_is_built_in(v: Seq<(String, bool)>, name: Seq<char>)
    ensures
        dirs_in(v).contains(name) <==> exists|k: int|
            0 <= k < v.len() && (#[trigger] v[k]).1 && v[k].0@ == name,
    decreases v.len(),
{
    let all = dirs_in(v);
    if v.len() > 0 {
        let less = v.drop_last();
        let before = dirs_in(less);
        every_directory_is_built_in(less, name);
        if all.contains(name) {
            let i = choose|i: int| 0 <= i < all.len() && all[i] == name;
            if i < before.len() {
                assert(before[i] == name);
                let k = choose|k: int|
                    0 <= k < less.len() && (#[trigger] less[k]).1 && less[k].0@ == name;
                assert(v[k] == less[k]);
            } else {
                assert(v[v.len() - 1].1);
            }
        }
        if exists|k: int| 0 <= k < v.len() && (#[trigger] v[k]).1 && v[k].0@ == name {
            let k = choose|k: int| 0 <= k < v.len() && (#[trigger] v[k]).1 && v[k].0@ == name;
            if k < less.len() {
                assert(less[k] == v[k]);
                assert(before.contains(name));
                let i = choose|i: int| 0 <= i < before.len() && before[i] == name;
                assert(all[i] == name);
            } else {
                assert(all[before.len() as int] == name);
            }
        }
    }
}

} // verus!
