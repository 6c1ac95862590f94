//! From a downloaded archive to a package that is ready to be installed.

use crate::install::archive;
use crate::install::archive::Unpacked;
use crate::install::source;
use crate::install::source::GitSource;
use crate::manifest;
use crate::manifest::PluginManifest;
use crate::market;
use crate::table::Table;
use crate::text;
use vstd::prelude::*;

verus! {

/// What a download brought.
#[derive(Debug)]
pub struct Fetched {
    pub bytes: Vec<u8>,
    pub source_label: String,
    pub via_mirror: bool,
    pub hash_verified: bool,
}

/// The files of a package, with where they came from.
#[derive(Debug)]
pub struct Staged {
    /// Relative paths and contents.
    pub files: Table<Vec<u8>>,
    /// The relative paths of the directories that the archive names.
    pub dirs: Vec<String>,
    pub download_source: String,
    pub via_mirror: bool,
    pub hash_verified: bool,
}

/// A package that passed every check.
#[derive(Debug)]
pub struct StagedPackage {
    pub files: Table<Vec<u8>>,
    pub dirs: Vec<String>,
    pub manifest: PluginManifest,
    pub download_source: String,
    pub via_mirror: bool,
    pub hash_verified: bool,
}

// ---------------------------------------------------------------------------
// The directory that holds the package
// ---------------------------------------------------------------------------

/// The name of the only thing in a directory, where that is a directory itself.
pub fn single_root(entries: &[(String, bool)]) -> (r: Option<String>)
    ensures
        text::opt_view(r) == only_dir(listing(entries@)),
{
    if entries.len() == 1 && entries[0].1 {
        Some(entries[0].0.clone())
    } else {
        None
    }
}

/// The views of a directory listing: names, and whether each is a directory.
pub open spec fn listing(v: Seq<(String, bool)>) -> Seq<(Seq<char>, bool)> {
    v.map_values(|e: (String, bool)| (e.0@, e.1))
}

pub open spec fn only_dir(v: Seq<(Seq<char>, bool)>) -> Option<Seq<char>> {
    if v.len() == 1 && v[0].1 {
        Some(v[0].0)
    } else {
        None
    }
}

/// The index of a name in a listing; its length when the name is not there.
pub open spec fn listing_index(v: Seq<(Seq<char>, bool)>, name: Seq<char>) -> nat
    decreases v.len(),
{
    if v.len() == 0 || v[0].0 == name {
        0
    } else {
        1 + listing_index(v.drop_first(), name)
    }
}

/// A listing with one more thing seen.
pub open spec fn seen(v: Seq<(Seq<char>, bool)>, name: Seq<char>, dir: bool) -> Seq<
    (Seq<char>, bool),
> {
    let i = listing_index(v, name);
    if i < v.len() {
        v.update(i as int, (name, v[i as int].1 || dir))
    } else {
        v.push((name, dir))
    }
}

/// What lies at the top of the unpacked things.
pub open spec fn top_level(v: Seq<(Seq<Seq<char>>, Option<Seq<u8>>)>) -> Seq<(Seq<char>, bool)>
    decreases v.len(),
{
    if v.len() == 0 {
        Seq::empty()
    } else {
        let u = v.last();
        let before = top_level(v.drop_last());
        if u.0.len() == 0 {
            before
        } else {
            seen(before, u.0[0], u.0.len() > 1 || u.1 is None)
        }
    }
}

fn find_listed(v: &Vec<(String, bool)>, name: &str) -> (r: usize)
    ensures
        r == listing_index(listing(v@), name@),
        r <= v@.len(),
{
    let ghost all = listing(v@);
    let mut i: usize = 0;
    assert(all.skip(0) =~= all);
    while i < v.len()
        invariant
            i <= v@.len(),
            all == listing(v@),
            listing_index(all, name@) == i + listing_index(all.skip(i as int), name@),
        decreases v@.len() - i,
    {
        assert(all.skip(i as int).drop_first() =~= all.skip(i + 1));
        assert(all.skip(i as int)[0] == (v@[i as int].0@, v@[i as int].1));
        if text::str_eq(v[i].0.as_str(), name) {
            return i;
        }
        i += 1;
    }
    i
}

/// Lists what lies at the top of the unpacked things.
pub fn list_top(v: &Vec<Unpacked>) -> (r: Vec<(String, bool)>)
    ensures
        listing(r@) == top_level(archive::unpacked_views(v@)),
{
    let ghost all = archive::unpacked_views(v@);
    let mut out: Vec<(String, bool)> = Vec::new();
    let mut i: usize = 0;
    assert(all.take(0) =~= Seq::<(Seq<Seq<char>>, Option<Seq<u8>>)>::empty());
    assert(listing(out@) =~= Seq::<(Seq<char>, bool)>::empty());
    while i < v.len()
        invariant
            i <= v@.len(),
            all == archive::unpacked_views(v@),
            listing(out@) == top_level(all.take(i as int)),
        decreases v@.len() - i,
    {
        assert(all.take(i + 1).drop_last() =~= all.take(i as int));
        assert(all.take(i + 1).last() == v@[i as int]@);
        let u = &v[i];
        if u.path.len() > 0 {
            let name = u.path[0].clone();
            assert(name@ == v@[i as int]@.0[0]);
            let dir = u.path.len() > 1 || u.data.is_none();
            let k = find_listed(&out, name.as_str());
            let ghost before = out@;
            if k < out.len() {
                let flag = out[k].1 || dir;
                let kept = out[k].0.clone();
                assert(kept@ == name@) by {
                    lemma_listing_index(listing(before), name@);
                }
                out.set(k, (kept, flag));
                assert(listing(out@) =~= listing(before).update(k as int, (name@, flag)));
            } else {
                out.push((name, dir));
                assert(listing(out@) =~= listing(before).push((name@, dir)));
            }
        }
        i += 1;
    }
    assert(all.take(i as int) =~= all);
    out
}

proof fn lemma_listing_index(v: Seq<(Seq<char>, bool)>, name: Seq<char>)
    ensures
        listing_index(v, name) <= v.len(),
        listing_index(v, name) < v.len() ==> v[listing_index(v, name) as int].0 == name,
    decreases v.len(),
{
    if v.len() > 0 && v[0].0 != name {
        lemma_listing_index(v.drop_first(), name);
    }
}

/// Whether unpacking leaves a directory at `dir`.
pub open spec fn dir_exists(
    v: Seq<(Seq<Seq<char>>, Option<Seq<u8>>)>,
    dir: Seq<Seq<char>>,
) -> bool {
    dir.len() == 0 || exists|k: int|
        0 <= k < v.len() && archive::under((#[trigger] v[k]).0, dir) && (v[k].0.len() > dir.len()
            || v[k].1 is None)
}

/// Whether unpacking leaves anything at `path`.
pub open spec fn path_exists(
    v: Seq<(Seq<Seq<char>>, Option<Seq<u8>>)>,
    path: Seq<Seq<char>>,
) -> bool {
    exists|k: int| 0 <= k < v.len() && archive::under((#[trigger] v[k]).0, path)
}

/// The files below a directory: relative paths and contents. A later file replaces an earlier
/// one of the same path.
pub open spec fn files_below(
    v: Seq<(Seq<Seq<char>>, Option<Seq<u8>>)>,
    dir: Seq<Seq<char>>,
) -> Map<Seq<char>, Seq<u8>>
    decreases v.len(),
{
    if v.len() == 0 {
        Map::empty()
    } else {
        let u = v.last();
        let before = files_below(v.drop_last(), dir);
        match u.1 {
            Some(d) => if archive::under(u.0, dir) && u.0.len() > dir.len() {
                before.insert(text::joined(u.0.skip(dir.len() as int), "/"@), d)
            } else {
                before
            },
            None => before,
        }
    }
}

/// The directories below a directory that are named, as relative paths.
pub open spec fn dirs_below(
    v: Seq<(Seq<Seq<char>>, Option<Seq<u8>>)>,
    dir: Seq<Seq<char>>,
) -> Seq<Seq<char>>
    decreases v.len(),
{
    if v.len() == 0 {
        Seq::empty()
    } else {
        let u = v.last();
        let before = dirs_below(v.drop_last(), dir);
        if u.1 is None && archive::under(u.0, dir) && u.0.len() > dir.len() {
            before.push(text::joined(u.0.skip(dir.len() as int), "/"@))
        } else {
            before
        }
    }
}

/// What a package holds.
pub struct PackageView {
    pub files: Map<Seq<char>, Seq<u8>>,
    pub dirs: Seq<Seq<char>>,
}

/// What lies below a directory.
pub open spec fn package_below(
    v: Seq<(Seq<Seq<char>>, Option<Seq<u8>>)>,
    dir: Seq<Seq<char>>,
) -> PackageView {
    PackageView { files: files_below(v, dir), dirs: dirs_below(v, dir) }
}

impl Staged {
    /// Whether this is a package.
    pub open spec fn is_package(&self, p: PackageView) -> bool {
        contents(self.files@) == p.files && text::texts(self.dirs@) == p.dirs
    }
}

/// The contents of a table of files.
pub open spec fn contents(m: Map<Seq<char>, Vec<u8>>) -> Map<Seq<char>, Seq<u8>> {
    m.map_values(|d: Vec<u8>| d@)
}

fn has_dir(v: &Vec<Unpacked>, dir: &Vec<String>) -> (r: bool)
    ensures
        r == dir_exists(archive::unpacked_views(v@), text::texts(dir@)),
{
    if dir.len() == 0 {
        return true;
    }
    let ghost all = archive::unpacked_views(v@);
    let ghost d = text::texts(dir@);
    let mut i: usize = 0;
    while i < v.len()
        invariant
            i <= v@.len(),
            dir@.len() > 0,
            all == archive::unpacked_views(v@),
            d == text::texts(dir@),
            forall|k: int|
                0 <= k < i ==> !(archive::under((#[trigger] all[k]).0, d) && (all[k].0.len() > d.len()
                    || all[k].1 is None)),
        decreases v@.len() - i,
    {
        assert(all[i as int] == v@[i as int]@);
        if archive::is_under(&v[i].path, dir) && (v[i].path.len() > dir.len() || v[i].data.is_none()) {
            return true;
        }
        i += 1;
    }
    false
}

fn has_path(v: &Vec<Unpacked>, path: &Vec<String>) -> (r: bool)
    ensures
        r == path_exists(archive::unpacked_views(v@), text::texts(path@)),
{
    let ghost all = archive::unpacked_views(v@);
    let ghost d = text::texts(path@);
    let mut i: usize = 0;
    while i < v.len()
        invariant
            i <= v@.len(),
            all == archive::unpacked_views(v@),
            d == text::texts(path@),
            forall|k: int| 0 <= k < i ==> !archive::under((#[trigger] all[k]).0, d),
        decreases v@.len() - i,
    {
        assert(all[i as int] == v@[i as int]@);
        if archive::is_under(&v[i].path, path) {
            return true;
        }
        i += 1;
    }
    false
}

fn tail_path(path: &Vec<String>, from: usize) -> (r: String)
    requires
        from <= path@.len(),
    ensures
        r@ == text::joined(text::texts(path@).skip(from as int), "/"@),
{
    let mut rest: Vec<String> = Vec::new();
    let mut i: usize = from;
    let ghost all = text::texts(path@);
    assert(text::texts(rest@) =~= all.subrange(from as int, from as int));
    while i < path.len()
        invariant
            from <= i <= path@.len(),
            all == text::texts(path@),
            text::texts(rest@) == all.subrange(from as int, i as int),
        decreases path@.len() - i,
    {
        let ghost before = rest@;
        rest.push(path[i].clone());
        assert(text::texts(rest@) =~= text::texts(before).push(path@[i as int]@));
        assert(all.subrange(from as int, i + 1) =~= all.subrange(from as int, i as int).push(
            all[i as int],
        ));
        i += 1;
    }
    assert(all.subrange(from as int, i as int) =~= all.skip(from as int));
    text::join_strings(&rest, "/")
}

fn copy_bytes(b: &Vec<u8>) -> (r: Vec<u8>)
    ensures
        r@ == b@,
{
    let mut out: Vec<u8> = Vec::new();
    out.extend_from_slice(b.as_slice());
    assert(out@ =~= b@);
    out
}

/// Gathers the files below a directory.
fn gather(v: &Vec<Unpacked>, dir: &Vec<String>) -> (r: Table<Vec<u8>>)
    ensures
        contents(r@) == files_below(archive::unpacked_views(v@), text::texts(dir@)),
{
    let ghost all = archive::unpacked_views(v@);
    let ghost d = text::texts(dir@);
    let mut out: Table<Vec<u8>> = Table::new();
    let mut i: usize = 0;
    assert(all.take(0) =~= Seq::<(Seq<Seq<char>>, Option<Seq<u8>>)>::empty());
    assert(contents(out@) =~= Map::<Seq<char>, Seq<u8>>::empty());
    while i < v.len()
        invariant
            i <= v@.len(),
            all == archive::unpacked_views(v@),
            d == text::texts(dir@),
            contents(out@) == files_below(all.take(i as int), d),
        decreases v@.len() - i,
    {
        assert(all.take(i + 1).drop_last() =~= all.take(i as int));
        assert(all.take(i + 1).last() == v@[i as int]@);
        if let Some(data) = &v[i].data {
            if archive::is_under(&v[i].path, dir) && v[i].path.len() > dir.len() {
                let name = tail_path(&v[i].path, dir.len());
                let ghost before = out@;
                let copy = copy_bytes(data);
                out.insert(name, copy);
                assert(contents(out@) =~= contents(before).insert(name@, data@));
            }
        }
        i += 1;
    }
    assert(all.take(i as int) =~= all);
    out
}

/// Gathers the directories below a directory.
fn gather_dirs(v: &Vec<Unpacked>, dir: &Vec<String>) -> (r: Vec<String>)
    ensures
        text::texts(r@) == dirs_below(archive::unpacked_views(v@), text::texts(dir@)),
{
    let ghost all = archive::unpacked_views(v@);
    let ghost d = text::texts(dir@);
    let mut out: Vec<String> = Vec::new();
    let mut i: usize = 0;
    assert(all.take(0) =~= Seq::<(Seq<Seq<char>>, Option<Seq<u8>>)>::empty());
    assert(text::texts(out@) =~= Seq::<Seq<char>>::empty());
    while i < v.len()
        invariant
            i <= v@.len(),
            all == archive::unpacked_views(v@),
            d == text::texts(dir@),
            text::texts(out@) == dirs_below(all.take(i as int), d),
        decreases v@.len() - i,
    {
        assert(all.take(i + 1).drop_last() =~= all.take(i as int));
        assert(all.take(i + 1).last() == v@[i as int]@);
        if v[i].data.is_none() && archive::is_under(&v[i].path, dir) && v[i].path.len() > dir.len() {
            let name = tail_path(&v[i].path, dir.len());
            let ghost before = out@;
            out.push(name);
            assert(text::texts(out@) =~= text::texts(before).push(name@));
        }
        i += 1;
    }
    assert(all.take(i as int) =~= all);
    out
}

// ---------------------------------------------------------------------------
// Staging
// ---------------------------------------------------------------------------

/// The only top level directory, as a path; the root itself when there is none.
pub open spec fn package_root(v: Seq<(Seq<Seq<char>>, Option<Seq<u8>>)>) -> Seq<Seq<char>> {
    match only_dir(top_level(v)) {
        Some(n) => seq![n],
        None => Seq::empty(),
    }
}

/// The package in a repository's archive that is unpacked below `dest`, or what is wrong with
/// it.
pub open spec fn source_package(bytes: Seq<u8>, dest: Seq<char>, sub: Seq<char>) -> Result<
    PackageView,
    Seq<char>,
> {
    match archive::unpacked(bytes, dest) {
        Err(e) => Err(e),
        Ok(v) => {
            let dir = package_root(v) + text::nonempty(text::pieces(sub, '/'));
            if !dir_exists(v, dir) {
                Err(
                    if sub.len() == 0 {
                        "归档内容异常：没有找到插件目录"@
                    } else {
                        "仓库中不存在子目录 "@ + sub
                    },
                )
            } else if !path_exists(v, dir.push("plugin.json"@)) {
                Err(
                    (if sub.len() == 0 {
                        "仓库根目录"@
                    } else {
                        sub
                    }) + " 下没有 plugin.json（若插件在仓库子目录里，请用 ?path=/子/目录 指定）"@,
                )
            } else {
                Ok(package_below(v, dir))
            }
        },
    }
}

/// The package that the market sent and that is unpacked below `dest`, or what is wrong with it.
pub open spec fn market_package(bytes: Seq<u8>, dest: Seq<char>) -> Result<
    PackageView,
    Seq<char>,
> {
    match archive::unpacked(bytes, dest) {
        Err(e) => Err(e),
        Ok(v) => {
            let dir = package_root(v);
            if !path_exists(v, dir.push("plugin.json"@)) {
                Err("插件包里没有 plugin.json（包可能已损坏）"@)
            } else {
                Ok(package_below(v, dir))
            }
        },
    }
}

fn root_of(v: &Vec<Unpacked>) -> (r: Vec<String>)
    ensures
        text::texts(r@) == package_root(archive::unpacked_views(v@)),
{
    let top = list_top(v);
    let mut dir: Vec<String> = Vec::new();
    if let Some(name) = single_root(top.as_slice()) {
        dir.push(name);
        assert(text::texts(dir@) =~= seq![name@]);
    } else {
        assert(text::texts(dir@) =~= Seq::<Seq<char>>::empty());
    }
    dir
}

/// Unpacks a repository's archive, to go below `dest`, and picks the plugin's files.
pub fn stage_from_source(source: &GitSource, got: Fetched, dest: &str) -> (r: Result<
    Staged,
    String,
>)
    ensures
        match r {
            Ok(s) => {
                &&& source_package(got.bytes@, dest@, source.sub_path@) is Ok
                &&& s.is_package(source_package(got.bytes@, dest@, source.sub_path@)->Ok_0)
                &&& s.download_source == got.source_label
                &&& s.via_mirror == got.via_mirror
                &&& s.hash_verified == got.hash_verified
            },
            Err(e) => {
                &&& source_package(got.bytes@, dest@, source.sub_path@) is Err
                &&& e@ == source_package(got.bytes@, dest@, source.sub_path@)->Err_0
            },
        },
{
    let things = match archive::extract_zip(got.bytes, dest) {
        Ok(v) => v,
        Err(e) => {
            return Err(e);
        },
    };
    let ghost v = archive::unpacked_views(things@);
    let mut dir = root_of(&things);
    let sub = text::chars_of(source.sub_path.as_str());
    let parts = text::split(sub.as_slice(), '/');
    let segs = text::keep_nonempty(&parts);
    let ghost root = text::texts(dir@);
    let ghost names = text::views(segs@);
    let mut i: usize = 0;
    assert(root + names.take(0) =~= root);
    while i < segs.len()
        invariant
            i <= segs@.len(),
            names == text::views(segs@),
            text::texts(dir@) == root + names.take(i as int),
        decreases segs@.len() - i,
    {
        let ghost before = dir@;
        dir.push(text::string_of(segs[i].as_slice()));
        assert(text::texts(dir@) =~= text::texts(before).push(names[i as int]));
        assert(root + names.take(i + 1) =~= (root + names.take(i as int)).push(names[i as int]));
        i += 1;
    }
    assert(names.take(i as int) =~= names);
    if !has_dir(&things, &dir) {
        return Err(
            if source.sub_path.as_str().is_empty() {
                text::owned("归档内容异常：没有找到插件目录")
            } else {
                text::owned("仓库中不存在子目录 ").concat(source.sub_path.as_str())
            },
        );
    }
    if !has_manifest(&things, &dir) {
        let place = if source.sub_path.as_str().is_empty() {
            text::owned("仓库根目录")
        } else {
            source.sub_path.clone()
        };
        return Err(
            place.concat(
                " 下没有 plugin.json（若插件在仓库子目录里，请用 ?path=/子/目录 指定）",
            ),
        );
    }
    Ok(
        Staged {
            files: gather(&things, &dir),
            dirs: gather_dirs(&things, &dir),
            download_source: got.source_label,
            via_mirror: got.via_mirror,
            hash_verified: got.hash_verified,
        },
    )
}

fn has_manifest(things: &Vec<Unpacked>, dir: &Vec<String>) -> (r: bool)
    ensures
        r == path_exists(
            archive::unpacked_views(things@),
            text::texts(dir@).push("plugin.json"@),
        ),
{
    let mut path: Vec<String> = Vec::new();
    let mut i: usize = 0;
    let ghost all = text::texts(dir@);
    assert(text::texts(path@) =~= all.take(0));
    while i < dir.len()
        invariant
            i <= dir@.len(),
            all == text::texts(dir@),
            text::texts(path@) == all.take(i as int),
        decreases dir@.len() - i,
    {
        let ghost before = path@;
        path.push(dir[i].clone());
        assert(text::texts(path@) =~= text::texts(before).push(all[i as int]));
        assert(all.take(i + 1) =~= all.take(i as int).push(all[i as int]));
        i += 1;
    }
    let ghost before = path@;
    path.push(text::owned("plugin.json"));
    assert(text::texts(path@) =~= text::texts(before).push("plugin.json"@));
    assert(all.take(i as int) =~= all);
    has_path(things, &path)
}

/// Unpacks a market package, to go below `dest`: the plugin lies at its root, or in its only
/// directory.
pub fn stage_from_bytes(bytes: Vec<u8>, dest: &str, download_source: &str) -> (r: Result<
    Staged,
    String,
>)
    ensures
        match r {
            Ok(s) => {
                &&& market_package(bytes@, dest@) is Ok
                &&& s.is_package(market_package(bytes@, dest@)->Ok_0)
                &&& s.download_source@ == download_source@
                &&& !s.via_mirror
                &&& !s.hash_verified
            },
            Err(e) => market_package(bytes@, dest@) is Err && e@ == market_package(
                bytes@,
                dest@,
            )->Err_0,
        },
{
    let things = match archive::extract_zip(bytes, dest) {
        Ok(v) => v,
        Err(e) => {
            return Err(e);
        },
    };
    let dir = root_of(&things);
    if !has_manifest(&things, &dir) {
        return Err(text::owned("插件包里没有 plugin.json（包可能已损坏）"));
    }
    Ok(
        Staged {
            files: gather(&things, &dir),
            dirs: gather_dirs(&things, &dir),
            download_source: text::owned(download_source),
            via_mirror: false,
            hash_verified: false,
        },
    )
}

/// Why a plugin could not be loaded: it has a name, a page and features, and no two features
/// share a code.
pub open spec fn load_error(files: Map<Seq<char>, Vec<u8>>, m: PluginManifest) -> Option<Seq<char>> {
    let codes = manifest::codes_of(m.features@);
    if m.name@.len() == 0 {
        Some("plugin.json 的 name 不能为空"@)
    } else if !files.dom().contains("index.html"@) {
        Some("插件目录下没有 index.html"@)
    } else if codes.len() == 0 {
        Some("plugin.json 的 features 不能为空"@)
    } else {
        match manifest::first_repeat(codes) {
            Some(c) => Some("plugin.json 的 features 里 code 重复："@ + c),
            None => None,
        }
    }
}

/// What is wrong with a staged package, given its manifest and the hash it must have.
pub open spec fn package_error(
    files: Table<Vec<u8>>,
    m: PluginManifest,
    expect: Option<Seq<char>>,
) -> Option<Seq<char>> {
    if load_error(files@, m) is Some {
        load_error(files@, m)
    } else if !source::valid_plugin_name(m.name@) {
        Some(
            "plugin.json 的 name「"@ + m.name@
                + "」不合法：只允许小写字母数字与 . _ -，须以字母或数字开头，长度 ≤ 64"@,
        )
    } else {
        match expect {
            Some(h) => market::hash_error(
                market::content_hash_of(market::file_rows(files.rows())),
                h,
            ),
            None => None,
        }
    }
}

fn check_loads(files: &Table<Vec<u8>>, m: &PluginManifest) -> (r: Result<(), String>)
    ensures
        text::message_of(r) == load_error(files@, *m),
{
    if m.name.as_str().is_empty() {
        return Err(text::owned("plugin.json 的 name 不能为空"));
    }
    if !files.contains("index.html") {
        return Err(text::owned("插件目录下没有 index.html"));
    }
    if m.features.len() == 0 {
        return Err(text::owned("plugin.json 的 features 不能为空"));
    }
    match manifest::repeated_code(m) {
        Some(c) => Err(text::owned("plugin.json 的 features 里 code 重复：").concat(c.as_str())),
        None => Ok(()),
    }
}

/// Completes staging: the plugin must be one that can be loaded, the manifest's name must be a
/// plugin name and, where a trusted hash is known, the content must match it. Only then the
/// package counts as verified; without a hash the archive's own mark stays.
pub fn finish_stage(staged: Staged, manifest: PluginManifest, expect: Option<&str>) -> (r: Result<
    StagedPackage,
    String,
>)
    ensures
        r matches Ok(p) ==> p.hash_verified == counts_as_verified(text::opt_str(expect), staged.hash_verified),
        match r {
            Ok(p) => {
                &&& package_error(staged.files, manifest, text::opt_str(expect)) is None
                &&& p.files == staged.files
                &&& p.dirs == staged.dirs
                &&& p.manifest == manifest
                &&& p.download_source == staged.download_source
                &&& p.via_mirror == staged.via_mirror
                &&& p.hash_verified == (expect is Some || staged.hash_verified)
            },
            Err(e) => package_error(staged.files, manifest, text::opt_str(expect)) == Some(e@),
        },
{
    match check_loads(&staged.files, &manifest) {
        Err(e) => {
            return Err(e);
        },
        Ok(_) => {},
    }
    if !source::is_valid_plugin_name(manifest.name.as_str()) {
        return Err(
            text::owned("plugin.json 的 name「").concat(manifest.name.as_str()).concat(
                "」不合法：只允许小写字母数字与 . _ -，须以字母或数字开头，长度 ≤ 64",
            ),
        );
    }
    let hash_verified = match expect {
        Some(h) => match market::verify_content_hash(&staged.files, h) {
            Ok(_) => true,
            Err(e) => {
                return Err(e);
            },
        },
        None => staged.hash_verified,
    };
    Ok(
        StagedPackage {
            files: staged.files,
            dirs: staged.dirs,
            manifest,
            download_source: staged.download_source,
            via_mirror: staged.via_mirror,
            hash_verified,
        },
    )
}

/// Every package that staging completes is one that can be loaded: it has a plugin name and a
/// page, it has features, and no two of them share a code.
pub proof fn staged_packages_can_be_loaded(
    files: Table<Vec<u8>>,
    m: PluginManifest,
    expect: Option<Seq<char>>,
)
    requires
        package_error(files, m, expect) is None,
    ensures
        source::valid_plugin_name(m.name@),
        files@.dom().contains("index.html"@),
        m.features@.len() > 0,
        forall|i: int, j: int|
            0 <= i < j < m.features@.len() ==> (#[trigger] m.features@[i]).code@ != (
            #[trigger] m.features@[j]).code@,
{
    let codes = manifest::codes_of(m.features@);
    manifest::lemma_no_repeat(codes);
    assert forall|i: int, j: int| 0 <= i < j < m.features@.len() implies (
    #[trigger] m.features@[i]).code@ != (#[trigger] m.features@[j]).code@ by {
        assert(codes[i] == m.features@[i].code@ && codes[j] == m.features@[j].code@);
    }
}

/// A package holds every file that was unpacked below its directory, however deep, under its
/// path from there with `/` between the names; where a path was unpacked more than once, with
/// the bytes of the last time.
pub proof fn packages_hold_every_file(
    v: Seq<(Seq<Seq<char>>, Option<Seq<u8>>)>,
    dir: Seq<Seq<char>>,
    k: int,
)
    requires
        0 <= k < v.len(),
        v[k].1 is Some,
        dir.is_prefix_of(v[k].0),
        v[k].0.len() > dir.len(),
    ensures
        ({
            let files = package_below(v, dir).files;
            let key = text::joined(v[k].0.skip(dir.len() as int), "/"@);
            &&& files.dom().contains(key)
            &&& (forall|j: int|
                k < j < v.len() && (#[trigger] v[j]).1 is Some && dir.is_prefix_of(v[j].0)
                    && v[j].0.len() > dir.len() ==> text::joined(
                    v[j].0.skip(dir.len() as int),
                    "/"@,
                ) != key) ==> files[key] == v[k].1->0
        }),
    decreases v.len(),
{
    let less = v.drop_last();
    let key = text::joined(v[k].0.skip(dir.len() as int), "/"@);
    if k < v.len() - 1 {
        packages_hold_every_file(less, dir, k);
        assert(less[k] == v[k]);
        let last = v.len() - 1;
        assert(v.last() == v[last]);
        if forall|j: int|
            k < j < v.len() && (#[trigger] v[j]).1 is Some && dir.is_prefix_of(v[j].0)
                && v[j].0.len() > dir.len() ==> text::joined(v[j].0.skip(dir.len() as int), "/"@)
                != key {
            assert forall|j: int|
                k < j < less.len() && (#[trigger] less[j]).1 is Some && dir.is_prefix_of(less[j].0)
                    && less[j].0.len() > dir.len() implies text::joined(
                less[j].0.skip(dir.len() as int),
                "/"@,
            ) != key by {
                assert(less[j] == v[j]);
            }
            assert(package_below(less, dir).files[key] == v[k].1->0);
        }
    }
}

/// A package holds no file but those that were unpacked below its directory: each has the path
/// from there and the bytes of one of them.
pub proof fn packages_hold_nothing_else(
    v: Seq<(Seq<Seq<char>>, Option<Seq<u8>>)>,
    dir: Seq<Seq<char>>,
    key: Seq<char>,
) -> (k: int)
    requires
        package_below(v, dir).files.dom().contains(key),
    ensures
        0 <= k < v.len(),
        dir.is_prefix_of(v[k].0),
        v[k].0.len() > dir.len(),
        key == text::joined(v[k].0.skip(dir.len() as int), "/"@),
        v[k].1 == Some(package_below(v, dir).files[key]),
    decreases v.len(),
{
    let less = v.drop_last();
    let u = v.last();
    if u.1 is Some && dir.is_prefix_of(u.0) && u.0.len() > dir.len() && key == text::joined(
        u.0.skip(dir.len() as int),
        "/"@,
    ) {
        v.len() - 1
    } else {
        let k = packages_hold_nothing_else(less, dir, key);
        assert(less[k] == v[k]);
        k
    }
}

/// A package names every directory that was unpacked below its own, and no other.
pub proof fn packages_name_every_directory(
    v: Seq<(Seq<Seq<char>>, Option<Seq<u8>>)>,
    dir: Seq<Seq<char>>,
    name: Seq<char>,
)
    ensures
        package_below(v, dir).dirs.contains(name) <==> exists|k: int|
            0 <= k < v.len() && (#[trigger] v[k]).1 is None && dir.is_prefix_of(v[k].0)
                && v[k].0.len() > dir.len() && name == text::joined(
                v[k].0.skip(dir.len() as int),
                "/"@,
            ),
    decreases v.len(),
{
    if v.len() > 0 {
        let less = v.drop_last();
        let u = v.last();
        packages_name_every_directory(less, dir, name);
        let all = package_below(v, dir).dirs;
        let before = package_below(less, dir).dirs;
        let at = text::joined(u.0.skip(dir.len() as int), "/"@);
        let named = u.1 is None && dir.is_prefix_of(u.0) && u.0.len() > dir.len();
        if named {
            assert(all == before.push(at));
            assert(all[before.len() as int] == at);
        }
        if all.contains(name) {
            let j = choose|j: int| 0 <= j < all.len() && all[j] == name;
            if named && j == before.len() {
                assert(v[v.len() - 1] == u);
            } else {
                assert(before[j] == name);
                let k = choose|k: int|
                    0 <= k < less.len() && (#[trigger] less[k]).1 is None && dir.is_prefix_of(
                        less[k].0,
                    ) && less[k].0.len() > dir.len() && name == text::joined(
                        less[k].0.skip(dir.len() as int),
                        "/"@,
                    );
                assert(v[k] == less[k]);
            }
        }
        if exists|k: int|
            0 <= k < v.len() && (#[trigger] v[k]).1 is None && dir.is_prefix_of(v[k].0)
                && v[k].0.len() > dir.len() && name == text::joined(
                v[k].0.skip(dir.len() as int),
                "/"@,
            ) {
            let k = choose|k: int|
                0 <= k < v.len() && (#[trigger] v[k]).1 is None && dir.is_prefix_of(v[k].0)
                    && v[k].0.len() > dir.len() && name == text::joined(
                    v[k].0.skip(dir.len() as int),
                    "/"@,
                );
            if k < v.len() - 1 {
                assert(less[k] == v[k]);
                assert(before.contains(name));
                let j = choose|j: int| 0 <= j < before.len() && before[j] == name;
                assert(all[j] == name);
            }
        }
    }
}

/// Whether a name is in a listing.
spec fn has_name(v: Seq<(Seq<char>, bool)>, name: Seq<char>) -> bool {
    exists|i: int| 0 <= i < v.len() && (#[trigger] v[i]).0 == name
}

/// Whether a name is in a listing as a directory.
spec fn has_dir_name(v: Seq<(Seq<char>, bool)>, name: Seq<char>) -> bool {
    exists|i: int| 0 <= i < v.len() && (#[trigger] v[i]) == (name, true)
}

/// Whether no name is twice in a listing.
spec fn no_name_twice(v: Seq<(Seq<char>, bool)>) -> bool {
    forall|i: int, j: int| 0 <= i < j < v.len() ==> (#[trigger] v[i]).0 != (#[trigger] v[j]).0
}

proof fn lemma_seen(v: Seq<(Seq<char>, bool)>, name: Seq<char>, dir: bool, other: Seq<char>)
    requires
        no_name_twice(v),
    ensures
        no_name_twice(seen(v, name, dir)),
        has_name(seen(v, name, dir), other) <==> has_name(v, other) || other == name,
        has_dir_name(seen(v, name, dir), other) <==> has_dir_name(v, other) || (other == name
            && dir),
{
    lemma_listing_index(v, name);
    lemma_listing_none(v, name);
    let i = listing_index(v, name) as int;
    let w = seen(v, name, dir);
    if i < v.len() {
        assert(v[i].0 == name);
        assert(w[i] == (name, v[i].1 || dir));
        assert forall|j: int| 0 <= j < v.len() implies (#[trigger] w[j]).0 == v[j].0 by {}
        assert forall|a: int, b: int| 0 <= a < b < w.len() implies (#[trigger] w[a]).0
            != (#[trigger] w[b]).0 by {
            assert(w[a].0 == v[a].0 && w[b].0 == v[b].0);
        }
    } else {
        assert(w[v.len() as int] == (name, dir));
        assert forall|a: int, b: int| 0 <= a < b < w.len() implies (#[trigger] w[a]).0
            != (#[trigger] w[b]).0 by {
            assert(w[a] == v[a]);
            if b < v.len() {
                assert(w[b] == v[b]);
            }
        }
    }
    if has_name(v, other) {
        let j = choose|j: int| 0 <= j < v.len() && (#[trigger] v[j]).0 == other;
        assert(w[j].0 == other);
    }
    if has_name(w, other) && other != name {
        let j = choose|j: int| 0 <= j < w.len() && (#[trigger] w[j]).0 == other;
        assert(v[j].0 == other);
    }
    if has_dir_name(v, other) {
        let j = choose|j: int| 0 <= j < v.len() && (#[trigger] v[j]) == (other, true);
        if j != i {
            assert(w[j] == (other, true));
        } else {
            assert(w[i] == (other, true));
        }
    }
    if has_dir_name(w, other) && !(other == name && dir) {
        let j = choose|j: int| 0 <= j < w.len() && (#[trigger] w[j]) == (other, true);
        assert(j < v.len());
        if j == i {
            assert(v[i] == (other, true));
        } else {
            assert(v[j] == (other, true));
        }
    }
    if other == name && dir {
        if i < v.len() {
            assert(w[i] == (other, true));
        } else {
            assert(w[v.len() as int] == (other, true));
        }
    }
}

proof fn lemma_listing_none(v: Seq<(Seq<char>, bool)>, name: Seq<char>)
    ensures
        listing_index(v, name) == v.len() ==> forall|i: int|
            0 <= i < v.len() ==> (#[trigger] v[i]).0 != name,
    decreases v.len(),
{
    if v.len() > 0 && v[0].0 != name {
        let t = v.drop_first();
        lemma_listing_none(t, name);
        if listing_index(v, name) == v.len() {
            assert forall|i: int| 0 <= i < v.len() implies (#[trigger] v[i]).0 != name by {
                if i > 0 {
                    assert(t[i - 1] == v[i]);
                }
            }
        }
    } else if v.len() > 0 {
        assert(listing_index(v, name) == 0);
    }
}

/// Whether the thing at an index lies at, or below, a name at the top.
spec fn top_is(v: Seq<(Seq<Seq<char>>, Option<Seq<u8>>)>, k: int, name: Seq<char>) -> bool {
    0 <= k < v.len() && v[k].0.len() > 0 && v[k].0[0] == name
}

/// Whether that thing needs the name to be a directory.
spec fn top_is_dir(v: Seq<(Seq<Seq<char>>, Option<Seq<u8>>)>, k: int, name: Seq<char>) -> bool {
    top_is(v, k, name) && (v[k].0.len() > 1 || v[k].1 is None)
}

proof fn lemma_top_level(v: Seq<(Seq<Seq<char>>, Option<Seq<u8>>)>, name: Seq<char>)
    ensures
        no_name_twice(top_level(v)),
        has_name(top_level(v), name) <==> exists|k: int| #[trigger] top_is(v, k, name),
        has_dir_name(top_level(v), name) <==> exists|k: int| #[trigger] top_is_dir(v, k, name),
    decreases v.len(),
{
    if v.len() > 0 {
        let less = v.drop_last();
        let u = v.last();
        let last = v.len() - 1;
        lemma_top_level(less, name);
        if exists|k: int| #[trigger] top_is(less, k, name) {
            let k = choose|k: int| #[trigger] top_is(less, k, name);
            assert(less[k] == v[k]);
            assert(top_is(v, k, name));
        }
        if exists|k: int| #[trigger] top_is_dir(less, k, name) {
            let k = choose|k: int| #[trigger] top_is_dir(less, k, name);
            assert(less[k] == v[k]);
            assert(top_is_dir(v, k, name));
        }
        if exists|k: int| #[trigger] top_is(v, k, name) {
            let k = choose|k: int| #[trigger] top_is(v, k, name);
            if k < last {
                assert(less[k] == v[k]);
                assert(top_is(less, k, name));
            }
        }
        if exists|k: int| #[trigger] top_is_dir(v, k, name) {
            let k = choose|k: int| #[trigger] top_is_dir(v, k, name);
            if k < last {
                assert(less[k] == v[k]);
                assert(top_is_dir(less, k, name));
            }
        }
        if u.0.len() > 0 {
            let dir = u.0.len() > 1 || u.1 is None;
            lemma_seen(top_level(less), u.0[0], dir, name);
            if u.0[0] == name {
                assert(top_is(v, last, name));
                if dir {
                    assert(top_is_dir(v, last, name));
                }
            }
        }
    }
}

/// A package lies in the directory that holds everything, where there is just one such, and at
/// the top where there is not.
pub proof fn packages_lie_in_the_only_directory(
    v: Seq<(Seq<Seq<char>>, Option<Seq<u8>>)>,
    name: Seq<char>,
    k: int,
)
    requires
        forall|j: int| 0 <= j < v.len() ==> (#[trigger] v[j]).0.len() > 0,
        0 <= k < v.len(),
    ensures
        (forall|j: int| 0 <= j < v.len() ==> (#[trigger] v[j]).0[0] == name) && (v[k].0.len() > 1
            || v[k].1 is None) ==> package_root(v) == seq![name],
        v[k].0[0] != name ==> package_root(v) != seq![name],
        (forall|j: int| 0 <= j < v.len() ==> (#[trigger] v[j]).0.len() == 1 && v[j].1 is Some)
            ==> package_root(v) == Seq::<Seq<char>>::empty(),
        package_root(v).len() <= 1,
{
    let t = top_level(v);
    let first = v[k].0[0];
    lemma_top_level(v, first);
    assert(top_is(v, k, first));
    let a = choose|a: int| 0 <= a < t.len() && (#[trigger] t[a]).0 == first;
    if (forall|j: int| 0 <= j < v.len() ==> (#[trigger] v[j]).0[0] == name) && (v[k].0.len() > 1
        || v[k].1 is None) {
        assert(first == name);
        assert(top_is_dir(v, k, name));
        if t.len() > 1 {
            lemma_top_level(v, t[0].0);
            lemma_top_level(v, t[1].0);
            assert(has_name(t, t[0].0) && has_name(t, t[1].0));
            let x = choose|x: int| #[trigger] top_is(v, x, t[0].0);
            let y = choose|y: int| #[trigger] top_is(v, y, t[1].0);
            assert(v[x].0[0] == name && v[y].0[0] == name);
            assert(t[0].0 != t[1].0);
        }
        let d = choose|d: int| 0 <= d < t.len() && (#[trigger] t[d]) == (name, true);
        assert(t[0] == (name, true));
        assert(package_root(v) =~= seq![name]);
    }
    if forall|j: int| 0 <= j < v.len() ==> (#[trigger] v[j]).0.len() == 1 && v[j].1 is Some {
        if t.len() == 1 && t[0].1 {
            lemma_top_level(v, t[0].0);
            assert(t[0] == (t[0].0, true));
            assert(has_dir_name(t, t[0].0));
            let x = choose|x: int| #[trigger] top_is_dir(v, x, t[0].0);
            assert(v[x].0.len() == 1 && v[x].1 is Some);
        }
    }
    if first != name && package_root(v) == seq![name] {
        assert(package_root(v)[0] == name);
        assert(t.len() == 1 && t[0].0 == name);
        assert(t[a].0 == first);
    }
}

/// What the market sends, and what a repository holds below the directory that was asked for,
/// is the whole of that directory; there must be a manifest in it.
pub proof fn staged_packages_are_whole(
    bytes: Seq<u8>,
    dest: Seq<char>,
    names: Seq<Seq<char>>,
    v: Seq<(Seq<Seq<char>>, Option<Seq<u8>>)>,
)
    requires
        archive::unpacked(bytes, dest) == Ok::<
            Seq<(Seq<Seq<char>>, Option<Seq<u8>>)>,
            Seq<char>,
        >(v),
        forall|k: int|
            0 <= k < names.len() ==> (#[trigger] names[k]).len() > 0 && !names[k].contains('/'),
    ensures
        ({
            let root = package_root(v);
            let here = root.push("plugin.json"@);
            let manifest = exists|k: int| 0 <= k < v.len() && here.is_prefix_of((#[trigger] v[k]).0);
            &&& manifest ==> market_package(bytes, dest) == Ok::<PackageView, Seq<char>>(
                package_below(v, root),
            )
            &&& !manifest ==> market_package(bytes, dest) is Err
        }),
        names.len() > 0 ==> ({
            let dir = package_root(v) + names;
            let here = dir.push("plugin.json"@);
            let manifest = exists|k: int| 0 <= k < v.len() && here.is_prefix_of((#[trigger] v[k]).0);
            &&& manifest ==> source_package(bytes, dest, text::joined(names, "/"@)) == Ok::<
                PackageView,
                Seq<char>,
            >(package_below(v, dir))
            &&& !manifest ==> source_package(bytes, dest, text::joined(names, "/"@)) is Err
        }),
        ({
            let root = package_root(v);
            let here = root.push("plugin.json"@);
            let manifest = exists|k: int| 0 <= k < v.len() && here.is_prefix_of((#[trigger] v[k]).0);
            manifest ==> source_package(bytes, dest, Seq::empty()) == Ok::<PackageView, Seq<char>>(
                package_below(v, root),
            )
        }),
{
    reveal_strlit("/");
    assert("/"@ =~= seq!['/']);
    let root = package_root(v);
    text::lemma_pieces_one(Seq::empty(), '/');
    let e = seq![Seq::<char>::empty()];
    assert(e.drop_first() =~= Seq::<Seq<char>>::empty());
    assert(text::nonempty(e.drop_first()) =~= Seq::<Seq<char>>::empty());
    assert(text::nonempty(e) =~= Seq::<Seq<char>>::empty());
    assert(root + Seq::<Seq<char>>::empty() =~= root);
    lemma_manifest_in(v, root);
    if names.len() > 0 {
        text::lemma_pieces_joined(names, '/');
        text::lemma_nonempty_all(names);
        lemma_manifest_in(v, root + names);
    }
}

proof fn lemma_manifest_in(v: Seq<(Seq<Seq<char>>, Option<Seq<u8>>)>, dir: Seq<Seq<char>>)
    ensures
        path_exists(v, dir.push("plugin.json"@)) ==> dir_exists(v, dir),
{
    let here = dir.push("plugin.json"@);
    if path_exists(v, here) {
        let k = choose|k: int| 0 <= k < v.len() && archive::under((#[trigger] v[k]).0, here);
        assert(v[k].0.len() > dir.len());
        assert(v[k].0.subrange(0, dir.len() as int) =~= dir) by {
            assert(v[k].0.subrange(0, here.len() as int) =~= here);
            assert forall|i: int| 0 <= i < dir.len() implies v[k].0.subrange(
                0,
                dir.len() as int,
            )[i] == dir[i] by {
                assert(v[k].0.subrange(0, here.len() as int)[i] == here[i]);
            }
        }
        assert(archive::under(v[k].0, dir));
    }
}

/// A package is accepted exactly where it can be loaded: it has a name that is allowed, a page
/// and features, no two of one code, and where a hash is expected its content has it.
pub proof fn good_packages_are_accepted(
    files: Table<Vec<u8>>,
    m: PluginManifest,
    expect: Option<Seq<char>>,
)
    ensures
        package_error(files, m, expect) is None <==> {
            &&& source::valid_plugin_name(m.name@)
            &&& files@.dom().contains("index.html"@)
            &&& m.features@.len() > 0
            &&& manifest::codes_of(m.features@).no_duplicates()
            &&& expect matches Some(h) ==> text::lowered(h) == text::lowered(
                market::content_hash_of(market::file_rows(files.rows())),
            )
        },
{
    manifest::lemma_no_repeat(manifest::codes_of(m.features@));
}

/// Whether a package that was accepted counts as verified: `marked` says whether its archive
/// does.
pub open spec fn counts_as_verified(expect: Option<Seq<char>>, marked: bool) -> bool {
    expect is Some || marked
}

/// A package whose content was held to a hash counts as verified; without one the mark of its
/// archive decides, so an unverified download never becomes a verified package.
pub proof fn packages_without_a_hash_keep_their_mark(expect: Seq<char>, marked: bool)
    ensures
        counts_as_verified(Some(expect), marked),
        counts_as_verified(None, marked) == marked,
{
}

} // verus!
