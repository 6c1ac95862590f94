//! Unpacking plugin archives under strict limits.

use crate::entry;
use crate::install::source;
use crate::text;
use crate::zip_reader;
use crate::zip_reader::EntryHead;
use vstd::prelude::*;
use vstd::slice::slice_subrange;

verus! {

/// The most entries that an archive may have.
pub const MAX_ENTRIES: usize = 4000;

/// The largest file that is unpacked, in bytes.
pub const MAX_FILE_BYTES: u64 = 16_777_216;

/// The most bytes that are unpacked in all.
pub const MAX_TOTAL_BYTES: u64 = 33_554_432;

// ---------------------------------------------------------------------------
// File names
// ---------------------------------------------------------------------------

/// The last real name in a slash separated path; nothing when the path ends in `..`.
pub open spec fn file_name(parts: Seq<Seq<char>>) -> Option<Seq<char>>
    decreases parts.len(),
{
    if parts.len() == 0 {
        None
    } else if parts.last().len() == 0 || parts.last() == "."@ {
        file_name(parts.drop_last())
    } else if parts.last() == ".."@ {
        None
    } else {
        Some(parts.last())
    }
}

/// The index just behind the last `c`; 0 when there is none.
pub open spec fn after_last(s: Seq<char>, c: char) -> nat
    decreases s.len(),
{
    if s.len() == 0 {
        0
    } else if s.last() == c {
        s.len()
    } else {
        after_last(s.drop_last(), c)
    }
}

/// The extension that the system will see: trailing dots and spaces do not count.
pub open spec fn effective_ext(name: Seq<char>) -> Option<Seq<char>> {
    let t = text::trimmed_end(name, |c: char| c == '.' || c == ' ');
    let i = after_last(t, '.');
    if i == 0 {
        None
    } else {
        Some(text::lowered(t.skip(i as int)))
    }
}

/// The extensions of programs, scripts and files that act when opened.
pub open spec fn is_denied(ext: Seq<char>) -> bool {
    ||| ext == "exe"@
    ||| ext == "dll"@
    ||| ext == "bat"@
    ||| ext == "cmd"@
    ||| ext == "com"@
    ||| ext == "scr"@
    ||| ext == "ps1"@
    ||| ext == "psm1"@
    ||| ext == "msi"@
    ||| ext == "vbs"@
    ||| ext == "vbe"@
    ||| ext == "wsf"@
    ||| ext == "jar"@
    ||| ext == "sys"@
    ||| ext == "drv"@
    ||| ext == "cpl"@
    ||| ext == "lnk"@
    ||| ext == "url"@
    ||| ext == "hta"@
    ||| ext == "reg"@
    ||| ext == "scf"@
    ||| ext == "pif"@
    ||| ext == "msc"@
}

/// The denied extension of a path.
pub open spec fn denied_of(parts: Seq<Seq<char>>) -> Option<Seq<char>> {
    match file_name(parts) {
        None => None,
        Some(n) => match effective_ext(n) {
            Some(e) => if is_denied(e) {
                Some(e)
            } else {
                None
            },
            None => None,
        },
    }
}

fn denied_name(ext: &[char]) -> (r: Option<&'static str>)
    ensures
        r is Some <==> is_denied(ext@),
        r matches Some(s) ==> s@ == ext@,
{
    if text::same(ext, "exe") {
        Some("exe")
    } else if text::same(ext, "dll") {
        Some("dll")
    } else if text::same(ext, "bat") {
        Some("bat")
    } else if text::same(ext, "cmd") {
        Some("cmd")
    } else if text::same(ext, "com") {
        Some("com")
    } else if text::same(ext, "scr") {
        Some("scr")
    } else if text::same(ext, "ps1") {
        Some("ps1")
    } else if text::same(ext, "psm1") {
        Some("psm1")
    } else if text::same(ext, "msi") {
        Some("msi")
    } else if text::same(ext, "vbs") {
        Some("vbs")
    } else if text::same(ext, "vbe") {
        Some("vbe")
    } else if text::same(ext, "wsf") {
        Some("wsf")
    } else if text::same(ext, "jar") {
        Some("jar")
    } else if text::same(ext, "sys") {
        Some("sys")
    } else if text::same(ext, "drv") {
        Some("drv")
    } else if text::same(ext, "cpl") {
        Some("cpl")
    } else if text::same(ext, "lnk") {
        Some("lnk")
    } else if text::same(ext, "url") {
        Some("url")
    } else if text::same(ext, "hta") {
        Some("hta")
    } else if text::same(ext, "reg") {
        Some("reg")
    } else if text::same(ext, "scf") {
        Some("scf")
    } else if text::same(ext, "pif") {
        Some("pif")
    } else if text::same(ext, "msc") {
        Some("msc")
    } else {
        None
    }
}

fn find_after_last(s: &[char], c: char) -> (r: usize)
    ensures
        r == after_last(s@, c),
        r <= s@.len(),
{
    let mut i: usize = s.len();
    assert(s@.take(i as int) =~= s@);
    while i > 0
        invariant
            i <= s@.len(),
            after_last(s@, c) == after_last(s@.take(i as int), c),
        decreases i,
    {
        assert(s@.take(i as int).drop_last() =~= s@.take(i - 1));
        if s[i - 1] == c {
            return i;
        }
        i -= 1;
    }
    0
}

fn denied_file(name: &[char]) -> (r: Option<&'static str>)
    ensures
        text::opt_str(r) == (match effective_ext(name@) {
            Some(e) => if is_denied(e) {
                Some(e)
            } else {
                None
            },
            None => None,
        }),
{
    let ghost p = |c: char| c == '.' || c == ' ';
    let mut j: usize = name.len();
    assert(name@.take(j as int) =~= name@);
    while j > 0 && (name[j - 1] == '.' || name[j - 1] == ' ')
        invariant
            j <= name@.len(),
            p == (|c: char| c == '.' || c == ' '),
            text::trimmed_end(name@, p) == text::trimmed_end(name@.take(j as int), p),
        decreases j,
    {
        assert(name@.take(j as int).drop_last() =~= name@.take(j - 1));
        j -= 1;
    }
    let t = slice_subrange(name, 0, j);
    assert(t@ =~= name@.take(j as int));
    let i = find_after_last(t, '.');
    if i == 0 {
        return None;
    }
    let ext = slice_subrange(t, i, t.len());
    assert(ext@ =~= t@.skip(i as int));
    let low = text::to_lower(ext);
    denied_name(low.as_slice())
}

/// The denied extension of a slash separated path, where it has one.
pub fn denied_ext(path: &str) -> (r: Option<&'static str>)
    ensures
        text::opt_str(r) == denied_of(text::pieces(path@, '/')),
{
    let v = text::chars_of(path);
    let parts = text::split(v.as_slice(), '/');
    let ghost all = text::views(parts@);
    let mut i: usize = parts.len();
    assert(all.take(i as int) =~= all);
    while i > 0
        invariant
            i <= parts@.len(),
            all == text::views(parts@),
            all == text::pieces(path@, '/'),
            file_name(all) == file_name(all.take(i as int)),
        decreases i,
    {
        assert(all.take(i as int).drop_last() =~= all.take(i - 1));
        assert(all.take(i as int).last() == parts@[i - 1]@);
        let part = parts[i - 1].as_slice();
        if part.len() == 0 || text::same(part, ".") {
            i -= 1;
            continue ;
        }
        if text::same(part, "..") {
            return None;
        }
        return denied_file(part);
    }
    None
}

// ---------------------------------------------------------------------------
// One entry
// ---------------------------------------------------------------------------

/// The kind bits of a Unix mode that mark a symbolic link.
pub open spec fn is_link(mode: Option<u32>) -> bool {
    match mode {
        Some(m) => m & 0xF000 == 0xA000,
        None => false,
    }
}

/// Whether a Unix mode marks a symbolic link.
pub fn marks_link(mode: Option<u32>) -> (r: bool)
    ensures
        r == is_link(mode),
{
    match mode {
        Some(m) => m & 0xF000 == 0xA000,
        None => false,
    }
}

/// Where an entry goes, or why the whole archive is refused because of it.
pub open spec fn entry_plan(h: (Seq<char>, bool, u64, Option<u32>)) -> Result<
    Seq<Seq<char>>,
    Seq<char>,
> {
    let (name, is_dir, size, mode) = h;
    if is_link(mode) {
        Err("归档含符号链接条目（不安全）："@ + name)
    } else {
        match entry::entry_path(name) {
            Err(e) => Err(e),
            Ok(segs) => {
                let ext = denied_of(segs);
                if is_dir {
                    Ok(segs)
                } else if ext is Some {
                    Err(
                        "归档含可执行/脚本文件（."@ + ext->0 + "）："@ + name
                            + "。插件应为纯前端资源，已整包拒绝"@,
                    )
                } else if size > MAX_FILE_BYTES {
                    Err("文件 "@ + name + " 声明大小超过单文件上限 16 MB，已中止"@)
                } else {
                    Ok(segs)
                }
            },
        }
    }
}

/// The bytes unpacked so far after one more file, or why unpacking stops.
pub open spec fn total_after(name: Seq<char>, written: nat, total: nat) -> Result<
    nat,
    Seq<char>,
> {
    if written > MAX_FILE_BYTES {
        Err("文件 "@ + name + " 实际大小超过单文件上限 16 MB，已中止"@)
    } else if total + written > MAX_TOTAL_BYTES {
        Err("解压总体积超过上限 32 MB，已中止（疑似 zip 炸弹）"@)
    } else {
        Ok(total + written)
    }
}

/// Turns the name of an archive entry into a path below the target directory.
pub fn safe_entry_path(name: &str) -> (r: Result<Vec<String>, String>)
    ensures
        entry::path_outcome(r) == entry::entry_path(name@),
{
    entry::split_entry_name(name)
}

fn denied_last(segs: &Vec<String>) -> (r: Option<&'static str>)
    requires
        segs@.len() > 0,
        text::texts(segs@).last().len() > 0,
        !source::all_dots(text::texts(segs@).last()),
    ensures
        text::opt_str(r) == denied_of(text::texts(segs@)),
{
    proof {
        reveal_strlit(".");
        reveal_strlit("..");
    }
    let ghost last = text::texts(segs@).last();
    assert(last == segs@[segs@.len() - 1]@);
    assert(last != "."@ && last != ".."@);
    let name = text::chars_of(segs[segs.len() - 1].as_str());
    denied_file(name.as_slice())
}

/// Decides where an entry goes, see [`entry_plan`].
pub fn check_entry(head: &EntryHead) -> (r: Result<Vec<String>, String>)
    ensures
        entry::path_outcome(r) == entry_plan(head@),
{
    if marks_link(head.unix_mode) {
        return Err(text::owned("归档含符号链接条目（不安全）：").concat(head.name.as_str()));
    }
    let segs = match safe_entry_path(head.name.as_str()) {
        Ok(s) => s,
        Err(e) => {
            return Err(e);
        },
    };
    if head.is_dir {
        return Ok(segs);
    }
    proof {
        entry::entry_paths_stay_inside(head.name@);
        assert(text::texts(segs@).last() == entry::entry_path(head.name@)->Ok_0[segs@.len() - 1]);
    }
    if let Some(ext) = denied_last(&segs) {
        return Err(
            text::owned("归档含可执行/脚本文件（.").concat(ext).concat("）：").concat(
                head.name.as_str(),
            ).concat("。插件应为纯前端资源，已整包拒绝"),
        );
    }
    if head.size > MAX_FILE_BYTES {
        return Err(
            text::owned("文件 ").concat(head.name.as_str()).concat(
                " 声明大小超过单文件上限 16 MB，已中止",
            ),
        );
    }
    Ok(segs)
}

/// Adds one unpacked file to the running total, see [`total_after`].
pub fn check_written(name: &str, written: u64, total: u64) -> (r: Result<u64, String>)
    ensures
        match r {
            Ok(t) => total_after(name@, written as nat, total as nat) == Ok::<nat, Seq<char>>(
                t as nat,
            ),
            Err(e) => total_after(name@, written as nat, total as nat) == Err::<nat, Seq<char>>(
                e@,
            ),
        },
{
    if written > MAX_FILE_BYTES {
        return Err(
            text::owned("文件 ").concat(name).concat(" 实际大小超过单文件上限 16 MB，已中止"),
        );
    }
    if total > MAX_TOTAL_BYTES || written > MAX_TOTAL_BYTES - total {
        return Err(text::owned("解压总体积超过上限 32 MB，已中止（疑似 zip 炸弹）"));
    }
    Ok(total + written)
}

// ---------------------------------------------------------------------------
// Whole archives
// ---------------------------------------------------------------------------

/// One thing that unpacking puts on disk: a directory, or a file with its content.
#[derive(Debug)]
pub struct Unpacked {
    pub path: Vec<String>,
    pub data: Option<Vec<u8>>,
}

impl View for Unpacked {
    type V = (Seq<Seq<char>>, Option<Seq<u8>>);

    open spec fn view(&self) -> (Seq<Seq<char>>, Option<Seq<u8>>) {
        (
            text::texts(self.path@),
            match self.data {
                Some(d) => Some(d@),
                None => None,
            },
        )
    }
}

/// The views of a list of unpacked things.
pub open spec fn unpacked_views(v: Seq<Unpacked>) -> Seq<(Seq<Seq<char>>, Option<Seq<u8>>)> {
    v.map_values(|x: Unpacked| x@)
}

/// Whether a path leads into the directory at `dir`, or to it.
pub open spec fn under(path: Seq<Seq<char>>, dir: Seq<Seq<char>>) -> bool {
    dir.is_prefix_of(path)
}

/// Whether a path leads to a path, or below it.
pub(crate) fn is_under(path: &Vec<String>, dir: &Vec<String>) -> (r: bool)
    ensures
        r == under(text::texts(path@), text::texts(dir@)),
{
    let ghost p = text::texts(path@);
    let ghost d = text::texts(dir@);
    if dir.len() > path.len() {
        return false;
    }
    let mut i: usize = 0;
    while i < dir.len()
        invariant
            i <= dir@.len() <= path@.len(),
            p == text::texts(path@),
            d == text::texts(dir@),
            forall|j: int| 0 <= j < i ==> p[j] == d[j],
        decreases dir@.len() - i,
    {
        assert(p[i as int] == path@[i as int]@ && d[i as int] == dir@[i as int]@);
        if !text::str_eq(path[i].as_str(), dir[i].as_str()) {
            proof {
                if d.is_prefix_of(p) {
                    assert(p.subrange(0, d.len() as int)[i as int] == d[i as int]);
                }
            }
            return false;
        }
        i += 1;
    }
    assert(p.subrange(0, d.len() as int) =~= d);
    true
}

/// Whether a file and something else cannot both be put on disk: the other thing is a directory
/// in the file's place, or lies below it.
pub open spec fn clashes(
    file: (Seq<Seq<char>>, Option<Seq<u8>>),
    other: (Seq<Seq<char>>, Option<Seq<u8>>),
) -> bool {
    file.1 is Some && under(other.0, file.0) && (other.0.len() > file.0.len() || other.1 is None)
}

/// A path below a directory, as it is shown.
pub open spec fn shown_path(dest: Seq<char>, path: Seq<Seq<char>>) -> Seq<char> {
    dest + "\\"@ + text::joined(path, "\\"@)
}

fn show_path(dest: &str, path: &Vec<String>) -> (r: String)
    ensures
        r@ == shown_path(dest@, text::texts(path@)),
{
    let inner = text::join_strings(path, "\\");
    text::owned(dest).concat("\\").concat(inner.as_str())
}

/// Why something at a path cannot be put on disk below `dest`, next to what is there already.
/// What the system itself would say of it differs from machine to machine; here it is put in
/// words of the host.
pub open spec fn place_error(
    dest: Seq<char>,
    done: Seq<(Seq<Seq<char>>, Option<Seq<u8>>)>,
    path: Seq<Seq<char>>,
    is_dir: bool,
) -> Option<Seq<char>> {
    if exists|k: int|
        0 <= k < done.len() && (#[trigger] done[k]).1 is Some && under(path, done[k].0) && (path.len()
            > done[k].0.len() || is_dir) {
        if is_dir {
            Some("创建目录失败 "@ + shown_path(dest, path) + ": 路径上已有同名文件"@)
        } else {
            Some("创建目录失败: 路径上已有同名文件"@)
        }
    } else if !is_dir && exists|k: int|
        0 <= k < done.len() && under((#[trigger] done[k]).0, path) && (done[k].0.len() > path.len()
            || done[k].1 is None) {
        Some("写入文件失败 "@ + shown_path(dest, path) + ": 已有同名目录"@)
    } else {
        None
    }
}

fn check_place(
    dest: &str,
    done: &Vec<Unpacked>,
    path: &Vec<String>,
    is_dir: bool,
) -> (r: Result<(), String>)
    ensures
        text::message_of(r) == place_error(
            dest@,
            unpacked_views(done@),
            text::texts(path@),
            is_dir,
        ),
{
    let ghost all = unpacked_views(done@);
    let ghost p = text::texts(path@);
    let mut dir_there: bool = false;
    let mut i: usize = 0;
    while i < done.len()
        invariant
            i <= done@.len(),
            all == unpacked_views(done@),
            p == text::texts(path@),
            forall|k: int|
                0 <= k < i ==> !((#[trigger] all[k]).1 is Some && under(p, all[k].0) && (p.len()
                    > all[k].0.len() || is_dir)),
            dir_there == exists|k: int|
                0 <= k < i && under((#[trigger] all[k]).0, p) && (all[k].0.len() > p.len()
                    || all[k].1 is None),
        decreases done@.len() - i,
    {
        let u = &done[i];
        assert(all[i as int] == u@);
        if u.data.is_some() && is_under(path, &u.path) && (path.len() > u.path.len() || is_dir) {
            if !is_dir {
                return Err(text::owned("创建目录失败: 路径上已有同名文件"));
            }
            let shown = show_path(dest, path);
            return Err(
                text::owned("创建目录失败 ").concat(shown.as_str()).concat(
                    ": 路径上已有同名文件",
                ),
            );
        }
        if is_under(&u.path, path) && (u.path.len() > path.len() || u.data.is_none()) {
            dir_there = true;
        }
        i += 1;
    }
    if !is_dir && dir_there {
        let shown = show_path(dest, path);
        return Err(
            text::owned("写入文件失败 ").concat(shown.as_str()).concat(": 已有同名目录"),
        );
    }
    Ok(())
}

/// What unpacking one entry below `dest` gives, with the new total; `done` is what earlier
/// entries gave, and `total` what their files hold.
pub open spec fn unpacked_one(
    bytes: Seq<u8>,
    dest: Seq<char>,
    i: nat,
    done: Seq<(Seq<Seq<char>>, Option<Seq<u8>>)>,
    total: nat,
) -> Result<((Seq<Seq<char>>, Option<Seq<u8>>), nat), Seq<char>> {
    match zip_reader::zip_head(bytes, i) {
        Err(e) => Err("读取归档条目失败: "@ + e),
        Ok(h) => match entry_plan(h) {
            Err(e) => Err(e),
            Ok(segs) => if place_error(dest, done, segs, h.1) is Some {
                Err(place_error(dest, done, segs, h.1)->0)
            } else if h.1 {
                Ok(((segs, None), total))
            } else {
                match zip_reader::zip_data(bytes, i, (MAX_FILE_BYTES + 1) as nat) {
                    Err(e) => Err("写入文件失败 "@ + shown_path(dest, segs) + ": "@ + e),
                    Ok(data) => match total_after(h.0, data.len(), total) {
                        Err(e) => Err(e),
                        Ok(t) => Ok(((segs, Some(data)), t)),
                    },
                }
            },
        },
    }
}

/// What unpacking the first `n` entries gives, with the total of the file sizes.
pub open spec fn unpacked_upto(bytes: Seq<u8>, dest: Seq<char>, n: nat) -> Result<
    (Seq<(Seq<Seq<char>>, Option<Seq<u8>>)>, nat),
    Seq<char>,
>
    decreases n,
{
    if n == 0 {
        Ok((Seq::empty(), 0))
    } else {
        match unpacked_upto(bytes, dest, (n - 1) as nat) {
            Err(e) => Err(e),
            Ok((done, total)) => match unpacked_one(bytes, dest, (n - 1) as nat, done, total) {
                Err(e) => Err(e),
                Ok((u, t)) => Ok((done.push(u), t)),
            },
        }
    }
}

/// What unpacking an archive below `dest` gives, as paths below it; where it is only tells in
/// messages.
pub open spec fn unpacked(bytes: Seq<u8>, dest: Seq<char>) -> Result<
    Seq<(Seq<Seq<char>>, Option<Seq<u8>>)>,
    Seq<char>,
> {
    if zip_reader::zip_fault(bytes) is Some {
        Err("归档不是有效的 zip（可能是 404 页面）: "@ + zip_reader::zip_fault(bytes)->0)
    } else if zip_reader::zip_count(bytes) > MAX_ENTRIES {
        Err(
            "归档条目数 "@ + text::decimal_text(zip_reader::zip_count(bytes))
                + " 超过上限 4000，已中止"@,
        )
    } else {
        match unpacked_upto(bytes, dest, zip_reader::zip_count(bytes)) {
            Ok((done, total)) => Ok(done),
            Err(e) => Err(e),
        }
    }
}

proof fn lemma_unpacked_error(bytes: Seq<u8>, dest: Seq<char>, k: nat, n: nat)
    requires
        k <= n,
        unpacked_upto(bytes, dest, k) is Err,
    ensures
        unpacked_upto(bytes, dest, n) == unpacked_upto(bytes, dest, k),
    decreases n,
{
    if k < n {
        lemma_unpacked_error(bytes, dest, k, (n - 1) as nat);
    }
}

/// Unpacks an archive in memory: directories and files, in the archive's order. They are to be
/// put below `dest`, as messages tell.
pub fn extract_zip(bytes: Vec<u8>, dest: &str) -> (r: Result<Vec<Unpacked>, String>)
    ensures
        match r {
            Ok(v) => unpacked(bytes@, dest@) == Ok::<
                Seq<(Seq<Seq<char>>, Option<Seq<u8>>)>,
                Seq<char>,
            >(unpacked_views(v@)),
            Err(e) => unpacked(bytes@, dest@) == Err::<
                Seq<(Seq<Seq<char>>, Option<Seq<u8>>)>,
                Seq<char>,
            >(e@),
        },
{
    let ghost all = bytes@;
    let mut zip = match zip_reader::open(bytes) {
        Ok(z) => z,
        Err(e) => {
            return Err(
                text::owned("归档不是有效的 zip（可能是 404 页面）: ").concat(e.as_str()),
            );
        },
    };
    let n: usize = zip_reader::count(&zip);
    if n > MAX_ENTRIES {
        let shown = text::decimal(n as u64);
        return Err(
            text::owned("归档条目数 ").concat(shown.as_str()).concat(" 超过上限 4000，已中止"),
        );
    }
    let mut out: Vec<Unpacked> = Vec::new();
    let mut total: u64 = 0;
    let mut i: usize = 0;
    assert(unpacked_views(out@) =~= Seq::<(Seq<Seq<char>>, Option<Seq<u8>>)>::empty());
    while i < n
        invariant
            i <= n,
            all == bytes@,
            n == zip_reader::zip_count(all),
            n <= MAX_ENTRIES,
            zip_reader::zip_fault(all) is None,
            zip_reader::archive_bytes(zip) == all,
            total <= MAX_TOTAL_BYTES,
            unpacked_upto(all, dest@, i as nat) == Ok::<
                (Seq<(Seq<Seq<char>>, Option<Seq<u8>>)>, nat),
                Seq<char>,
            >((unpacked_views(out@), total as nat)),
        decreases n - i,
    {
        let next = unpack_one(&mut zip, i, dest, &out, total);
        let ghost before = out@;
        match next {
            Err(e) => {
                proof {
                    lemma_unpacked_error(all, dest@, (i + 1) as nat, n as nat);
                }
                return Err(e);
            },
            Ok((u, t)) => {
                total = t;
                out.push(u);
                assert(unpacked_views(out@) =~= unpacked_views(before).push(u@));
            },
        }
        i += 1;
    }
    Ok(out)
}

/// Unpacks one entry; `done` is what the entries before it gave, `total` what their files hold.
fn unpack_one(
    zip: &mut zip::ZipArchive<std::io::Cursor<Vec<u8>>>,
    i: usize,
    dest: &str,
    done: &Vec<Unpacked>,
    total: u64,
) -> (r: Result<(Unpacked, u64), String>)
    requires
        total <= MAX_TOTAL_BYTES,
    ensures
        zip_reader::archive_bytes(*final(zip)) == zip_reader::archive_bytes(*old(zip)),
        r matches Ok(p) ==> p.1 <= MAX_TOTAL_BYTES,
        match r {
            Ok(p) => unpacked_one(
                zip_reader::archive_bytes(*old(zip)),
                dest@,
                i as nat,
                unpacked_views(done@),
                total as nat,
            ) == Ok::<((Seq<Seq<char>>, Option<Seq<u8>>), nat), Seq<char>>((p.0@, p.1 as nat)),
            Err(e) => unpacked_one(
                zip_reader::archive_bytes(*old(zip)),
                dest@,
                i as nat,
                unpacked_views(done@),
                total as nat,
            ) == Err::<((Seq<Seq<char>>, Option<Seq<u8>>), nat), Seq<char>>(e@),
        },
{
    let head = match zip_reader::head(zip, i) {
        Ok(h) => h,
        Err(e) => {
            return Err(text::owned("读取归档条目失败: ").concat(e.as_str()));
        },
    };
    let path = match check_entry(&head) {
        Ok(p) => p,
        Err(e) => {
            return Err(e);
        },
    };
    match check_place(dest, done, &path, head.is_dir) {
        Err(e) => {
            return Err(e);
        },
        Ok(_) => {},
    }
    if head.is_dir {
        return Ok((Unpacked { path, data: None }, total));
    }
    match zip_reader::data(zip, i, MAX_FILE_BYTES + 1) {
        Err(e) => {
            let shown = show_path(dest, &path);
            Err(
                text::owned("写入文件失败 ").concat(shown.as_str()).concat(": ").concat(
                    e.as_str(),
                ),
            )
        },
        Ok(d) => match check_written(head.name.as_str(), d.len() as u64, total) {
            Err(e) => Err(e),
            Ok(t) => Ok((Unpacked { path, data: Some(d) }, t)),
        },
    }
}

/// An archive that is accepted keeps every limit: each path stays below the target, no file
/// has a denied extension, no file is larger than its limit and all together fit theirs. No file
/// stands where a directory has to be.
pub proof fn accepted_archives_keep_limits(bytes: Seq<u8>, dest: Seq<char>)
    requires
        unpacked(bytes, dest) is Ok,
    ensures
        ({
            let v = unpacked(bytes, dest)->Ok_0;
            &&& v.len() <= MAX_ENTRIES
            &&& bytes_in(v) <= MAX_TOTAL_BYTES
            &&& forall|j: int, k: int|
                0 <= j < v.len() && 0 <= k < v.len() ==> !clashes(#[trigger] v[j], #[trigger] v[k])
            &&& forall|k: int|
                0 <= k < v.len() ==> {
                    &&& (#[trigger] v[k]).0.len() > 0
                    &&& v[k].1 matches Some(d) ==> d.len() <= MAX_FILE_BYTES && denied_of(
                        v[k].0,
                    ) is None
                    &&& forall|j: int|
                        0 <= j < v[k].0.len() ==> {
                            let seg = #[trigger] v[k].0[j];
                            &&& seg.len() > 0
                            &&& !source::all_dots(seg)
                            &&& !seg.contains('/') && !seg.contains('\\') && !seg.contains('\0')
                        }
                }
        }),
{
    lemma_limits(bytes, dest, zip_reader::zip_count(bytes));
}

/// The bytes that a list of unpacked things holds.
pub open spec fn bytes_in(v: Seq<(Seq<Seq<char>>, Option<Seq<u8>>)>) -> nat
    decreases v.len(),
{
    if v.len() == 0 {
        0
    } else {
        bytes_in(v.drop_last()) + match v.last().1 {
            Some(d) => d.len(),
            None => 0,
        }
    }
}

proof fn lemma_limits(bytes: Seq<u8>, dest: Seq<char>, n: nat)
    requires
        unpacked_upto(bytes, dest, n) is Ok,
    ensures
        ({
            let (v, total) = unpacked_upto(bytes, dest, n)->Ok_0;
            &&& v.len() == n
            &&& total == bytes_in(v)
            &&& total <= MAX_TOTAL_BYTES
            &&& forall|j: int, k: int|
                0 <= j < v.len() && 0 <= k < v.len() ==> !clashes(#[trigger] v[j], #[trigger] v[k])
            &&& forall|k: int|
                0 <= k < v.len() ==> {
                    &&& (#[trigger] v[k]).0.len() > 0
                    &&& v[k].1 matches Some(d) ==> d.len() <= MAX_FILE_BYTES && denied_of(
                        v[k].0,
                    ) is None
                    &&& forall|j: int|
                        0 <= j < v[k].0.len() ==> {
                            let seg = #[trigger] v[k].0[j];
                            &&& seg.len() > 0
                            &&& !source::all_dots(seg)
                            &&& !seg.contains('/') && !seg.contains('\\') && !seg.contains('\0')
                        }
                }
        }),
    decreases n,
{
    if n > 0 {
        let i = (n - 1) as nat;
        lemma_limits(bytes, dest, i);
        let (before, total) = unpacked_upto(bytes, dest, i)->Ok_0;
        let (u, t) = unpacked_one(bytes, dest, i, before, total)->Ok_0;
        let v = before.push(u);
        assert(v.drop_last() =~= before);
        assert forall|j: int, k: int| 0 <= j < v.len() && 0 <= k < v.len() implies !clashes(
            #[trigger] v[j],
            #[trigger] v[k],
        ) by {
            assert(place_error(dest, before, u.0, u.1 is None) is None);
            if j < i && k < i {
                assert(v[j] == before[j] && v[k] == before[k]);
            } else if j < i {
                assert(v[j] == before[j]);
            } else if k < i {
                assert(v[k] == before[k]);
            }
        }
        let name = zip_reader::zip_head(bytes, i)->Ok_0.0;
        entry::entry_paths_stay_inside(name);
        assert(u.0 == entry::entry_path(name)->Ok_0);
        assert forall|j: int| 0 <= j < u.0.len() implies {
            let seg = #[trigger] u.0[j];
            &&& seg.len() > 0
            &&& !source::all_dots(seg)
            &&& !seg.contains('/') && !seg.contains('\\') && !seg.contains('\0')
        } by {
            assert(entry::entry_path(name)->Ok_0[j] == u.0[j]);
        }
    }
}

// ---------------------------------------------------------------------------
// What holds of entries
// ---------------------------------------------------------------------------

/// An accepted archive is unpacked entry by entry, in its order: every entry goes to the path
/// that its name stands for, as a directory or as a file with the bytes that the archive holds
/// for it. Nothing is left out and nothing is added.
pub proof fn archives_are_unpacked_entry_by_entry(bytes: Seq<u8>, dest: Seq<char>, i: int)
    requires
        unpacked(bytes, dest) is Ok,
        0 <= i < zip_reader::zip_count(bytes),
    ensures
        ({
            let v = unpacked(bytes, dest)->Ok_0;
            let h = zip_reader::zip_head(bytes, i as nat)->Ok_0;
            &&& v.len() == zip_reader::zip_count(bytes)
            &&& zip_reader::zip_head(bytes, i as nat) is Ok
            &&& entry::entry_path(h.0) == Ok::<Seq<Seq<char>>, Seq<char>>(v[i].0)
            &&& h.1 ==> v[i].1 is None
            &&& !h.1 ==> v[i].1 is Some && zip_reader::zip_data(
                bytes,
                i as nat,
                16 * 1024 * 1024 + 1,
            ) == Ok::<Seq<u8>, Seq<char>>(v[i].1->0)
            &&& !is_link(h.3)
        }),
{
    lemma_entry_by_entry(bytes, dest, zip_reader::zip_count(bytes), i);
}

proof fn lemma_entry_by_entry(bytes: Seq<u8>, dest: Seq<char>, n: nat, i: int)
    requires
        unpacked_upto(bytes, dest, n) is Ok,
        0 <= i < n,
    ensures
        ({
            let v = (unpacked_upto(bytes, dest, n)->Ok_0).0;
            let h = zip_reader::zip_head(bytes, i as nat)->Ok_0;
            &&& v.len() == n
            &&& zip_reader::zip_head(bytes, i as nat) is Ok
            &&& entry_plan(h) == Ok::<Seq<Seq<char>>, Seq<char>>(v[i].0)
            &&& h.1 ==> v[i].1 is None
            &&& !h.1 ==> v[i].1 is Some && zip_reader::zip_data(
                bytes,
                i as nat,
                (MAX_FILE_BYTES + 1) as nat,
            ) == Ok::<Seq<u8>, Seq<char>>(v[i].1->0)
        }),
    decreases n,
{
    let less = (n - 1) as nat;
    lemma_limits(bytes, dest, less);
    if i < less {
        lemma_entry_by_entry(bytes, dest, less, i);
        let before = (unpacked_upto(bytes, dest, less)->Ok_0).0;
        let all = (unpacked_upto(bytes, dest, n)->Ok_0).0;
        assert(all[i] == before[i]);
    }
}

/// What unpacked things may hold: 4000 entries, 16 MB in one file and 32 MB in all, and not
/// more. A file within these limits is taken.
pub proof fn limits_are_as_told(name: Seq<char>, written: nat, total: nat, bytes: Seq<u8>, dest: Seq<char>)
    ensures
        ({
            let mega = 1024int * 1024;
            &&& total_after(name, written, total) is Ok <==> written <= 16 * mega && total + written
                <= 32 * mega
            &&& total_after(name, written, total) is Ok ==> total_after(name, written, total)->Ok_0
                == total + written
            &&& zip_reader::zip_count(bytes) > 4000 ==> unpacked(bytes, dest) is Err
            &&& unpacked(bytes, dest) matches Ok(v) ==> bytes_in(v) <= 32 * mega && v.len() <= 4000
        }),
{
    if unpacked(bytes, dest) is Ok {
        accepted_archives_keep_limits(bytes, dest);
    }
}

/// Something is put on disk unless a file stands where it needs a directory, or it is a file
/// where a directory has to be; what stands there already is never in the way otherwise.
pub proof fn only_clashes_are_refused(
    dest: Seq<char>,
    done: Seq<(Seq<Seq<char>>, Option<Seq<u8>>)>,
    path: Seq<Seq<char>>,
    data: Option<Seq<u8>>,
)
    ensures
        place_error(dest, done, path, data is None) is None <==> forall|k: int|
            0 <= k < done.len() ==> !clashes(#[trigger] done[k], (path, data)) && !clashes(
                (path, data),
                done[k],
            ),
{
    let is_dir = data is None;
    if place_error(dest, done, path, is_dir) is Some {
        if exists|k: int|
            0 <= k < done.len() && (#[trigger] done[k]).1 is Some && under(path, done[k].0) && (
            path.len() > done[k].0.len() || is_dir) {
            let k = choose|k: int|
                0 <= k < done.len() && (#[trigger] done[k]).1 is Some && under(path, done[k].0) && (
                path.len() > done[k].0.len() || is_dir);
            assert(clashes(done[k], (path, data)));
        } else {
            let k = choose|k: int|
                0 <= k < done.len() && under((#[trigger] done[k]).0, path) && (done[k].0.len()
                    > path.len() || done[k].1 is None);
            assert(clashes((path, data), done[k]));
        }
    } else {
        assert forall|k: int| 0 <= k < done.len() implies !clashes(#[trigger] done[k], (path, data))
            && !clashes((path, data), done[k]) by {}
    }
}

/// The extension is what stands behind the last dot, in lower case, whatever dots and spaces
/// follow it: they do not hide it.
pub proof fn endings_hide_no_extension(stem: Seq<char>, ext: Seq<char>, tail: Seq<char>)
    requires
        ext.len() > 0,
        !ext.contains('.'),
        ext.last() != ' ',
        forall|i: int| 0 <= i < tail.len() ==> #[trigger] tail[i] == '.' || tail[i] == ' ',
    ensures
        effective_ext(stem + "."@ + ext + tail) == Some(text::lowered(ext)),
{
    reveal_strlit(".");
    let name = stem + "."@ + ext;
    assert(ext.contains(ext.last()));
    assert(name.last() == ext.last());
    lemma_ending_goes(name, tail);
    lemma_after_last(stem + "."@, ext);
    assert((stem + "."@).last() == '.');
    assert(after_last(stem + "."@, '.') == stem.len() + 1);
    assert(name.skip(stem.len() as int + 1) =~= ext);
}

proof fn lemma_ending_goes(p: Seq<char>, tail: Seq<char>)
    requires
        p.len() > 0,
        p.last() != '.',
        p.last() != ' ',
        forall|i: int| 0 <= i < tail.len() ==> #[trigger] tail[i] == '.' || tail[i] == ' ',
    ensures
        text::trimmed_end(p + tail, |c: char| c == '.' || c == ' ') == p,
    decreases tail.len(),
{
    if tail.len() == 0 {
        assert(p + tail =~= p);
    } else {
        let less = tail.drop_last();
        assert((p + tail).drop_last() =~= p + less);
        assert((p + tail).last() == tail[tail.len() - 1]);
        assert forall|i: int| 0 <= i < less.len() implies #[trigger] less[i] == '.' || less[i]
            == ' ' by {
            assert(less[i] == tail[i]);
        }
        lemma_ending_goes(p, less);
    }
}

proof fn lemma_after_last(a: Seq<char>, b: Seq<char>)
    requires
        !b.contains('.'),
    ensures
        after_last(a + b, '.') == after_last(a, '.'),
    decreases b.len(),
{
    if b.len() == 0 {
        assert(a + b =~= a);
    } else {
        let less = b.drop_last();
        assert((a + b).drop_last() =~= a + less);
        assert((a + b).last() == b.last());
        assert(b.contains(b[b.len() - 1]));
        if less.contains('.') {
            let i = choose|i: int| 0 <= i < less.len() && less[i] == '.';
            assert(b[i] == '.');
        }
        lemma_after_last(a, less);
    }
}

/// The kinds of files that a plugin may not bring.
pub open spec fn denied_kinds() -> Seq<Seq<char>> {
    seq![
        "exe"@, "dll"@, "bat"@, "cmd"@, "com"@, "scr"@, "ps1"@, "psm1"@, "msi"@, "vbs"@,
        "vbe"@, "wsf"@, "jar"@, "sys"@, "drv"@, "cpl"@, "lnk"@, "url"@, "hta"@, "reg"@,
        "scf"@, "pif"@, "msc"@,
    ]
}

/// A file of a kind that acts when it is opened is refused wherever it lies, in any case of the
/// letters and whatever dots and spaces follow; a file of another kind is not.
pub proof fn programs_are_refused(
    dir: Seq<Seq<char>>,
    stem: Seq<char>,
    ext: Seq<char>,
    tail: Seq<char>,
    k: int,
)
    requires
        ext.len() > 0,
        !ext.contains('.'),
        ext.last() != ' ',
        forall|i: int| 0 <= i < tail.len() ==> #[trigger] tail[i] == '.' || tail[i] == ' ',
    ensures
        0 <= k < denied_kinds().len() && text::lowered(ext) == denied_kinds()[k] ==> denied_of(
            dir.push(stem + "."@ + ext + tail),
        ) == Some(denied_kinds()[k]),
        denied_of(dir.push(stem + "."@ + ext + tail)) is Some ==> denied_kinds().contains(
            text::lowered(ext),
        ),
{
    reveal_strlit(".");
    reveal_strlit("..");
    let name = stem + "."@ + ext + tail;
    endings_hide_no_extension(stem, ext, tail);
    assert(name[stem.len() as int] == '.');
    assert(name[stem.len() as int + 1] == ext[0]);
    assert(ext.contains(ext[0]));
    if name == "."@ {
        assert(name.len() == 1);
    }
    if name == ".."@ {
        assert(name[1] == '.');
        assert(stem.len() == 0);
    }
    let e = text::lowered(ext);
    let h = denied_kinds();
    assert(h[0] == "exe"@ && h[1] == "dll"@ && h[2] == "bat"@ && h[3] == "cmd"@ && h[4] == "com"@
        && h[5] == "scr"@ && h[6] == "ps1"@ && h[7] == "psm1"@ && h[8] == "msi"@ && h[9] == "vbs"@
        && h[10] == "vbe"@ && h[11] == "wsf"@ && h[12] == "jar"@ && h[13] == "sys"@ && h[14]
        == "drv"@ && h[15] == "cpl"@ && h[16] == "lnk"@ && h[17] == "url"@ && h[18] == "hta"@
        && h[19] == "reg"@ && h[20] == "scf"@ && h[21] == "pif"@ && h[22] == "msc"@);
}

/// A link is what the kind bits of its mode say, whatever its permission bits are.
pub proof fn links_are_told_by_their_kind(mode: u32)
    ensures
        is_link(Some(mode)) <==> mode / 4096 % 16 == 10,
        !is_link(None),
{
    assert((mode & 0xF000 == 0xA000) <==> (mode / 4096 % 16 == 10)) by (bit_vector);
}

/// An entry that is no link and no program goes where its name says, up to 16 MB; a directory
/// has no size to mind.
pub proof fn entries_go_where_their_names_say(
    name: Seq<char>,
    size: u64,
    mode: Option<u32>,
    segs: Seq<Seq<char>>,
)
    requires
        entry::entry_path(name) == Ok::<Seq<Seq<char>>, Seq<char>>(segs),
        !is_link(mode),
    ensures
        entry_plan((name, true, size, mode)) == Ok::<Seq<Seq<char>>, Seq<char>>(segs),
        denied_of(segs) is None && size <= 16 * 1024 * 1024 ==> entry_plan(
            (name, false, size, mode),
        ) == Ok::<Seq<Seq<char>>, Seq<char>>(segs),
        denied_of(segs) is None && size > 16 * 1024 * 1024 ==> entry_plan(
            (name, false, size, mode),
        ) is Err,
{
}

/// Whether an entry of an archive gives something: the path and, for a file, the bytes. It is
/// no link, no program and within the limit of one file.
pub open spec fn gives(bytes: Seq<u8>, i: nat, what: (Seq<Seq<char>>, Option<Seq<u8>>)) -> bool {
    let h = zip_reader::zip_head(bytes, i)->Ok_0;
    &&& zip_reader::zip_head(bytes, i) is Ok
    &&& !is_link(h.3)
    &&& entry::entry_path(h.0) == Ok::<Seq<Seq<char>>, Seq<char>>(what.0)
    &&& h.1 <==> what.1 is None
    &&& what.1 is Some ==> {
        &&& denied_of(what.0) is None
        &&& h.2 <= 16 * 1024 * 1024
        &&& what.1->0.len() <= 16 * 1024 * 1024
        &&& zip_reader::zip_data(bytes, i, 16 * 1024 * 1024 + 1) == Ok::<Seq<u8>, Seq<char>>(
            what.1->0,
        )
    }
}

/// An archive of up to 4000 entries and 32 MB is unpacked where every entry gives something and
/// no two of these things are in each other's way: what comes out is all of them, in order.
pub proof fn good_archives_are_unpacked(
    bytes: Seq<u8>,
    dest: Seq<char>,
    all: Seq<(Seq<Seq<char>>, Option<Seq<u8>>)>,
)
    requires
        zip_reader::zip_fault(bytes) is None,
        all.len() == zip_reader::zip_count(bytes),
        all.len() <= 4000,
        bytes_in(all) <= 32 * 1024 * 1024,
        forall|i: int| 0 <= i < all.len() ==> gives(bytes, i as nat, #[trigger] all[i]),
        forall|i: int, j: int|
            0 <= i < all.len() && 0 <= j < all.len() ==> !clashes(
                #[trigger] all[i],
                #[trigger] all[j],
            ),
    ensures
        unpacked(bytes, dest) == Ok::<Seq<(Seq<Seq<char>>, Option<Seq<u8>>)>, Seq<char>>(all),
{
    lemma_good_entries(bytes, dest, all, all.len());
    assert(all.take(all.len() as int) =~= all);
}

proof fn lemma_bytes_front(v: Seq<(Seq<Seq<char>>, Option<Seq<u8>>)>, n: int)
    requires
        0 <= n <= v.len(),
    ensures
        bytes_in(v.take(n)) <= bytes_in(v),
    decreases v.len(),
{
    if n == v.len() {
        assert(v.take(n) =~= v);
    } else {
        let less = v.drop_last();
        lemma_bytes_front(less, n);
        assert(less.take(n) =~= v.take(n));
    }
}

proof fn lemma_good_entries(
    bytes: Seq<u8>,
    dest: Seq<char>,
    all: Seq<(Seq<Seq<char>>, Option<Seq<u8>>)>,
    n: nat,
)
    requires
        n <= all.len(),
        bytes_in(all) <= 32 * 1024 * 1024,
        forall|i: int| 0 <= i < all.len() ==> gives(bytes, i as nat, #[trigger] all[i]),
        forall|i: int, j: int|
            0 <= i < all.len() && 0 <= j < all.len() ==> !clashes(
                #[trigger] all[i],
                #[trigger] all[j],
            ),
    ensures
        unpacked_upto(bytes, dest, n) == Ok::<
            (Seq<(Seq<Seq<char>>, Option<Seq<u8>>)>, nat),
            Seq<char>,
        >((all.take(n as int), bytes_in(all.take(n as int)))),
    decreases n,
{
    if n == 0 {
        assert(all.take(0) =~= Seq::empty());
        assert(bytes_in(all.take(0)) == 0);
    } else {
        let m = (n - 1) as nat;
        lemma_good_entries(bytes, dest, all, m);
        let done = all.take(m as int);
        let what = all[m as int];
        assert(gives(bytes, m, what));
        only_clashes_are_refused(dest, done, what.0, what.1);
        assert forall|k: int| 0 <= k < done.len() implies !clashes(
            #[trigger] done[k],
            (what.0, what.1),
        ) && !clashes((what.0, what.1), done[k]) by {
            assert(done[k] == all[k]);
            assert((what.0, what.1) == all[m as int]);
        }
        let more = all.take(n as int);
        assert(more.drop_last() =~= done);
        assert(more.last() == what);
        assert(done.push(what) =~= more);
        lemma_bytes_front(all, n as int);
    }
}

} // verus!
