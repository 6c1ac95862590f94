//! Files and directories that the user opened to a plugin: scopes, and what may be reached
//! through them.

use crate::codec;
use crate::commands;
use crate::path;
use crate::session::ActiveSession;
use crate::text;
use vstd::prelude::*;
use vstd::slice::slice_subrange;

verus! {

/// The permission that a plugin needs for scopes.
pub const PERMISSION: &'static str = "fs-user-scope";

/// The most bytes that are read of a file at a time: 16 MB.
pub const MAX_CHUNK_LEN: u64 = 16_777_216;

/// A directory or a file that the user opened to a plugin.
#[derive(Debug)]
pub struct FsScope {
    pub id: String,
    /// `dir` or `file`.
    pub kind: String,
    pub path: String,
    /// A short name to show.
    pub label: String,
    /// When it was opened, in seconds.
    pub created: u64,
}

/// The view of [`FsScope`].
#[verifier::ext_equal]
pub struct ScopeView {
    pub id: Seq<char>,
    pub kind: Seq<char>,
    pub path: Seq<char>,
    pub label: Seq<char>,
    pub created: u64,
}

impl View for FsScope {
    type V = ScopeView;

    open spec fn view(&self) -> ScopeView {
        ScopeView {
            id: self.id@,
            kind: self.kind@,
            path: self.path@,
            label: self.label@,
            created: self.created,
        }
    }
}

impl Clone for FsScope {
    fn clone(&self) -> (r: Self)
        ensures
            r@ == self@,
    {
        FsScope {
            id: self.id.clone(),
            kind: self.kind.clone(),
            path: self.path.clone(),
            label: self.label.clone(),
            created: self.created,
        }
    }
}

/// What a plugin is told of a file or directory.
#[derive(Debug)]
pub struct FsEntry {
    pub name: String,
    pub is_dir: bool,
    pub size: u64,
    /// When it was last changed, where that is known.
    pub modified: Option<String>,
}

/// How a directory is asked for.
#[derive(Debug)]
pub struct PickDirOptions {
    pub title: Option<String>,
}

/// A kind of files that can be asked for.
#[derive(Debug)]
pub struct PickFilter {
    pub name: String,
    pub extensions: Vec<String>,
}

/// How a file is asked for.
#[derive(Debug)]
pub struct PickFileOptions {
    pub title: Option<String>,
    pub filters: Option<Vec<PickFilter>>,
}

/// Checks that a plugin may use scopes.
pub fn check_access(granted: bool) -> (r: Result<(), String>)
    ensures
        text::message_of(r) == (if granted {
            None
        } else {
            Some("插件未获授权访问所选文件夹（请在「插件管理」里授权 fs-user-scope）"@)
        }),
{
    if granted {
        Ok(())
    } else {
        Err(
            text::owned(
                "插件未获授权访问所选文件夹（请在「插件管理」里授权 fs-user-scope）",
            ),
        )
    }
}

/// The title of the dialog that asks for a directory.
pub fn dir_title(opts: Option<PickDirOptions>) -> (r: String)
    ensures
        r@ == (if opts is Some && opts->0.title is Some {
            opts->0.title->0@
        } else {
            "选择文件夹"@
        }),
{
    match opts {
        Some(o) => match o.title {
            Some(t) => t,
            None => text::owned("选择文件夹"),
        },
        None => text::owned("选择文件夹"),
    }
}

/// The title of the dialog that asks for a file.
pub fn file_title(title: Option<String>) -> (r: String)
    ensures
        r@ == (match title {
            Some(t) => t@,
            None => "选择文件"@,
        }),
{
    match title {
        Some(t) => t,
        None => text::owned("选择文件"),
    }
}

// ---------------------------------------------------------------------------
// The scopes of a plugin
// ---------------------------------------------------------------------------

/// The scopes of one plugin, in the order in which they were opened.
#[derive(Debug)]
pub struct ScopeStore {
    pub scopes: Vec<FsScope>,
}

/// The view of a list of scopes.
pub open spec fn scope_views(v: Seq<FsScope>) -> Seq<ScopeView> {
    Seq::new(v.len(), |i: int| v[i]@)
}

impl View for ScopeStore {
    type V = Seq<ScopeView>;

    open spec fn view(&self) -> Seq<ScopeView> {
        scope_views(self.scopes@)
    }
}

impl Default for ScopeStore {
    fn default() -> (r: Self)
        ensures
            r@ == Seq::<ScopeView>::empty(),
    {
        let r = ScopeStore { scopes: Vec::new() };
        assert(r@ =~= Seq::<ScopeView>::empty());
        r
    }
}

/// The first scope of an id.
pub open spec fn find_scope(v: Seq<ScopeView>, id: Seq<char>) -> Option<ScopeView>
    decreases v.len(),
{
    if v.len() == 0 {
        None
    } else if v[0].id == id {
        Some(v[0])
    } else {
        find_scope(v.drop_first(), id)
    }
}

/// The scopes of other ids.
pub open spec fn other_scopes(v: Seq<ScopeView>, id: Seq<char>) -> Seq<ScopeView>
    decreases v.len(),
{
    if v.len() == 0 {
        Seq::empty()
    } else if v.last().id == id {
        other_scopes(v.drop_last(), id)
    } else {
        other_scopes(v.drop_last(), id).push(v.last())
    }
}

impl ScopeStore {
    /// The scope of an id. Unknown ids and ids of other plugins are answered alike.
    pub fn resolve_scope(&self, scope_id: &str) -> (r: Result<FsScope, String>)
        ensures
            text::outcome(r) == (match find_scope(self@, scope_id@) {
                Some(s) => Ok(s),
                None => Err("未知的 scope（可能已过期、被撤销，或属于其他插件）"@),
            }),
    {
        let ghost all = self@;
        let mut i: usize = 0;
        assert(all.skip(0) =~= all);
        while i < self.scopes.len()
            invariant
                i <= self.scopes@.len(),
                all == self@,
                find_scope(all, scope_id@) == find_scope(all.skip(i as int), scope_id@),
            decreases self.scopes@.len() - i,
        {
            assert(all.skip(i as int).drop_first() =~= all.skip(i + 1));
            assert(all.skip(i as int)[0] == self.scopes@[i as int]@);
            if text::str_eq(self.scopes[i].id.as_str(), scope_id) {
                return Ok(self.scopes[i].clone());
            }
            i += 1;
        }
        Err(text::owned("未知的 scope（可能已过期、被撤销，或属于其他插件）"))
    }

    /// Adds a scope.
    pub fn add_scope(&mut self, scope: FsScope)
        ensures
            final(self)@ == old(self)@.push(scope@),
    {
        self.scopes.push(scope);
        assert(self@ =~= old(self)@.push(scope@));
    }

    /// Takes a scope back. One that is not there is an error.
    pub fn revoke(&mut self, scope_id: &str) -> (r: Result<(), String>)
        ensures
            text::message_of(r) == (if find_scope(old(self)@, scope_id@) is None {
                Some("未知的 scope（可能已被撤销，或属于其他插件）"@)
            } else {
                None
            }),
            final(self)@ == other_scopes(old(self)@, scope_id@),
    {
        let ghost all = self@;
        let mut kept: Vec<FsScope> = Vec::new();
        let mut i: usize = 0;
        let n: usize = self.scopes.len();
        assert(all.take(0) =~= Seq::<ScopeView>::empty());
        assert(scope_views(kept@) =~= Seq::<ScopeView>::empty());
        while i < n
            invariant
                n == self.scopes@.len(),
                i <= n,
                all == self@,
                scope_views(kept@) == other_scopes(all.take(i as int), scope_id@),
                kept@.len() <= i,
                kept@.len() == i <==> find_scope(all.take(i as int), scope_id@) is None,
            decreases n - i,
        {
            assert(all.take(i + 1).drop_last() =~= all.take(i as int));
            assert(all.take(i + 1).last() == self.scopes@[i as int]@);
            proof {
                lemma_find_push(all.take(i as int), all[i as int], scope_id@);
                assert(all.take(i as int).push(all[i as int]) =~= all.take(i + 1));
            }
            if !text::str_eq(self.scopes[i].id.as_str(), scope_id) {
                let ghost before = kept@;
                kept.push(self.scopes[i].clone());
                assert(scope_views(kept@) =~= scope_views(before).push(all[i as int]));
            }
            i += 1;
        }
        assert(all.take(i as int) =~= all);
        let gone = kept.len() < n;
        self.scopes = kept;
        if !gone {
            return Err(text::owned("未知的 scope（可能已被撤销，或属于其他插件）"));
        }
        Ok(())
    }
}

proof fn lemma_find_push(v: Seq<ScopeView>, s: ScopeView, id: Seq<char>)
    ensures
        find_scope(v.push(s), id) is None <==> find_scope(v, id) is None && s.id != id,
    decreases v.len(),
{
    if v.len() == 0 {
        reveal_with_fuel(find_scope, 2);
        assert(v.push(s).drop_first() =~= Seq::<ScopeView>::empty());
    } else {
        assert(v.push(s).drop_first() =~= v.drop_first().push(s));
        lemma_find_push(v.drop_first(), s, id);
    }
}

proof fn lemma_find_others(v: Seq<ScopeView>, id: Seq<char>, other: Seq<char>)
    ensures
        find_scope(other_scopes(v, id), id) is None,
        other != id ==> find_scope(other_scopes(v, id), other) is None == find_scope(
            v,
            other,
        ) is None,
    decreases v.len(),
{
    if v.len() > 0 {
        let t = v.drop_last();
        lemma_find_others(t, id, other);
        assert(v =~= t.push(v.last()));
        lemma_find_push(t, v.last(), other);
        if v.last().id != id {
            lemma_find_push(other_scopes(t, id), v.last(), id);
            lemma_find_push(other_scopes(t, id), v.last(), other);
        }
    }
}

/// A scope that was taken back opens nothing more; the other scopes stay.
pub proof fn revoked_scopes_are_gone(v: Seq<ScopeView>, id: Seq<char>, other: Seq<char>)
    ensures
        find_scope(other_scopes(v, id), id) is None,
        other != id ==> (find_scope(other_scopes(v, id), other) is Some <==> find_scope(
            v,
            other,
        ) is Some),
{
    lemma_find_others(v, id, other);
}

/// The directory that the scopes of a plugin are kept in, below the data directory.
pub open spec fn store_dir(session: (Seq<char>, bool)) -> Seq<Seq<char>> {
    if session.1 {
        seq!["dev"@, "plugin-data"@, session.0]
    } else {
        seq!["plugin-data"@, session.0]
    }
}

/// The directory that the scopes of a plugin are kept in, see [`store_dir`].
pub fn plugin_scope_store_dir(session: &ActiveSession) -> (r: Vec<String>)
    ensures
        text::texts(r@) == store_dir(session@),
{
    let mut v: Vec<String> = Vec::new();
    if session.dev {
        v.push(text::owned("dev"));
    }
    v.push(text::owned("plugin-data"));
    v.push(session.id.clone());
    assert(text::texts(v@) =~= store_dir(session@));
    v
}

/// Different sessions keep their scopes in different directories.
pub proof fn scope_stores_are_apart(a: (Seq<char>, bool), b: (Seq<char>, bool))
    requires
        store_dir(a) == store_dir(b),
    ensures
        a == b,
{
    assert(store_dir(a).len() == store_dir(b).len());
    assert(store_dir(a).last() == store_dir(b).last());
}

// ---------------------------------------------------------------------------
// Ids of scopes
// ---------------------------------------------------------------------------

/// The bytes that the id of a scope is made from.
pub open spec fn id_seed(nanos: u128, n: u64, pid: u32, addr: u64) -> Seq<u8> {
    codec::le_bytes(nanos as nat, 16) + codec::le_bytes(n as nat, 8) + codec::le_bytes(
        pid as nat,
        4,
    ) + codec::le_bytes(addr as nat, 8)
}

/// Makes the id of a scope: the digest of the time in nanoseconds, a running number, the
/// number of the process and an address.
pub fn new_scope_id(nanos: u128, n: u64, pid: u32, addr: u64) -> (r: String)
    ensures
        r@ == codec::hex_text(codec::sha256_of(id_seed(nanos, n, pid, addr))),
{
    let mut seed: Vec<u8> = Vec::new();
    codec::push_le(&mut seed, nanos, 16);
    codec::push_le(&mut seed, n as u128, 8);
    codec::push_le(&mut seed, pid as u128, 4);
    codec::push_le(&mut seed, addr as u128, 8);
    assert(seed@ =~= id_seed(nanos, n, pid, addr));
    let digest = codec::sha256(seed.as_slice());
    codec::hex(digest.as_slice())
}

// ---------------------------------------------------------------------------
// Opening a scope
// ---------------------------------------------------------------------------

/// The answer to whoever reaches for the data of the host itself.
pub const OWN_DATA: &'static str =
    "禁止访问 iTools 自身的数据目录（会破坏插件间数据隔离），请重新选择其它文件夹或文件";

/// Checks that a path is not in one of the data directories of the host. Paths are given by
/// their pieces, as the system resolved them.
pub fn reject_itools_data_root(p: &Vec<String>, roots: &Vec<Vec<String>>) -> (r: Result<
    (),
    String,
>)
    ensures
        text::message_of(r) == (if path::any_covers(path::many(roots@), text::texts(p@)) {
            Some(OWN_DATA@)
        } else {
            None
        }),
{
    if path::is_within_any(roots, p) {
        return Err(text::owned(OWN_DATA));
    }
    Ok(())
}

/// The short name of a scope: the file name, or else the whole path.
pub fn label_of(file_name: Option<String>, whole: &str) -> (r: String)
    ensures
        r@ == (match file_name {
            Some(n) => n@,
            None => whole@,
        }),
{
    match file_name {
        Some(n) => n,
        None => text::owned(whole),
    }
}

/// A path without the mark for extended lengths that the system puts in front.
pub open spec fn shown_path(p: Seq<char>) -> Seq<char> {
    if "\\\\?\\UNC\\"@.is_prefix_of(p) {
        "\\\\"@ + p.skip("\\\\?\\UNC\\"@.len() as int)
    } else if "\\\\?\\"@.is_prefix_of(p) {
        p.skip("\\\\?\\"@.len() as int)
    } else {
        p
    }
}

/// A path without the mark for extended lengths, see [`shown_path`].
pub fn strip_extended_prefix(p: &str) -> (r: String)
    ensures
        r@ == shown_path(p@),
{
    let v = text::chars_of(p);
    if text::has_prefix(v.as_slice(), "\\\\?\\UNC\\") {
        let n: usize = text::chars_of("\\\\?\\UNC\\").len();
        let tail = slice_subrange(v.as_slice(), n, v.len());
        assert(tail@ =~= p@.skip(n as int));
        let rest = text::string_of(tail);
        return text::owned("\\\\").concat(rest.as_str());
    }
    if text::has_prefix(v.as_slice(), "\\\\?\\") {
        let n: usize = text::chars_of("\\\\?\\").len();
        let tail = slice_subrange(v.as_slice(), n, v.len());
        assert(tail@ =~= p@.skip(n as int));
        return text::string_of(tail);
    }
    text::owned(p)
}

/// What the user picked: the path as the system resolved it, as text and by its pieces.
#[derive(Debug)]
pub struct Picked {
    pub whole: String,
    pub pieces: Vec<String>,
    pub file_name: Option<String>,
    /// Whether it is of the kind that was asked for.
    pub of_kind: bool,
}

/// Why what the user picked is not opened.
pub open spec fn pick_error(is_dir: bool, p: Picked, roots: Seq<Seq<Seq<char>>>) -> Option<
    Seq<char>,
> {
    if !p.of_kind {
        Some(
            if is_dir {
                "所选路径不是文件夹"@
            } else {
                "所选路径不是文件"@
            },
        )
    } else if path::any_covers(roots, text::texts(p.pieces@)) {
        Some(OWN_DATA@)
    } else {
        None
    }
}

/// Makes the scope for what the user picked, see [`pick_error`].
pub fn open_scope(
    is_dir: bool,
    picked: &Picked,
    roots: &Vec<Vec<String>>,
    id: String,
    created: u64,
) -> (r: Result<FsScope, String>)
    ensures
        text::outcome(r) == (match pick_error(is_dir, *picked, path::many(roots@)) {
            Some(e) => Err(e),
            None => Ok(
                ScopeView {
                    id: id@,
                    kind: if is_dir {
                        "dir"@
                    } else {
                        "file"@
                    },
                    path: shown_path(picked.whole@),
                    label: match picked.file_name {
                        Some(n) => n@,
                        None => picked.whole@,
                    },
                    created,
                },
            ),
        }),
{
    if !picked.of_kind {
        return Err(
            text::owned(
                if is_dir {
                    "所选路径不是文件夹"
                } else {
                    "所选路径不是文件"
                },
            ),
        );
    }
    match reject_itools_data_root(&picked.pieces, roots) {
        Err(e) => {
            return Err(e);
        },
        Ok(_) => {},
    }
    let name = match &picked.file_name {
        Some(n) => Some(n.clone()),
        None => None,
    };
    Ok(
        FsScope {
            id,
            kind: text::owned(
                if is_dir {
                    "dir"
                } else {
                    "file"
                },
            ),
            path: strip_extended_prefix(picked.whole.as_str()),
            label: label_of(name, picked.whole.as_str()),
            created,
        },
    )
}

// ---------------------------------------------------------------------------
// Paths in a scope
// ---------------------------------------------------------------------------

/// The pieces of a path in a scope; an empty path is the scope itself.
pub open spec fn relative_in_scope(sub: Seq<char>) -> Result<Seq<Seq<char>>, Seq<char>> {
    if path::is_plain(sub) {
        Ok(path::parts(sub))
    } else {
        Err("只能访问 scope 内的相对路径（禁绝对路径/盘符/根/..）"@)
    }
}

/// Checks how a path in a scope is written, see [`relative_in_scope`].
pub fn scope_relative(sub: &str) -> (r: Result<Vec<String>, String>)
    ensures
        crate::entry::path_outcome(r) == relative_in_scope(sub@),
{
    match path::plain_parts(sub) {
        Some(v) => Ok(v),
        None => Err(text::owned("只能访问 scope 内的相对路径（禁绝对路径/盘符/根/..）")),
    }
}

/// Whether a scope is a single file.
pub fn is_file_scope(scope: &FsScope) -> (r: bool)
    ensures
        r == (scope@.kind == "file"@),
{
    text::str_eq(scope.kind.as_str(), "file")
}

/// Checks a path in a scope that must exist already, before the system resolves it.
pub fn plan_existing(scope: &FsScope, sub: &str) -> (r: Result<Vec<String>, String>)
    ensures
        crate::entry::path_outcome(r) == existing_plan(scope@.kind, sub@),
        crate::entry::path_outcome(r) == (if scope@.kind == "file"@ && sub@.len() > 0 {
            Err("该 scope 是单个文件，路径参数需留空（直接指向这个文件）"@)
        } else {
            relative_in_scope(sub@)
        }),
{
    if is_file_scope(scope) && !sub.is_empty() {
        return Err(text::owned("该 scope 是单个文件，路径参数需留空（直接指向这个文件）"));
    }
    scope_relative(sub)
}

/// What the system made of a path: its pieces, or why it cannot be reached.
pub type Resolved = Result<Vec<String>, String>;

/// Where a path in a scope leads, when `base` is the scope and `target` the path, as the system
/// resolved them.
pub open spec fn existing_target(
    base: Result<Seq<Seq<char>>, Seq<char>>,
    target: Result<Seq<Seq<char>>, Seq<char>>,
    roots: Seq<Seq<Seq<char>>>,
) -> Result<Seq<Seq<char>>, Seq<char>> {
    match base {
        Err(e) => Err("scope 已失效（原目录/文件不可访问）: "@ + e),
        Ok(b) => if path::any_covers(roots, b) {
            Err(OWN_DATA@)
        } else {
            match target {
                Err(e) => Err("路径不存在或不可访问: "@ + e),
                Ok(t) => if !path::covers(b, t) {
                    Err("路径越出 scope 范围"@)
                } else if path::any_covers(roots, t) {
                    Err(OWN_DATA@)
                } else {
                    Ok(t)
                },
            }
        },
    }
}

/// Decides where a path in a scope leads, see [`existing_target`].
pub fn resolve_existing(base: Resolved, target: Resolved, roots: &Vec<Vec<String>>) -> (r: Result<
    Vec<String>,
    String,
>)
    ensures
        crate::entry::path_outcome(r) == existing_target(
            crate::entry::path_outcome(base),
            crate::entry::path_outcome(target),
            path::many(roots@),
        ),
{
    let b = match base {
        Ok(b) => b,
        Err(e) => {
            return Err(text::owned("scope 已失效（原目录/文件不可访问）: ").concat(e.as_str()));
        },
    };
    match reject_itools_data_root(&b, roots) {
        Err(e) => {
            return Err(e);
        },
        Ok(_) => {},
    }
    let t = match target {
        Ok(t) => t,
        Err(e) => {
            return Err(text::owned("路径不存在或不可访问: ").concat(e.as_str()));
        },
    };
    if !path::is_within(&b, &t) {
        return Err(text::owned("路径越出 scope 范围"));
    }
    match reject_itools_data_root(&t, roots) {
        Err(e) => Err(e),
        Ok(_) => Ok(t),
    }
}

/// Whatever the system resolves a path to, what a plugin reaches lies in the scope and in no
/// data directory of the host.
pub proof fn reached_paths_stay_in_scope(
    base: Result<Seq<Seq<char>>, Seq<char>>,
    target: Result<Seq<Seq<char>>, Seq<char>>,
    roots: Seq<Seq<Seq<char>>>,
)
    requires
        existing_target(base, target, roots) is Ok,
    ensures
        base is Ok,
        path::covers(base->Ok_0, existing_target(base, target, roots)->Ok_0),
        !path::any_covers(roots, existing_target(base, target, roots)->Ok_0),
{
}

/// What is to be written.
#[derive(Debug)]
pub enum WritePlan {
    /// The file that the scope is.
    ScopeItself(Vec<String>),
    /// A path without a named piece: the scope under its own name.
    ScopeDirectory,
    /// A file of a name in a directory, given by its pieces below the scope.
    Below { dir: Vec<String>, name: String },
}

/// The view of [`WritePlan`].
pub enum WritePlanView {
    ScopeItself(Seq<Seq<char>>),
    ScopeDirectory,
    Below { dir: Seq<Seq<char>>, name: Seq<char> },
}

impl View for WritePlan {
    type V = WritePlanView;

    open spec fn view(&self) -> WritePlanView {
        match self {
            WritePlan::ScopeItself(p) => WritePlanView::ScopeItself(text::texts(p@)),
            WritePlan::ScopeDirectory => WritePlanView::ScopeDirectory,
            WritePlan::Below { dir, name } => WritePlanView::Below {
                dir: text::texts(dir@),
                name: name@,
            },
        }
    }
}

/// The directory and the name of the file that pieces lead to; the scope itself where there
/// are none.
pub open spec fn split_plan(pieces: Seq<Seq<char>>) -> WritePlanView {
    if pieces.len() == 0 {
        WritePlanView::ScopeDirectory
    } else {
        WritePlanView::Below { dir: pieces.drop_last(), name: pieces.last() }
    }
}

/// What is written for a path in a scope, before the system resolves it.
pub open spec fn write_plan(
    kind: Seq<char>,
    sub: Seq<char>,
    base: Result<Seq<Seq<char>>, Seq<char>>,
    roots: Seq<Seq<Seq<char>>>,
) -> Result<WritePlanView, Seq<char>> {
    match base {
        Err(e) => Err("scope 已失效（原目录/文件不可访问）: "@ + e),
        Ok(b) => if path::any_covers(roots, b) {
            Err(OWN_DATA@)
        } else if kind == "file"@ {
            if sub.len() > 0 {
                Err("该 scope 是单个文件，只能写入这个文件本身（path 留空）"@)
            } else {
                Ok(WritePlanView::ScopeItself(b))
            }
        } else if sub.len() == 0 {
            Err("必须指定 scope 内要写入的文件名"@)
        } else {
            match relative_in_scope(sub) {
                Err(e) => Err(e),
                Ok(p) => Ok(split_plan(p)),
            }
        },
    }
}

/// Plans what is written for a path in a scope, see [`write_plan`].
pub fn plan_write(
    scope: &FsScope,
    sub: &str,
    base: &Resolved,
    roots: &Vec<Vec<String>>,
) -> (r: Result<WritePlan, String>)
    ensures
        text::outcome(r) == write_plan(
            scope@.kind,
            sub@,
            crate::entry::path_outcome(*base),
            path::many(roots@),
        ),
{
    let b = match base {
        Ok(b) => b,
        Err(e) => {
            return Err(text::owned("scope 已失效（原目录/文件不可访问）: ").concat(e.as_str()));
        },
    };
    match reject_itools_data_root(b, roots) {
        Err(e) => {
            return Err(e);
        },
        Ok(_) => {},
    }
    if is_file_scope(scope) {
        if !sub.is_empty() {
            return Err(
                text::owned("该 scope 是单个文件，只能写入这个文件本身（path 留空）"),
            );
        }
        return Ok(WritePlan::ScopeItself(copy_pieces(b)));
    }
    if sub.is_empty() {
        return Err(text::owned("必须指定 scope 内要写入的文件名"));
    }
    let mut dir = match scope_relative(sub) {
        Err(e) => {
            return Err(e);
        },
        Ok(p) => p,
    };
    let ghost pieces = text::texts(dir@);
    match dir.pop() {
        None => Ok(WritePlan::ScopeDirectory),
        Some(name) => {
            assert(text::texts(dir@) =~= pieces.drop_last());
            assert(name@ == pieces.last());
            Ok(WritePlan::Below { dir, name })
        },
    }
}

fn copy_pieces(v: &Vec<String>) -> (r: Vec<String>)
    ensures
        text::texts(r@) == text::texts(v@),
{
    let mut out: Vec<String> = Vec::new();
    let mut i: usize = 0;
    while i < v.len()
        invariant
            i <= v@.len(),
            out@.len() == i,
            forall|j: int| 0 <= j < i ==> (#[trigger] out@[j])@ == v@[j]@,
        decreases v@.len() - i,
    {
        out.push(v[i].clone());
        i += 1;
    }
    assert(text::texts(out@) =~= text::texts(v@));
    out
}

/// The name of the file that is written: the last piece of the path, and the name of the scope
/// where the path has no named piece.
pub open spec fn write_name(scope_path: Seq<char>, plan: WritePlanView) -> Option<Seq<char>> {
    match plan {
        WritePlanView::Below { dir, name } => Some(name),
        _ => path::file_name(scope_path),
    }
}

/// Where a write to a path in a scope goes. `base` is the scope and `parent` the directory of
/// the file, as the system resolved them; there is no `parent` where the path has none. What is
/// written is a file that may not exist yet in a directory that does.
///
/// A path without a named piece leads to the scope itself, whose directory lies in the scope
/// only where the scope is a link from below to above.
pub open spec fn write_target(
    scope: ScopeView,
    sub: Seq<char>,
    base: Result<Seq<Seq<char>>, Seq<char>>,
    parent: Option<Result<Seq<Seq<char>>, Seq<char>>>,
    roots: Seq<Seq<Seq<char>>>,
) -> Result<Seq<Seq<char>>, Seq<char>> {
    match write_plan(scope.kind, sub, base, roots) {
        Err(e) => Err(e),
        Ok(WritePlanView::ScopeItself(b)) => Ok(b),
        Ok(plan) => match parent {
            None => Err("非法路径"@),
            Some(Err(e)) => Err("目标所在目录不存在: "@ + e),
            Some(Ok(p)) => if !path::covers(base->Ok_0, p) {
                Err("路径越出 scope 范围"@)
            } else if path::any_covers(roots, p) {
                Err(OWN_DATA@)
            } else {
                match write_name(scope.path, plan) {
                    None => Err("非法路径（缺文件名）"@),
                    Some(name) => Ok(p.push(name)),
                }
            },
        },
    }
}

/// Decides where a write to a path in a scope goes, see [`write_target`]. Where the scope is a
/// file, `parent` does not matter.
pub fn resolve_for_write(
    scope: &FsScope,
    sub: &str,
    base: &Resolved,
    parent: Option<Resolved>,
    roots: &Vec<Vec<String>>,
) -> (r: Result<Vec<String>, String>)
    ensures
        crate::entry::path_outcome(r) == write_target(
            scope@,
            sub@,
            crate::entry::path_outcome(*base),
            match parent {
                Some(p) => Some(crate::entry::path_outcome(p)),
                None => None,
            },
            path::many(roots@),
        ),
{
    let plan = match plan_write(scope, sub, base, roots) {
        Err(e) => {
            return Err(e);
        },
        Ok(p) => p,
    };
    let ghost planned = plan@;
    let found = match plan {
        WritePlan::ScopeItself(p) => {
            return Ok(p);
        },
        WritePlan::ScopeDirectory => match path::name_in(scope.path.as_str()) {
            None => None,
            Some(n) => Some(text::string_of(n.as_slice())),
        },
        WritePlan::Below { dir: _, name } => Some(name),
    };
    assert(text::opt_view(found) == write_name(scope@.path, planned));
    let mut p = match parent {
        None => {
            return Err(text::owned("非法路径"));
        },
        Some(Err(e)) => {
            return Err(text::owned("目标所在目录不存在: ").concat(e.as_str()));
        },
        Some(Ok(p)) => p,
    };
    let within = match base {
        Ok(b) => path::is_within(b, &p),
        Err(_) => false,
    };
    if !within {
        return Err(text::owned("路径越出 scope 范围"));
    }
    match reject_itools_data_root(&p, roots) {
        Err(e) => {
            return Err(e);
        },
        Ok(_) => {},
    }
    let name = match found {
        None => {
            return Err(text::owned("非法路径（缺文件名）"));
        },
        Some(n) => n,
    };
    let ghost before = p@;
    p.push(name);
    assert(text::texts(p@) =~= text::texts(before).push(name@));
    Ok(p)
}

/// What is written stays in the scope. A scope that is a file gives that file alone. Else the
/// file has the last piece of the path as its name (the name of the scope where the path has no
/// named piece), which is a plain name, and its directory is the one that the system found, in
/// the scope and in no data directory of the host.
pub proof fn written_files_stay_in_scope(
    scope: ScopeView,
    sub: Seq<char>,
    base: Result<Seq<Seq<char>>, Seq<char>>,
    parent: Option<Result<Seq<Seq<char>>, Seq<char>>>,
    roots: Seq<Seq<Seq<char>>>,
)
    requires
        write_target(scope, sub, base, parent, roots) is Ok,
    ensures
        base is Ok,
        !path::any_covers(roots, base->Ok_0),
        ({
            let t = write_target(scope, sub, base, parent, roots)->Ok_0;
            if scope.kind == "file"@ {
                sub.len() == 0 && t == base->Ok_0
            } else {
                &&& sub.len() > 0
                &&& relative_in_scope(sub) is Ok
                &&& t.len() > 0
                &&& if path::parts(sub).len() > 0 {
                    t.last() == path::parts(sub).last()
                } else {
                    path::file_name(scope.path) == Some(t.last())
                }
                &&& t.last().len() > 0
                &&& t.last() != "."@ && t.last() != ".."@
                &&& !t.last().contains('/') && !t.last().contains('\\')
                &&& parent == Some(Ok::<Seq<Seq<char>>, Seq<char>>(t.drop_last()))
                &&& path::covers(base->Ok_0, t.drop_last())
                &&& path::covers(base->Ok_0, t)
                &&& !path::any_covers(roots, t.drop_last())
            }
        }),
{
    if scope.kind != "file"@ {
        let t = write_target(scope, sub, base, parent, roots)->Ok_0;
        let p = parent->0->Ok_0;
        let b = base->Ok_0;
        path::plain_parts_are_names(sub);
        path::lemma_file_name(scope.path);
        assert(t.drop_last() =~= p);
        if path::parts(sub).len() > 0 {
            assert(t.last() == path::parts(sub)[path::parts(sub).len() - 1]);
        }
        assert(t.subrange(0, b.len() as int) =~= p.subrange(0, b.len() as int));
    }
}

/// Checks the directory that an archive is unpacked to, before it is made.
pub fn plan_extract(scope: &FsScope, sub: &str) -> (r: Result<Vec<String>, String>)
    ensures
        crate::entry::path_outcome(r) is Ok <==> may_extract(scope@.kind, sub@),
        crate::entry::path_outcome(r) == (if scope@.kind == "file"@ {
            Err("该 scope 是单个文件，不能作为解压目标目录"@)
        } else if sub@.len() == 0 {
            Err("必须指定 scope 内的解压目标目录"@)
        } else {
            relative_in_scope(sub@)
        }),
{
    if is_file_scope(scope) {
        return Err(text::owned("该 scope 是单个文件，不能作为解压目标目录"));
    }
    if sub.is_empty() {
        return Err(text::owned("必须指定 scope 内的解压目标目录"));
    }
    scope_relative(sub)
}

/// Checks the scope that an archive is unpacked to, as the system resolved it.
pub fn check_extract_base(base: Resolved, roots: &Vec<Vec<String>>) -> (r: Result<
    Vec<String>,
    String,
>)
    ensures
        crate::entry::path_outcome(r) == (match crate::entry::path_outcome(base) {
            Err(e) => Err("scope 已失效（原目录不可访问）: "@ + e),
            Ok(b) => if path::any_covers(path::many(roots@), b) {
                Err(OWN_DATA@)
            } else {
                Ok(b)
            },
        }),
{
    match base {
        Err(e) => Err(text::owned("scope 已失效（原目录不可访问）: ").concat(e.as_str())),
        Ok(b) => {
            match reject_itools_data_root(&b, roots) {
                Err(e) => Err(e),
                Ok(_) => Ok(b),
            }
        },
    }
}

/// Where an archive is unpacked to, when the directory was made and resolved.
pub open spec fn extract_target(
    base: Seq<Seq<char>>,
    target: Result<Seq<Seq<char>>, Seq<char>>,
    roots: Seq<Seq<Seq<char>>>,
) -> Result<Seq<Seq<char>>, Seq<char>> {
    match target {
        Err(e) => Err("解析解压目标目录失败: "@ + e),
        Ok(t) => if !path::covers(base, t) {
            Err("解压目标越出 scope 范围"@)
        } else if path::any_covers(roots, t) {
            Err(OWN_DATA@)
        } else {
            Ok(t)
        },
    }
}

/// Decides where an archive is unpacked to, see [`extract_target`].
pub fn resolve_extract_dir(base: &Vec<String>, target: Resolved, roots: &Vec<Vec<String>>) -> (r:
    Result<Vec<String>, String>)
    ensures
        crate::entry::path_outcome(r) == extract_target(
            text::texts(base@),
            crate::entry::path_outcome(target),
            path::many(roots@),
        ),
{
    let t = match target {
        Ok(t) => t,
        Err(e) => {
            return Err(text::owned("解析解压目标目录失败: ").concat(e.as_str()));
        },
    };
    if !path::is_within(base, &t) {
        return Err(text::owned("解压目标越出 scope 范围"));
    }
    match reject_itools_data_root(&t, roots) {
        Err(e) => Err(e),
        Ok(_) => Ok(t),
    }
}

/// Checks the directory that a file of an archive lands in, as the system resolved it.
pub fn check_landing(out_dir: &Vec<String>, parent: &Vec<String>, name: &str) -> (r: Result<
    (),
    String,
>)
    ensures
        text::message_of(r) == (if path::covers(text::texts(out_dir@), text::texts(parent@)) {
            None
        } else {
            Some("归档条目落点越界（不安全）："@ + name@)
        }),
{
    if !path::is_within(out_dir, parent) {
        return Err(text::owned("归档条目落点越界（不安全）：").concat(name));
    }
    Ok(())
}

// ---------------------------------------------------------------------------
// Requests
// ---------------------------------------------------------------------------

/// Checks that a directory can be listed: the scope is one, and so is what was found.
pub fn check_list(scope: &FsScope, found_dir: Option<bool>) -> (r: Result<(), String>)
    ensures
        text::message_of(r) is None <==> may_list(scope@.kind, found_dir),
        text::message_of(r) == (if scope@.kind != "dir"@ {
            Some("该 scope 是单个文件，不能枚举目录"@)
        } else if found_dir == Some(false) {
            Some("目标不是文件夹"@)
        } else {
            None
        }),
{
    if !text::str_eq(scope.kind.as_str(), "dir") {
        return Err(text::owned("该 scope 是单个文件，不能枚举目录"));
    }
    match found_dir {
        Some(is_dir) => if !is_dir {
            return Err(text::owned("目标不是文件夹"));
        },
        None => {},
    }
    Ok(())
}

/// The name that a plugin is told of what it asked for: the file name, or else the label of
/// the scope.
pub fn stat_name(file_name: Option<String>, scope: &FsScope) -> (r: String)
    ensures
        r@ == (match file_name {
            Some(n) => n@,
            None => scope@.label,
        }),
{
    match file_name {
        Some(n) => n,
        None => scope.label.clone(),
    }
}

/// Checks the kind of digest that a plugin asks for.
pub fn check_algo(algo: &str) -> (r: Result<(), String>)
    ensures
        text::message_of(r) == (if text::same_nocase(algo@, "sha256"@) {
            None
        } else {
            Some("不支持的哈希算法「"@ + algo@ + "」，目前仅支持 sha256"@)
        }),
{
    let v = text::chars_of(algo);
    let want = text::chars_of("sha256");
    if text::eq_nocase(v.as_slice(), want.as_slice()) {
        Ok(())
    } else {
        Err(
            text::owned("不支持的哈希算法「").concat(algo).concat(
                "」，目前仅支持 sha256",
            ),
        )
    }
}

/// The digest of a file, in hexadecimal digits. `None` stands for something that is no file.
pub fn file_hash(bytes: Option<Vec<u8>>) -> (r: Result<String, String>)
    ensures
        text::outcome(r) == (match bytes {
            None => Err("目标不是文件"@),
            Some(b) => Ok(codec::hex_text(codec::sha256_of(b@))),
        }),
{
    match bytes {
        None => Err(text::owned("目标不是文件")),
        Some(b) => {
            let digest = codec::sha256(b.as_slice());
            Ok(codec::hex(digest.as_slice()))
        },
    }
}

/// The bytes of a file in base64. `None` stands for something that is no file. A page that
/// sends the text back to be written sends the same bytes.
pub fn file_base64(bytes: Option<Vec<u8>>) -> (r: Result<String, String>)
    ensures
        text::outcome(r) == (match bytes {
            None => Err("目标不是文件"@),
            Some(b) => Ok(codec::base64_text(b@)),
        }),
        bytes is Some ==> commands::sent_bytes(
            codec::base64_bytes(text::trimmed(r->Ok_0@)),
        ) == Ok::<Seq<u8>, Seq<char>>(bytes->0@),
{
    match bytes {
        None => Err(text::owned("目标不是文件")),
        Some(b) => {
            let s = codec::base64_encode(b.as_slice());
            proof {
                codec::base64_is_trimmed(b@);
            }
            Ok(s)
        },
    }
}

/// Checks how much of a file a plugin asks for.
pub fn check_chunk(len: u64) -> (r: Result<(), String>)
    ensures
        text::message_of(r) is None <==> may_read_at_once(len),
        text::message_of(r) == (if len == 0 {
            Some("len 必须大于 0"@)
        } else if len > MAX_CHUNK_LEN {
            Some("单次分块最大 16777216 字节，请拆成多次读取"@)
        } else {
            None
        }),
{
    if len == 0 {
        return Err(text::owned("len 必须大于 0"));
    }
    if len > MAX_CHUNK_LEN {
        return Err(text::owned("单次分块最大 16777216 字节，请拆成多次读取"));
    }
    Ok(())
}

// ---------------------------------------------------------------------------
// What holds of scopes
// ---------------------------------------------------------------------------

/// A scope is found by its id: the first one that has it, and never one of another id.
pub proof fn scopes_are_found_by_their_id(v: Seq<ScopeView>, id: Seq<char>, k: int)
    ensures
        find_scope(v, id) matches Some(s) ==> s.id == id && v.contains(s),
        0 <= k < v.len() && v[k].id == id && (forall|j: int|
            0 <= j < k ==> (#[trigger] v[j]).id != id) ==> find_scope(v, id) == Some(v[k]),
        (forall|j: int| 0 <= j < v.len() ==> (#[trigger] v[j]).id != id) ==> find_scope(v, id)
            is None,
    decreases v.len(),
{
    if v.len() > 0 && v[0].id != id {
        let t = v.drop_first();
        scopes_are_found_by_their_id(t, id, k - 1);
        if find_scope(t, id) is Some {
            let j = choose|j: int| 0 <= j < t.len() && t[j] == find_scope(t, id)->0;
            assert(v[j + 1] == t[j]);
        }
        if 0 < k < v.len() && v[k].id == id && (forall|j: int|
            0 <= j < k ==> (#[trigger] v[j]).id != id) {
            assert(t[k - 1] == v[k]);
            assert forall|j: int| 0 <= j < k - 1 implies (#[trigger] t[j]).id != id by {
                assert(t[j] == v[j + 1]);
            }
        }
        if forall|j: int| 0 <= j < v.len() ==> (#[trigger] v[j]).id != id {
            assert forall|j: int| 0 <= j < t.len() implies (#[trigger] t[j]).id != id by {
                assert(t[j] == v[j + 1]);
            }
        }
    } else if v.len() > 0 {
        assert(v[0] == find_scope(v, id)->0);
        if 0 < k < v.len() && (forall|j: int| 0 <= j < k ==> (#[trigger] v[j]).id != id) {
            assert(v[0].id != id);
        }
    }
}

/// Taking a scope back leaves every other one as it was.
pub proof fn other_scopes_stay(v: Seq<ScopeView>, id: Seq<char>, s: ScopeView)
    ensures
        s.id != id ==> (other_scopes(v, id).contains(s) <==> v.contains(s)),
        other_scopes(v, id).contains(s) ==> s.id != id,
        other_scopes(v, id).len() <= v.len(),
    decreases v.len(),
{
    if v.len() > 0 {
        let less = v.drop_last();
        other_scopes_stay(less, id, s);
        let all = other_scopes(v, id);
        let before = other_scopes(less, id);
        if v.contains(s) && s.id != id {
            let j = choose|j: int| 0 <= j < v.len() && v[j] == s;
            if j < less.len() {
                assert(less[j] == s);
                let k = choose|k: int| 0 <= k < before.len() && before[k] == s;
                assert(all[k] == s);
            } else {
                assert(all[before.len() as int] == s);
            }
        }
        if all.contains(s) {
            let k = choose|k: int| 0 <= k < all.len() && all[k] == s;
            if k < before.len() {
                assert(before[k] == s);
                assert(less.contains(s)) by {
                    if s.id != id {
                        assert(before.contains(s));
                    }
                }
                let j = choose|j: int| 0 <= j < less.len() && less[j] == s;
                assert(v[j] == s);
            } else {
                assert(v[v.len() - 1] == s);
            }
        }
    }
}

/// What lies in a scope and in no data directory of the host is reached.
pub proof fn paths_in_scope_are_reached(
    base: Seq<Seq<char>>,
    below: Seq<Seq<char>>,
    roots: Seq<Seq<Seq<char>>>,
)
    requires
        !path::any_covers(roots, base),
        !path::any_covers(roots, base + below),
    ensures
        existing_target(
            Ok::<Seq<Seq<char>>, Seq<char>>(base),
            Ok::<Seq<Seq<char>>, Seq<char>>(base + below),
            roots,
        ) == Ok::<Seq<Seq<char>>, Seq<char>>(base + below),
        extract_target(base, Ok::<Seq<Seq<char>>, Seq<char>>(base + below), roots) == Ok::<
            Seq<Seq<char>>,
            Seq<char>,
        >(base + below),
{
    path::directories_cover_what_lies_below(base, below, base, 0);
}

/// Archives are unpacked only in the scope and in no data directory of the host.
pub proof fn unpacked_archives_stay_in_scope(
    base: Seq<Seq<char>>,
    target: Result<Seq<Seq<char>>, Seq<char>>,
    roots: Seq<Seq<Seq<char>>>,
)
    requires
        extract_target(base, target, roots) is Ok,
    ensures
        target == extract_target(base, target, roots),
        path::covers(base, target->Ok_0),
        !path::any_covers(roots, target->Ok_0),
{
}

/// A file below a scope that is a directory is written under its own name, in the directory
/// that the system found for the pieces in front of it.
pub proof fn files_in_scope_are_written(
    scope: ScopeView,
    names: Seq<Seq<char>>,
    base: Seq<Seq<char>>,
    below: Seq<Seq<char>>,
    roots: Seq<Seq<Seq<char>>>,
)
    requires
        scope.kind != "file"@,
        names.len() > 0,
        forall|k: int| 0 <= k < names.len() ==> path::is_name(#[trigger] names[k]) && names[k]
            != ".."@,
        names[0].len() < 2 || names[0][1] != ':',
        !path::any_covers(roots, base),
        !path::any_covers(roots, base + below),
    ensures
        write_target(
            scope,
            text::joined(names, "/"@),
            Ok::<Seq<Seq<char>>, Seq<char>>(base),
            Some(Ok::<Seq<Seq<char>>, Seq<char>>(base + below)),
            roots,
        ) == Ok::<Seq<Seq<char>>, Seq<char>>((base + below).push(names.last())),
        relative_in_scope(text::joined(names, "/"@)) == Ok::<Seq<Seq<char>>, Seq<char>>(names),
{
    path::paths_are_made_of_names(names);
    path::plain_paths_are_made_of_names(names, Seq::empty());
    path::directories_cover_what_lies_below(base, below, base, 0);
    commands::sandbox_paths_are_kept(names, Seq::empty());
}

/// A path is shown without the mark for extended lengths, and a share as one; any other path
/// is shown as it is.
pub proof fn shown_paths_have_no_mark(p: Seq<char>)
    ensures
        !"UNC\\"@.is_prefix_of(p) ==> shown_path("\\\\?\\"@ + p) == p,
        shown_path("\\\\?\\UNC\\"@ + p) == "\\\\"@ + p,
        !"\\\\?\\"@.is_prefix_of(p) ==> shown_path(p) == p,
{
    reveal_strlit("UNC\\");
    reveal_strlit("\\\\?\\");
    reveal_strlit("\\\\?\\UNC\\");
    let mark = "\\\\?\\"@;
    let unc = "\\\\?\\UNC\\"@;
    let a = mark + p;
    let b = unc + p;
    assert(a.subrange(0, 4) =~= mark);
    assert(a.skip(4) =~= p);
    assert(b.subrange(0, 8) =~= unc);
    assert(b.skip(8) =~= p);
    if unc.is_prefix_of(a) {
        assert(p.subrange(0, 4) =~= "UNC\\"@) by {
            assert(a.subrange(0, 8) =~= unc);
            assert forall|i: int| 0 <= i < 4 implies p.subrange(0, 4)[i] == "UNC\\"@[i] by {
                assert(a.subrange(0, 8)[i + 4] == unc[i + 4]);
            }
        }
    }
    if unc.is_prefix_of(p) {
        assert(p.subrange(0, 4) =~= mark) by {
            assert(p.subrange(0, 8) =~= unc);
            assert forall|i: int| 0 <= i < 4 implies p.subrange(0, 4)[i] == mark[i] by {
                assert(p.subrange(0, 8)[i] == unc[i]);
            }
        }
    }
}

/// Ids are made from different bytes where the time, the running number, the process or the
/// address differ.
pub proof fn different_ids_have_different_seeds(
    a: (u128, u64, u32, u64),
    b: (u128, u64, u32, u64),
)
    requires
        id_seed(a.0, a.1, a.2, a.3) == id_seed(b.0, b.1, b.2, b.3),
    ensures
        a == b,
{
    let s = id_seed(a.0, a.1, a.2, a.3);
    let t = id_seed(b.0, b.1, b.2, b.3);
    lemma_seed(a.0, a.1, a.2, a.3);
    lemma_seed(b.0, b.1, b.2, b.3);
}

proof fn lemma_seed(nanos: u128, n: u64, pid: u32, addr: u64)
    ensures
        ({
            let s = id_seed(nanos, n, pid, addr);
            &&& codec::le_value(s.subrange(0, 16)) == nanos
            &&& codec::le_value(s.subrange(16, 24)) == n
            &&& codec::le_value(s.subrange(24, 28)) == pid
            &&& codec::le_value(s.subrange(28, 36)) == addr
        }),
{
    let s = id_seed(nanos, n, pid, addr);
    codec::le_bytes_read_back(nanos as nat, 16);
    codec::le_bytes_read_back(n as nat, 8);
    codec::le_bytes_read_back(pid as nat, 4);
    codec::le_bytes_read_back(addr as nat, 8);
    assert(s.subrange(0, 16) =~= codec::le_bytes(nanos as nat, 16));
    assert(s.subrange(16, 24) =~= codec::le_bytes(n as nat, 8));
    assert(s.subrange(24, 28) =~= codec::le_bytes(pid as nat, 4));
    assert(s.subrange(28, 36) =~= codec::le_bytes(addr as nat, 8));
    assert(vstd::arithmetic::power::pow(256, 4) == 0x1_0000_0000) by {
        reveal_with_fuel(vstd::arithmetic::power::pow, 5);
    }
    assert(vstd::arithmetic::power::pow(256, 8) == 0x1_0000_0000_0000_0000int) by {
        reveal_with_fuel(vstd::arithmetic::power::pow, 9);
    }
    assert(vstd::arithmetic::power::pow(256, 16)
        == 0x1_0000_0000_0000_0000_0000_0000_0000_0000int) by {
        reveal_with_fuel(vstd::arithmetic::power::pow, 17);
    }
    vstd::arithmetic::div_mod::lemma_small_mod(
        nanos as nat,
        0x1_0000_0000_0000_0000_0000_0000_0000_0000nat,
    );
    vstd::arithmetic::div_mod::lemma_small_mod(n as nat, 0x1_0000_0000_0000_0000nat);
    vstd::arithmetic::div_mod::lemma_small_mod(pid as nat, 0x1_0000_0000);
    vstd::arithmetic::div_mod::lemma_small_mod(addr as nat, 0x1_0000_0000_0000_0000nat);
}

/// Whether so many bytes of a file may be read at once.
pub open spec fn may_read_at_once(len: u64) -> bool {
    0 < len <= MAX_CHUNK_LEN
}

/// The pieces of a path in a scope that must exist already, or what is wrong with it.
pub open spec fn existing_plan(kind: Seq<char>, sub: Seq<char>) -> Result<
    Seq<Seq<char>>,
    Seq<char>,
> {
    if kind == "file"@ && sub.len() > 0 {
        Err("该 scope 是单个文件，路径参数需留空（直接指向这个文件）"@)
    } else {
        relative_in_scope(sub)
    }
}

/// Whether an archive may be unpacked to a path in a scope.
pub open spec fn may_extract(kind: Seq<char>, sub: Seq<char>) -> bool {
    kind != "file"@ && sub.len() > 0 && relative_in_scope(sub) is Ok
}

/// Whether what was found in a scope may be listed.
pub open spec fn may_list(kind: Seq<char>, found_dir: Option<bool>) -> bool {
    kind == "dir"@ && found_dir != Some(false)
}

/// Up to 16 MB of a file are read at once.
pub proof fn sixteen_megabytes_are_read_at_once(len: u64)
    ensures
        may_read_at_once(len) <==> 1 <= len && len <= 16 * 1024 * 1024,
{
}

/// A scope that is a file gives that file alone: nothing is reached through it by a path, no
/// archive is unpacked to it, and it is not listed. A directory gives what lies below it.
pub proof fn file_scopes_give_the_file_alone(sub: Seq<char>, names: Seq<Seq<char>>)
    requires
        sub.len() > 0,
        names.len() > 0,
        forall|k: int| 0 <= k < names.len() ==> path::is_name(#[trigger] names[k]) && names[k]
            != ".."@,
        names[0].len() < 2 || names[0][1] != ':',
    ensures
        existing_plan("file"@, sub) is Err,
        existing_plan("file"@, Seq::empty()) == Ok::<Seq<Seq<char>>, Seq<char>>(Seq::empty()),
        existing_plan("dir"@, text::joined(names, "/"@)) == Ok::<Seq<Seq<char>>, Seq<char>>(
            names,
        ),
        !may_extract("file"@, sub),
        !may_extract("dir"@, Seq::empty()),
        may_extract("dir"@, text::joined(names, "/"@)),
        !may_list("file"@, None),
        may_list("dir"@, Some(true)),
        !may_list("dir"@, Some(false)),
{
    reveal_strlit("file");
    reveal_strlit("dir");
    assert("file"@.len() == 4 && "dir"@.len() == 3);
    path::paths_are_made_of_names(names);
    path::plain_paths_are_made_of_names(names, Seq::empty());
    commands::sandbox_paths_are_kept(names, Seq::empty());
    text::lemma_pieces_one(Seq::empty(), '/');
    assert(text::replaced(Seq::empty(), '\\', '/') =~= Seq::<char>::empty());
    let e = seq![Seq::<char>::empty()];
    assert(e.drop_last() =~= Seq::<Seq<char>>::empty());
    assert(e.last().len() == 0);
    assert(path::named_pieces(e.drop_last()) =~= Seq::<Seq<char>>::empty());
    assert(path::named_pieces(e) =~= Seq::<Seq<char>>::empty());
    assert(path::parts(Seq::empty()) =~= Seq::<Seq<char>>::empty());
}

/// What the user picks is opened where it is of the kind that was asked for and lies in none of
/// the directories of the program; a directory of its own, and all below it, is never opened.
pub proof fn picked_paths_are_opened(
    is_dir: bool,
    p: Picked,
    roots: Seq<Seq<Seq<char>>>,
    k: int,
    below: Seq<Seq<char>>,
)
    requires
        0 <= k < roots.len(),
    ensures
        !p.of_kind ==> pick_error(is_dir, p, roots) is Some,
        text::texts(p.pieces@) == roots[k] + below ==> pick_error(is_dir, p, roots) is Some,
        p.of_kind && roots.len() == 1 && roots[0].len() > text::texts(p.pieces@).len()
            ==> pick_error(is_dir, p, roots) is None,
        p.of_kind && pick_error(is_dir, p, roots) is Some ==> exists|j: int|
            0 <= j < roots.len() && #[trigger] roots[j].len() <= text::texts(p.pieces@).len()
                && text::texts(p.pieces@).take(roots[j].len() as int) == roots[j],
{
    let all = text::texts(p.pieces@);
    if all == roots[k] + below {
        assert(all.subrange(0, roots[k].len() as int) =~= roots[k]);
        assert(path::covers(roots[k], all));
    }
    if p.of_kind && pick_error(is_dir, p, roots) is Some {
        let j = choose|j: int| 0 <= j < roots.len() && #[trigger] path::covers(roots[j], all);
        assert(roots[j].len() <= all.len() && all.take(roots[j].len() as int) =~= roots[j]);
    }
}

/// A scope that is one file is written as that file, and nothing else in it is; one that is a
/// directory is never written as a file.
pub proof fn file_scopes_are_written_as_the_file(
    scope: ScopeView,
    sub: Seq<char>,
    base: Seq<Seq<char>>,
    parent: Option<Result<Seq<Seq<char>>, Seq<char>>>,
    roots: Seq<Seq<Seq<char>>>,
)
    requires
        !path::any_covers(roots, base),
    ensures
        ({
            let ok = Ok::<Seq<Seq<char>>, Seq<char>>(base);
            &&& scope.kind == "file"@ ==> write_target(scope, Seq::empty(), ok, parent, roots) == ok
            &&& scope.kind == "file"@ && sub.len() > 0 ==> write_target(
                scope,
                sub,
                ok,
                parent,
                roots,
            ) is Err
            &&& scope.kind != "file"@ ==> write_target(
                scope,
                Seq::empty(),
                ok,
                parent,
                roots,
            ) is Err
        }),
{
}

} // verus!
