//! Where a plugin comes from: repository addresses and market identities.

use crate::text;
use vstd::prelude::*;
use vstd::slice::slice_subrange;

verus! {

broadcast use vstd::seq_lib::group_seq_properties;

/// The style of a hosting site: it decides how archive and raw links are built.
#[derive(Clone, Copy, PartialEq, Eq, Debug, Structural)]
pub enum Forge {
    Gitee,
    GitHub,
    /// The plugin market: packages come whole from its endpoint, no repository links exist.
    Market,
}

/// The `host` value of a source that comes from the market.
pub const MARKET_HOST: &'static str = "market";

/// The address prefix of a market source: a stable identity, not a reachable address.
pub const MARKET_SCHEME: &'static str = "itools-market://";

/// The install source of one plugin.
#[derive(Debug)]
pub struct GitSource {
    /// Style of the hosting site (`gitee`, `github` or `market`), not its domain.
    pub host: String,
    /// The real domain; empty in records written before the field existed.
    pub domain: String,
    pub owner: String,
    pub repo: String,
    /// Directory inside the repository, empty for its root.
    pub sub_path: String,
    /// Branch, tag or full commit id; empty to follow the default branch.
    pub revision: String,
    /// The normalised install address; it can be installed again as it stands.
    pub url: String,
    /// The repository's web page.
    pub page_url: String,
}

/// The mathematical content of a [`GitSource`].
#[verifier::ext_equal]
pub struct SourceView {
    pub host: Seq<char>,
    pub domain: Seq<char>,
    pub owner: Seq<char>,
    pub repo: Seq<char>,
    pub sub_path: Seq<char>,
    pub revision: Seq<char>,
    pub url: Seq<char>,
    pub page_url: Seq<char>,
}

impl View for GitSource {
    type V = SourceView;

    open spec fn view(&self) -> SourceView {
        SourceView {
            host: self.host@,
            domain: self.domain@,
            owner: self.owner@,
            repo: self.repo@,
            sub_path: self.sub_path@,
            revision: self.revision@,
            url: self.url@,
            page_url: self.page_url@,
        }
    }
}

impl Clone for GitSource {
    fn clone(&self) -> (r: Self)
        ensures
            r@ == self@,
    {
        GitSource {
            host: self.host.clone(),
            domain: self.domain.clone(),
            owner: self.owner.clone(),
            repo: self.repo.clone(),
            sub_path: self.sub_path.clone(),
            revision: self.revision.clone(),
            url: self.url.clone(),
            page_url: self.page_url.clone(),
        }
    }
}

impl Forge {
    pub open spec fn name(self) -> Seq<char> {
        match self {
            Forge::Gitee => "gitee"@,
            Forge::GitHub => "github"@,
            Forge::Market => MARKET_HOST@,
        }
    }

    pub fn as_str(self) -> (r: &'static str)
        ensures
            r@ == self.name(),
    {
        match self {
            Forge::Gitee => "gitee",
            Forge::GitHub => "github",
            Forge::Market => MARKET_HOST,
        }
    }
}

/// The views of a list of allowed hosts.
pub open spec fn host_views(v: Seq<(String, Forge)>) -> Seq<(Seq<char>, Forge)> {
    v.map_values(|x: (String, Forge)| (x.0@, x.1))
}

// ---------------------------------------------------------------------------
// Names, revisions, sub paths
// ---------------------------------------------------------------------------

/// The characters of owners, repositories and directory names.
pub open spec fn ident_char(c: char) -> bool {
    text::is_alnum(c) || c == '.' || c == '_' || c == '-'
}

pub open spec fn all_dots(s: Seq<char>) -> bool {
    forall|i: int| 0 <= i < s.len() ==> s[i] == '.'
}

pub open spec fn all_ident(s: Seq<char>) -> bool {
    forall|i: int| 0 <= i < s.len() ==> ident_char(#[trigger] s[i])
}

/// What is wrong with an owner or repository name.
pub open spec fn ident_error(s: Seq<char>, what: Seq<char>) -> Option<Seq<char>> {
    if all_dots(s) {
        Some("非法的"@ + what + "："@ + s)
    } else if !all_ident(s) {
        Some(what + "含非法字符："@ + s)
    } else {
        None
    }
}

pub open spec fn revision_char(c: char) -> bool {
    ident_char(c) || c == '/'
}

/// What is wrong with a revision.
pub open spec fn revision_error(r: Seq<char>) -> Option<Seq<char>> {
    if r.len() == 0 {
        None
    } else if text::occurs(r, ".."@) {
        Some("revision 不允许包含 .."@)
    } else if r[0] == '/' || r.last() == '/' || r[0] == '-' {
        Some("非法的 revision："@ + r)
    } else if !(forall|i: int| 0 <= i < r.len() ==> revision_char(#[trigger] r[i])) {
        Some("revision 含非法字符："@ + r)
    } else {
        None
    }
}

/// The directory names of a sub path, or what is wrong with it.
pub open spec fn clean_segments(v: Seq<Seq<char>>) -> Result<Seq<Seq<char>>, Seq<char>>
    decreases v.len(),
{
    if v.len() == 0 {
        Ok(Seq::empty())
    } else {
        let seg = v.last();
        match clean_segments(v.drop_last()) {
            Err(e) => Err(e),
            Ok(segs) => if seg.len() == 0 || seg == "."@ {
                Ok(segs)
            } else if all_dots(seg) {
                Err("?path= 不允许包含上跳路径（..）"@)
            } else if !all_ident(seg) {
                Err(
                    "?path= 的子目录名「"@ + seg
                        + "」含非法字符：只允许字母、数字与 . _ -（盘符、? # 与空白一律拒绝）"@,
                )
            } else {
                Ok(segs.push(seg))
            },
        }
    }
}

/// The normalised value of a `path` parameter, or what is wrong with it.
pub open spec fn sub_path_of(v: Seq<char>) -> Result<Seq<char>, Seq<char>> {
    let t = text::trimmed(v);
    if t.contains('\\') {
        Err("?path= 请用正斜杠 / 分隔"@)
    } else {
        match clean_segments(text::pieces(t, '/')) {
            Ok(segs) => Ok(text::joined(segs, "/"@)),
            Err(e) => Err(e),
        }
    }
}

pub open spec fn plugin_name_char(c: char) -> bool {
    ('a' <= c <= 'z') || text::is_digit(c) || c == '.' || c == '_' || c == '-'
}

/// Plugin names: 1 to 64 of `a-z 0-9 . _ -`, the first a letter or a digit.
pub open spec fn valid_plugin_name(s: Seq<char>) -> bool {
    &&& 1 <= s.len() <= 64
    &&& ('a' <= s[0] <= 'z') || text::is_digit(s[0])
    &&& forall|i: int| 0 <= i < s.len() ==> plugin_name_char(#[trigger] s[i])
}

pub fn dots_only(s: &[char]) -> (r: bool)
    ensures
        r == all_dots(s@),
{
    let mut i: usize = 0;
    while i < s.len()
        invariant
            i <= s@.len(),
            forall|j: int| 0 <= j < i ==> s@[j] == '.',
        decreases s@.len() - i,
    {
        if s[i] != '.' {
            return false;
        }
        i += 1;
    }
    true
}

fn ident_only(s: &[char]) -> (r: bool)
    ensures
        r == all_ident(s@),
{
    let mut i: usize = 0;
    while i < s.len()
        invariant
            i <= s@.len(),
            forall|j: int| 0 <= j < i ==> ident_char(#[trigger] s@[j]),
        decreases s@.len() - i,
    {
        let c = s[i];
        if !(text::char_is_alnum(c) || c == '.' || c == '_' || c == '-') {
            assert(!ident_char(s@[i as int]));
            return false;
        }
        i += 1;
    }
    true
}

/// Checks an owner or repository name; `what` names it in the message.
pub fn check_ident(s: &str, what: &str) -> (r: Result<(), String>)
    ensures
        text::message_of(r) == ident_error(s@, what@),
{
    let v = text::chars_of(s);
    if dots_only(v.as_slice()) {
        return Err(text::owned("非法的").concat(what).concat("：").concat(s));
    }
    if !ident_only(v.as_slice()) {
        return Err(text::owned(what).concat("含非法字符：").concat(s));
    }
    Ok(())
}

/// Checks a revision: branch names may hold `/`, never `..` or characters that break an address.
pub fn check_revision(rev: &str) -> (r: Result<(), String>)
    ensures
        text::message_of(r) == revision_error(rev@),
{
    let v = text::chars_of(rev);
    if v.len() == 0 {
        return Ok(());
    }
    if text::contains_str(v.as_slice(), "..") {
        return Err(text::owned("revision 不允许包含 .."));
    }
    if v[0] == '/' || v[v.len() - 1] == '/' || v[0] == '-' {
        return Err(text::owned("非法的 revision：").concat(rev));
    }
    let mut i: usize = 0;
    while i < v.len()
        invariant
            i <= v@.len(),
            v@ == rev@,
            v@.len() > 0,
            !text::occurs(rev@, ".."@),
            !(v@[0] == '/' || v@.last() == '/' || v@[0] == '-'),
            forall|j: int| 0 <= j < i ==> revision_char(#[trigger] v@[j]),
        decreases v@.len() - i,
    {
        let c = v[i];
        if !(text::char_is_alnum(c) || c == '.' || c == '_' || c == '-' || c == '/') {
            assert(!revision_char(v@[i as int]));
            return Err(text::owned("revision 含非法字符：").concat(rev));
        }
        i += 1;
    }
    Ok(())
}

/// Normalises a `path` value: outer and doubled slashes go, upward steps are refused.
pub fn normalize_sub_path(v: &str) -> (r: Result<String, String>)
    ensures
        text::outcome(r) == sub_path_of(v@),
{
    let t = text::trim_str(v);
    if text::contains_char(t.as_slice(), '\\') {
        return Err(text::owned("?path= 请用正斜杠 / 分隔"));
    }
    let parts = text::split(t.as_slice(), '/');
    let mut segs: Vec<Vec<char>> = Vec::new();
    let mut i: usize = 0;
    let ghost all = text::views(parts@);
    assert(all.take(0) == Seq::<Seq<char>>::empty());
    assert(text::views(segs@) == Seq::<Seq<char>>::empty());
    while i < parts.len()
        invariant
            i <= parts@.len(),
            all == text::views(parts@),
            all == text::pieces(text::trimmed(v@), '/'),
            !text::trimmed(v@).contains('\\'),
            clean_segments(all.take(i as int)) == Ok::<Seq<Seq<char>>, Seq<char>>(text::views(segs@)),
        decreases parts@.len() - i,
    {
        assert(all.take(i + 1).drop_last() == all.take(i as int));
        assert(all.take(i + 1).last() == parts@[i as int]@);
        let seg = parts[i].as_slice();
        if seg.len() == 0 || text::same(seg, ".") {
            i += 1;
            continue ;
        }
        if dots_only(seg) {
            proof {
                lemma_clean_prefix_error(all, i + 1);
            }
            return Err(text::owned("?path= 不允许包含上跳路径（..）"));
        }
        if !ident_only(seg) {
            proof {
                lemma_clean_prefix_error(all, i + 1);
            }
            let name = text::string_of(seg);
            return Err(
                text::owned("?path= 的子目录名「").concat(name.as_str()).concat(
                    "」含非法字符：只允许字母、数字与 . _ -（盘符、? # 与空白一律拒绝）",
                ),
            );
        }
        let ghost before = segs@;
        segs.push(text::to_vec(seg));
        assert(text::views(segs@) == text::views(before).push(seg@));
        i += 1;
    }
    assert(all.take(i as int) == all);
    let out = text::join(&segs, "/");
    Ok(text::string_of(out.as_slice()))
}

/// An error in a prefix of the segments is the error of them all.
proof fn lemma_clean_prefix_error(v: Seq<Seq<char>>, k: int)
    requires
        0 <= k <= v.len(),
        clean_segments(v.take(k)) is Err,
    ensures
        clean_segments(v) == clean_segments(v.take(k)),
    decreases v.len() - k,
{
    if k < v.len() {
        assert(v.take(k + 1).drop_last() == v.take(k));
        lemma_clean_prefix_error(v, k + 1);
    } else {
        assert(v.take(k) == v);
    }
}

/// Whether a name can be a plugin's, see [`valid_plugin_name`].
pub fn is_valid_plugin_name(name: &str) -> (r: bool)
    ensures
        r == valid_plugin_name(name@),
{
    let v = text::chars_of(name);
    if v.len() == 0 || v.len() > 64 {
        return false;
    }
    let c0 = v[0];
    if !(('a' <= c0 && c0 <= 'z') || ('0' <= c0 && c0 <= '9')) {
        return false;
    }
    let mut i: usize = 0;
    while i < v.len()
        invariant
            i <= v@.len(),
            v@ == name@,
            forall|j: int| 0 <= j < i ==> plugin_name_char(#[trigger] v@[j]),
        decreases v@.len() - i,
    {
        let c = v[i];
        if !(('a' <= c && c <= 'z') || ('0' <= c && c <= '9') || c == '.' || c == '_' || c
            == '-') {
            assert(!plugin_name_char(v@[i as int]));
            return false;
        }
        i += 1;
    }
    true
}

/// Whether a revision is a full commit id: 40 hexadecimal digits.
pub open spec fn pinned(revision: Seq<char>) -> bool {
    revision.len() == 40 && forall|i: int|
        0 <= i < revision.len() ==> text::is_hex(#[trigger] revision[i])
}

pub fn is_pinned(revision: &str) -> (r: bool)
    ensures
        r == pinned(revision@),
{
    let v = text::chars_of(revision);
    if v.len() != 40 {
        return false;
    }
    let mut i: usize = 0;
    while i < v.len()
        invariant
            i <= v@.len(),
            v@ == revision@,
            forall|j: int| 0 <= j < i ==> text::is_hex(#[trigger] v@[j]),
        decreases v@.len() - i,
    {
        if !text::char_is_hex(v[i]) {
            assert(!text::is_hex(v@[i as int]));
            return false;
        }
        i += 1;
    }
    true
}

// ---------------------------------------------------------------------------
// Allowed hosts
// ---------------------------------------------------------------------------

/// The host and style that one item of the extra host list names.
///
/// An item is `host` (built like gitee) or `host=github` (built like github).
pub open spec fn host_item(item: Seq<char>) -> Option<(Seq<char>, Forge)> {
    let t = text::trimmed(item);
    let (h, forge) = match text::cut_char(t, '=') {
        Some((h, f)) => (
            text::trimmed(h),
            if text::same_nocase(text::trimmed(f), "github"@) {
                Forge::GitHub
            } else {
                Forge::Gitee
            },
        ),
        None => (t, Forge::Gitee),
    };
    let host = text::lowered(text::stripped_starts(h, "www."@));
    if t.len() == 0 || host.len() == 0 {
        None
    } else {
        Some((host, forge))
    }
}

/// Whether a host is in the list.
pub open spec fn has_host(hosts: Seq<(Seq<char>, Forge)>, host: Seq<char>) -> bool {
    exists|i: int| 0 <= i < hosts.len() && (#[trigger] hosts[i]).0 == host
}

/// The list after the items were added in order; a host already present keeps its style.
pub open spec fn with_hosts(hosts: Seq<(Seq<char>, Forge)>, items: Seq<Seq<char>>) -> Seq<
    (Seq<char>, Forge),
>
    decreases items.len(),
{
    if items.len() == 0 {
        hosts
    } else {
        let before = with_hosts(hosts, items.drop_last());
        match host_item(items.last()) {
            Some(h) => if has_host(before, h.0) {
                before
            } else {
                before.push(h)
            },
            None => before,
        }
    }
}

/// The hosts that are allowed without any setting.
pub open spec fn default_hosts() -> Seq<(Seq<char>, Forge)> {
    seq![("github.com"@, Forge::GitHub), ("gitee.com"@, Forge::Gitee)]
}

/// The allowed hosts, given the comma separated list of extra ones.
pub open spec fn hosts_of(extra: Option<Seq<char>>) -> Seq<(Seq<char>, Forge)> {
    match extra {
        Some(e) => with_hosts(default_hosts(), text::pieces(e, ',')),
        None => default_hosts(),
    }
}

/// The style of a host: that of its first entry in the list.
pub open spec fn forge_of(hosts: Seq<(Seq<char>, Forge)>, host: Seq<char>) -> Option<Forge>
    decreases hosts.len(),
{
    if hosts.len() == 0 {
        None
    } else if hosts[0].0 == host {
        Some(hosts[0].1)
    } else {
        forge_of(hosts.drop_first(), host)
    }
}

fn parse_host_item(item: &[char]) -> (r: Option<(String, Forge)>)
    ensures
        match (r, host_item(item@)) {
            (Some(a), Some(b)) => a.0@ == b.0 && a.1 == b.1,
            (None, None) => true,
            _ => false,
        },
{
    proof {
        reveal_strlit("www.");
    }
    let t = text::trim(item);
    if t.len() == 0 {
        return None;
    }
    let github = text::chars_of("github");
    let (h, forge) = match text::split_once_char(t, '=') {
        Some((h, f)) => (
            text::trim(h),
            if text::eq_nocase(text::trim(f), github.as_slice()) {
                Forge::GitHub
            } else {
                Forge::Gitee
            },
        ),
        None => (t, Forge::Gitee),
    };
    let host = text::to_lower(text::strip_starts(h, "www."));
    if host.len() == 0 {
        None
    } else {
        Some((text::string_of(host.as_slice()), forge))
    }
}

/// Looks a host up in the list of allowed ones.
fn find_host(hosts: &[(String, Forge)], host: &str) -> (r: Option<Forge>)
    ensures
        r == forge_of(host_views(hosts@), host@),
        r is Some <==> has_host(host_views(hosts@), host@),
{
    let ghost all = host_views(hosts@);
    let mut i: usize = 0;
    assert(all.skip(0) == all);
    while i < hosts.len()
        invariant
            i <= hosts@.len(),
            all == host_views(hosts@),
            forge_of(all, host@) == forge_of(all.skip(i as int), host@),
            forall|j: int| 0 <= j < i ==> (#[trigger] all[j]).0 != host@,
        decreases hosts@.len() - i,
    {
        assert(all.skip(i as int).drop_first() == all.skip(i + 1));
        assert(all[i as int] == (hosts@[i as int].0@, hosts@[i as int].1));
        if text::str_eq(hosts[i].0.as_str(), host) {
            return Some(hosts[i].1);
        }
        i += 1;
    }
    None
}

/// Whether a host is in the list of allowed ones.
pub fn is_allowed(hosts: &[(String, Forge)], host: &str) -> (r: bool)
    ensures
        r == has_host(host_views(hosts@), host@),
{
    find_host(hosts, host).is_some()
}

/// The allowed hosts. `extra` is the value of the setting that adds hosts, where it is set.
pub fn allowed_hosts(extra: Option<&str>) -> (r: Vec<(String, Forge)>)
    ensures
        host_views(r@) == hosts_of(text::opt_str(extra)),
{
    let mut out: Vec<(String, Forge)> = Vec::new();
    out.push((text::owned("github.com"), Forge::GitHub));
    out.push((text::owned("gitee.com"), Forge::Gitee));
    assert(host_views(out@) == default_hosts());
    if let Some(e) = extra {
        let v = text::chars_of(e);
        let items = text::split(v.as_slice(), ',');
        let ghost all = text::views(items@);
        let mut i: usize = 0;
        assert(all.take(0) == Seq::<Seq<char>>::empty());
        while i < items.len()
            invariant
                i <= items@.len(),
                all == text::views(items@),
                host_views(out@) == with_hosts(default_hosts(), all.take(i as int)),
            decreases items@.len() - i,
        {
            assert(all.take(i + 1).drop_last() == all.take(i as int));
            assert(all.take(i + 1).last() == items@[i as int]@);
            if let Some((host, forge)) = parse_host_item(items[i].as_slice()) {
                if find_host(out.as_slice(), host.as_str()).is_none() {
                    let ghost before = out@;
                    out.push((host, forge));
                    assert(host_views(out@) == host_views(before).push((host@, forge)));
                }
            }
            i += 1;
        }
        assert(all.take(i as int) == all);
    }
    out
}

// ---------------------------------------------------------------------------
// Addresses
// ---------------------------------------------------------------------------

/// The source that stands for a plugin of the market, given the rest of its address.
pub open spec fn market_parsed(rest: Seq<char>) -> Result<SourceView, Seq<char>> {
    let name = text::trimmed_end(text::trimmed(rest), |c: char| c == '/');
    if !valid_plugin_name(name) {
        Err("市场来源里的插件名「"@ + name + "」不合法"@)
    } else {
        Ok(
            SourceView {
                host: MARKET_HOST@,
                domain: Seq::empty(),
                owner: Seq::empty(),
                repo: name,
                sub_path: Seq::empty(),
                revision: Seq::empty(),
                url: MARKET_SCHEME@ + name,
                page_url: Seq::empty(),
            },
        )
    }
}

/// The sub path that a query gives: the value of its last `path` parameter.
pub open spec fn query_path(pairs: Seq<Seq<char>>) -> Result<Seq<char>, Seq<char>>
    decreases pairs.len(),
{
    if pairs.len() == 0 {
        Ok(Seq::empty())
    } else {
        match query_path(pairs.drop_last()) {
            Err(e) => Err(e),
            Ok(_) => {
                let (k, v) = match text::cut_char(pairs.last(), '=') {
                    Some(kv) => kv,
                    None => (pairs.last(), Seq::empty()),
                };
                if k != "path"@ {
                    Err("不认识的参数 "@ + k + "，仅支持 ?path=/仓库内/子目录"@)
                } else {
                    sub_path_of(v)
                }
            },
        }
    }
}

/// `s` without the suffix, where it has it.
pub open spec fn without_suffix(s: Seq<char>, suffix: Seq<char>) -> Seq<char> {
    if suffix.is_suffix_of(s) {
        s.take(s.len() - suffix.len())
    } else {
        s
    }
}

/// The normalised address of a repository source.
pub open spec fn canonical_url(
    host: Seq<char>,
    owner: Seq<char>,
    repo: Seq<char>,
    sub: Seq<char>,
    revision: Seq<char>,
) -> Seq<char> {
    let base = "https://"@ + host + "/"@ + owner + "/"@ + repo + ".git"@;
    let with_path = if sub.len() == 0 {
        base
    } else {
        base + "?path=/"@ + sub
    };
    if revision.len() == 0 {
        with_path
    } else {
        with_path + "#"@ + revision
    }
}

/// The source that a repository address stands for.
pub open spec fn repo_view(
    host: Seq<char>,
    forge: Forge,
    owner: Seq<char>,
    repo: Seq<char>,
    sub: Seq<char>,
    revision: Seq<char>,
) -> SourceView {
    SourceView {
        host: forge.name(),
        domain: host,
        owner,
        repo,
        sub_path: sub,
        revision,
        url: canonical_url(host, owner, repo, sub, revision),
        page_url: "https://"@ + host + "/"@ + owner + "/"@ + repo,
    }
}

/// The names of the allowed hosts.
pub open spec fn host_names(hosts: Seq<(Seq<char>, Forge)>) -> Seq<Seq<char>> {
    hosts.map_values(|h: (Seq<char>, Forge)| h.0)
}

/// What is said of a host that is not allowed.
pub open spec fn host_refused(hosts: Seq<(Seq<char>, Forge)>, host: Seq<char>) -> Seq<char> {
    "不允许的仓库来源："@ + host + "。当前只放行 "@ + text::joined(host_names(hosts), "、"@)
        + "（可用环境变量 ITOOLS_PLUGIN_HOSTS 追加）"@
}

/// The parts of a repository address after its scheme: path, query and revision.
pub open spec fn address_parts(rest: Seq<char>) -> (Seq<char>, Seq<char>, Seq<char>) {
    let (head, revision) = match text::cut_char(rest, '#') {
        Some((a, b)) => (a, text::trimmed(b)),
        None => (rest, Seq::empty()),
    };
    let (path, query) = match text::cut_char(head, '?') {
        Some(pq) => pq,
        None => (head, Seq::empty()),
    };
    (path, query, revision)
}

/// The source that a list of path segments with a query and a revision stands for.
pub open spec fn segments_parsed(
    segs: Seq<Seq<char>>,
    query: Seq<char>,
    revision: Seq<char>,
    hosts: Seq<(Seq<char>, Forge)>,
) -> Result<SourceView, Seq<char>> {
    if segs.len() == 0 {
        Err("地址缺少域名"@)
    } else {
        let host = text::stripped_starts(text::lowered(segs[0]), "www."@);
        let owner = if segs.len() > 1 {
            segs[1]
        } else {
            Seq::empty()
        };
        let repo = if segs.len() > 2 {
            without_suffix(segs[2], ".git"@)
        } else {
            Seq::empty()
        };
        if host.contains(':') {
            Err("仓库地址不支持指定端口"@)
        } else if forge_of(hosts, host) is None {
            Err(host_refused(hosts, host))
        } else if owner.len() == 0 || repo.len() == 0 {
            Err("仓库地址应形如 https://github.com/用户名/仓库名.git"@)
        } else if segs.len() > 3 {
            Err(
                "仓库地址只应包含「用户名/仓库名」两段；仓库内子目录请用 ?path=/子/目录 指定"@,
            )
        } else if ident_error(owner, "用户名"@) is Some {
            Err(ident_error(owner, "用户名"@)->0)
        } else if ident_error(repo, "仓库名"@) is Some {
            Err(ident_error(repo, "仓库名"@)->0)
        } else {
            match query_path(text::nonempty(text::pieces(query, '&'))) {
                Err(e) => Err(e),
                Ok(sub) => match revision_error(revision) {
                    Some(e) => Err(e),
                    None => Ok(
                        repo_view(host, forge_of(hosts, host)->0, owner, repo, sub, revision),
                    ),
                },
            }
        }
    }
}

/// The source that an address stands for, given the allowed hosts, or what is wrong with it.
pub open spec fn parsed(input: Seq<char>, hosts: Seq<(Seq<char>, Forge)>) -> Result<
    SourceView,
    Seq<char>,
> {
    let raw = text::trimmed(input);
    let lower = text::lowered(raw);
    if raw.len() == 0 {
        Err("请输入插件仓库地址"@)
    } else if MARKET_SCHEME@.is_prefix_of(raw) {
        market_parsed(raw.skip(MARKET_SCHEME@.len() as int))
    } else if "git@"@.is_prefix_of(lower) || "ssh://"@.is_prefix_of(lower) {
        Err(
            "暂不支持 SSH 形式（git@… / ssh://…）：通过 https 下载归档安装，不依赖本机 git。请改用 https:// 开头的仓库地址（如 https://github.com/用户名/仓库名.git）"@,
        )
    } else if "file://"@.is_prefix_of(lower) {
        Err("不支持 file:// 本地路径安装，请使用 https:// 的仓库地址"@)
    } else {
        match text::cut(raw, "://"@) {
            None => Err("地址应以 https:// 开头，例如 https://github.com/用户名/仓库名.git"@),
            Some((scheme, rest)) => if !text::same_nocase(scheme, "https"@) {
                Err("仅支持 https 协议（收到 "@ + scheme + "），http 明文与其它协议一律拒绝"@)
            } else {
                let (path, query, revision) = address_parts(rest);
                segments_parsed(
                    text::nonempty(text::pieces(path, '/')),
                    query,
                    revision,
                    hosts,
                )
            },
        }
    }
}

/// The source of a plugin of the market, by its name.
pub fn market_source(name: &str) -> (r: Result<GitSource, String>)
    ensures
        text::outcome(r) == market_parsed(name@),
{
    let t = text::trim_str(name);
    let n = text::string_of(text::trim_end_char(t.as_slice(), '/'));
    if !is_valid_plugin_name(n.as_str()) {
        return Err(text::owned("市场来源里的插件名「").concat(n.as_str()).concat("」不合法"));
    }
    Ok(
        GitSource {
            host: text::owned(MARKET_HOST),
            domain: String::new(),
            owner: String::new(),
            repo: n.clone(),
            sub_path: String::new(),
            revision: String::new(),
            url: text::owned(MARKET_SCHEME).concat(n.as_str()),
            page_url: String::new(),
        },
    )
}

/// Parses a plugin address; `extra_hosts` is the value of the setting that adds allowed hosts.
///
/// ```text
/// https://github.com/user/repo.git
/// https://github.com/user/repo.git#v1.2.3
/// https://github.com/user/repo.git?path=/plugins/foo
/// https://github.com/user/repo.git?path=/plugins/foo#dev
/// itools-market://name
/// ```
pub fn parse_git_url(input: &str, extra_hosts: Option<&str>) -> (r: Result<GitSource, String>)
    ensures
        text::outcome(r) == parsed(input@, hosts_of(text::opt_str(extra_hosts))),
{
    let hosts = allowed_hosts(extra_hosts);
    parse_git_url_with(input, hosts.as_slice())
}

/// Parses a plugin address against a list of allowed hosts.
pub fn parse_git_url_with(input: &str, allowed: &[(String, Forge)]) -> (r: Result<
    GitSource,
    String,
>)
    ensures
        text::outcome(r) == parsed(input@, host_views(allowed@)),
{
    let whole = text::chars_of(input);
    let raw = text::trim(whole.as_slice());
    if raw.len() == 0 {
        return Err(text::owned("请输入插件仓库地址"));
    }
    if text::has_prefix(raw, MARKET_SCHEME) {
        let scheme = text::chars_of(MARKET_SCHEME);
        let rest = slice_subrange(raw, scheme.len(), raw.len());
        assert(rest@ == raw@.skip(MARKET_SCHEME@.len() as int));
        let name = text::string_of(rest);
        return market_source(name.as_str());
    }
    let lower = text::to_lower(raw);
    if text::has_prefix(lower.as_slice(), "git@") || text::has_prefix(lower.as_slice(), "ssh://") {
        return Err(
            text::owned(
                "暂不支持 SSH 形式（git@… / ssh://…）：通过 https 下载归档安装，不依赖本机 git。请改用 https:// 开头的仓库地址（如 https://github.com/用户名/仓库名.git）",
            ),
        );
    }
    if text::has_prefix(lower.as_slice(), "file://") {
        return Err(text::owned("不支持 file:// 本地路径安装，请使用 https:// 的仓库地址"));
    }
    match text::split_once(raw, "://") {
        None => Err(
            text::owned("地址应以 https:// 开头，例如 https://github.com/用户名/仓库名.git"),
        ),
        Some((scheme, rest)) => {
            let https = text::chars_of("https");
            if !text::eq_nocase(scheme, https.as_slice()) {
                let got = text::string_of(scheme);
                return Err(
                    text::owned("仅支持 https 协议（收到 ").concat(got.as_str()).concat(
                        "），http 明文与其它协议一律拒绝",
                    ),
                );
            }
            parse_address(rest, allowed)
        },
    }
}

/// Parses what follows the scheme of a repository address.
fn parse_address(rest: &[char], allowed: &[(String, Forge)]) -> (r: Result<GitSource, String>)
    ensures
        text::outcome(r) == ({
            let (path, query, revision) = address_parts(rest@);
            segments_parsed(
                text::nonempty(text::pieces(path, '/')),
                query,
                revision,
                host_views(allowed@),
            )
        }),
{
    let none: Vec<char> = Vec::new();
    // The revision always comes last, the query before it.
    let (head, revision) = match text::split_once_char(rest, '#') {
        Some((a, b)) => (a, text::trim(b)),
        None => (rest, none.as_slice()),
    };
    let (path, query) = match text::split_once_char(head, '?') {
        Some((a, b)) => (a, b),
        None => (head, none.as_slice()),
    };
    assert(address_parts(rest@) == (path@, query@, revision@));
    let parts = text::split(path, '/');
    let segs = text::keep_nonempty(&parts);
    parse_segments(&segs, query, revision, allowed)
}

fn parse_segments(
    segs: &Vec<Vec<char>>,
    query: &[char],
    revision: &[char],
    allowed: &[(String, Forge)],
) -> (r: Result<GitSource, String>)
    ensures
        text::outcome(r) == segments_parsed(
            text::views(segs@),
            query@,
            revision@,
            host_views(allowed@),
        ),
{
    proof {
        reveal_strlit("www.");
    }
    let ghost views = text::views(segs@);
    if segs.len() == 0 {
        return Err(text::owned("地址缺少域名"));
    }
    assert(views[0] == segs@[0]@);
    let host_raw = text::to_lower(segs[0].as_slice());
    let host_chars = text::strip_starts(host_raw.as_slice(), "www.");
    if text::contains_char(host_chars, ':') {
        return Err(text::owned("仓库地址不支持指定端口"));
    }
    let host = text::string_of(host_chars);
    let forge = match find_host(allowed, host.as_str()) {
        Some(f) => f,
        None => {
            return Err(refuse_host(allowed, host.as_str()));
        },
    };
    let owner = if segs.len() > 1 {
        assert(views[1] == segs@[1]@);
        text::string_of(segs[1].as_slice())
    } else {
        String::new()
    };
    let repo = if segs.len() > 2 {
        assert(views[2] == segs@[2]@);
        strip_suffix(segs[2].as_slice(), ".git")
    } else {
        String::new()
    };
    if owner.as_str().is_empty() || repo.as_str().is_empty() {
        return Err(text::owned("仓库地址应形如 https://github.com/用户名/仓库名.git"));
    }
    if segs.len() > 3 {
        return Err(
            text::owned(
                "仓库地址只应包含「用户名/仓库名」两段；仓库内子目录请用 ?path=/子/目录 指定",
            ),
        );
    }
    if let Err(e) = check_ident(owner.as_str(), "用户名") {
        return Err(e);
    }
    if let Err(e) = check_ident(repo.as_str(), "仓库名") {
        return Err(e);
    }
    let sub = match parse_query(query) {
        Ok(s) => s,
        Err(e) => {
            return Err(e);
        },
    };
    let rev = text::string_of(revision);
    if let Err(e) = check_revision(rev.as_str()) {
        return Err(e);
    }
    Ok(build_source(host, forge, owner, repo, sub, rev))
}

fn refuse_host(allowed: &[(String, Forge)], host: &str) -> (r: String)
    ensures
        r@ == host_refused(host_views(allowed@), host@),
{
    let mut names: Vec<Vec<char>> = Vec::new();
    let mut i: usize = 0;
    let ghost want = host_names(host_views(allowed@));
    while i < allowed.len()
        invariant
            i <= allowed@.len(),
            want == host_names(host_views(allowed@)),
            text::views(names@) == want.take(i as int),
        decreases allowed@.len() - i,
    {
        let ghost before = names@;
        names.push(text::chars_of(allowed[i].0.as_str()));
        assert(text::views(names@) == text::views(before).push(allowed@[i as int].0@));
        assert(want.take(i + 1) == want.take(i as int).push(want[i as int]));
        i += 1;
    }
    assert(want.take(i as int) == want);
    let list = text::join(&names, "、");
    let list = text::string_of(list.as_slice());
    text::owned("不允许的仓库来源：").concat(host).concat("。当前只放行 ").concat(
        list.as_str(),
    ).concat("（可用环境变量 ITOOLS_PLUGIN_HOSTS 追加）")
}

fn strip_suffix(s: &[char], suffix: &str) -> (r: String)
    ensures
        r@ == without_suffix(s@, suffix@),
{
    if text::has_suffix(s, suffix) {
        let u = text::chars_of(suffix);
        let head = slice_subrange(s, 0, s.len() - u.len());
        assert(head@ == s@.take(s@.len() - suffix@.len()));
        text::string_of(head)
    } else {
        text::string_of(s)
    }
}

/// The sub path that the query of an address gives.
fn parse_query(query: &[char]) -> (r: Result<String, String>)
    ensures
        text::outcome(r) == query_path(text::nonempty(text::pieces(query@, '&'))),
{
    let parts = text::split(query, '&');
    let pairs = text::keep_nonempty(&parts);
    let ghost all = text::views(pairs@);
    let none: Vec<char> = Vec::new();
    let mut sub = String::new();
    let mut i: usize = 0;
    assert(all.take(0) == Seq::<Seq<char>>::empty());
    while i < pairs.len()
        invariant
            i <= pairs@.len(),
            all == text::views(pairs@),
            all == text::nonempty(text::pieces(query@, '&')),
            none@ == Seq::<char>::empty(),
            query_path(all.take(i as int)) == Ok::<Seq<char>, Seq<char>>(sub@),
        decreases pairs@.len() - i,
    {
        assert(all.take(i + 1).drop_last() == all.take(i as int));
        assert(all.take(i + 1).last() == pairs@[i as int]@);
        let pair = pairs[i].as_slice();
        let (k, v) = match text::split_once_char(pair, '=') {
            Some((k, v)) => (k, v),
            None => (pair, none.as_slice()),
        };
        if !text::same(k, "path") {
            proof {
                lemma_query_prefix_error(all, i + 1);
            }
            let name = text::string_of(k);
            return Err(
                text::owned("不认识的参数 ").concat(name.as_str()).concat(
                    "，仅支持 ?path=/仓库内/子目录",
                ),
            );
        }
        let value = text::string_of(v);
        match normalize_sub_path(value.as_str()) {
            Ok(s) => {
                sub = s;
            },
            Err(e) => {
                proof {
                    lemma_query_prefix_error(all, i + 1);
                }
                return Err(e);
            },
        }
        i += 1;
    }
    assert(all.take(i as int) == all);
    Ok(sub)
}

proof fn lemma_query_prefix_error(v: Seq<Seq<char>>, k: int)
    requires
        0 <= k <= v.len(),
        query_path(v.take(k)) is Err,
    ensures
        query_path(v) == query_path(v.take(k)),
    decreases v.len() - k,
{
    if k < v.len() {
        assert(v.take(k + 1).drop_last() == v.take(k));
        lemma_query_prefix_error(v, k + 1);
    } else {
        assert(v.take(k) == v);
    }
}

fn build_source(
    host: String,
    forge: Forge,
    owner: String,
    repo: String,
    sub: String,
    revision: String,
) -> (r: GitSource)
    ensures
        r@ == repo_view(host@, forge, owner@, repo@, sub@, revision@),
{
    let page_url = text::owned("https://").concat(host.as_str()).concat("/").concat(
        owner.as_str(),
    ).concat("/").concat(repo.as_str());
    let mut url = page_url.clone().concat(".git");
    if !sub.as_str().is_empty() {
        url = url.concat("?path=/").concat(sub.as_str());
    }
    if !revision.as_str().is_empty() {
        url = url.concat("#").concat(revision.as_str());
    }
    GitSource {
        host: text::owned(forge.as_str()),
        domain: host,
        owner,
        repo,
        sub_path: sub,
        revision,
        url,
        page_url,
    }
}

} // verus!
