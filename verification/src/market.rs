//! The plugin market: its index, its packages and the hash of a package's content.

use crate::codec;
use crate::install::source::MARKET_SCHEME;
use crate::order;
use crate::table::Table;
use crate::text;
use vstd::prelude::*;
use vstd::slice::slice_subrange;

verus! {

/// Seconds that fetching the index may take.
pub const FETCH_TIMEOUT_SECS: u64 = 10;

/// The largest index that is read, in bytes.
pub const MAX_INDEX_BYTES: u64 = 2_097_152;

/// Seconds that fetching a package may take.
pub const PACKAGE_TIMEOUT_SECS: u64 = 120;

/// The largest package that is read, in bytes.
pub const MAX_PACKAGE_BYTES: u64 = 33_554_432;

/// One plugin of the market's index.
#[derive(Debug)]
pub struct MarketEntry {
    pub name: String,
    pub display_name: String,
    pub description: String,
    pub author: String,
    pub version: String,
    /// Where the package lies, relative to the server; empty for the usual place.
    pub package: String,
    /// The hash of the reviewed content; empty when the index has none.
    pub content_hash: String,
    /// The model that reviewed this version; empty when none did.
    pub reviewed_by: String,
    pub published_at: i64,
    pub updated_at: i64,
    pub size_bytes: u64,
    pub readme: String,
    pub category: String,
    pub tags: Vec<String>,
    pub keywords: Vec<String>,
    pub permissions: Vec<String>,
    pub permission_reasons: Table<String>,
    pub min_app_version: String,
    pub license: String,
    pub homepage: String,
    pub source_repo: String,
    pub screenshots: Vec<String>,
    /// Withdrawn: it must not be installed any more.
    pub revoked: bool,
    pub revoked_reason: String,
    pub added_at: String,
    pub audit_report: String,
    pub file_count: usize,
}

/// The market's index.
#[derive(Debug)]
pub struct MarketIndex {
    pub version: u32,
    /// How plugins are reviewed: `llm`, `manual`, or empty when the index does not say.
    pub review_mode: String,
    pub review_model: String,
    pub plugins: Vec<MarketEntry>,
}

impl Default for MarketIndex {
    fn default() -> (r: Self)
        ensures
            r.version == 0,
            r.review_mode@.len() == 0,
            r.review_model@.len() == 0,
            r.plugins@.len() == 0,
    {
        MarketIndex {
            version: 0,
            review_mode: String::new(),
            review_model: String::new(),
            plugins: Vec::new(),
        }
    }
}

/// What the market page shows.
#[derive(Debug)]
pub struct MarketView {
    pub plugins: Vec<MarketEntry>,
    /// `remote` when the index was just fetched, `cache` when a stored one is shown, else `none`.
    pub origin: String,
    /// Why fetching failed.
    pub error: Option<String>,
    /// Installed plugins and their versions.
    pub installed: Table<String>,
    /// The server that the index comes from.
    pub source: String,
    pub review_mode: String,
    pub review_model: String,
}

/// A capped request to the market's server.
#[derive(Debug)]
pub struct Fetch {
    pub url: String,
    pub timeout_secs: u64,
    pub max_bytes: u64,
    pub what: String,
}

// ---------------------------------------------------------------------------
// Addresses and requests
// ---------------------------------------------------------------------------

pub open spec fn without_slashes(s: Seq<char>) -> Seq<char> {
    text::trimmed_end(s, |c: char| c == '/')
}

/// The address of a package: the server's, then the entry's path or the usual one.
pub open spec fn package_address(endpoint: Seq<char>, package: Seq<char>, name: Seq<char>) -> Seq<
    char,
> {
    let rel = if package.len() == 0 {
        "/api/market/package/"@ + name
    } else {
        package
    };
    without_slashes(endpoint) + (if "/"@.is_prefix_of(rel) {
        rel
    } else {
        "/"@ + rel
    })
}

impl MarketEntry {
    /// The identity of this plugin as an install source.
    pub fn source_url(&self) -> (r: String)
        ensures
            r@ == MARKET_SCHEME@ + self.name@,
    {
        text::owned(MARKET_SCHEME).concat(self.name.as_str())
    }

    /// The address of the package on the given server.
    pub fn package_url(&self, endpoint: &str) -> (r: String)
        ensures
            r@ == package_address(endpoint@, self.package@, self.name@),
    {
        let base = trim_slashes(endpoint);
        let rel = if self.package.as_str().is_empty() {
            text::owned("/api/market/package/").concat(self.name.as_str())
        } else {
            self.package.clone()
        };
        let chars = text::chars_of(rel.as_str());
        let tail = if text::has_prefix(chars.as_slice(), "/") {
            rel
        } else {
            text::owned("/").concat(rel.as_str())
        };
        base.concat(tail.as_str())
    }
}

fn trim_slashes(s: &str) -> (r: String)
    ensures
        r@ == without_slashes(s@),
{
    let v = text::chars_of(s);
    text::string_of(text::trim_end_char(v.as_slice(), '/'))
}

/// The configured server, or how to configure one.
pub fn endpoint(configured: Option<String>) -> (r: Result<String, String>)
    ensures
        match (r, configured) {
            (Ok(e), Some(c)) => e == c,
            (Err(e), None) => e@
                == "还没有配置服务器地址，插件市场不可用。请到「设置 → 网络 → 服务器地址」填写后重试。"@,
            _ => false,
        },
{
    match configured {
        Some(c) => Ok(c),
        None => Err(
            text::owned(
                "还没有配置服务器地址，插件市场不可用。请到「设置 → 网络 → 服务器地址」填写后重试。",
            ),
        ),
    }
}

/// The request that fetches the index.
pub fn fetch_index(configured: Option<String>) -> (r: Result<Fetch, String>)
    ensures
        match r {
            Ok(f) => {
                &&& configured is Some
                &&& f.url@ == without_slashes(configured->0@) + "/api/market/index"@
                &&& f.timeout_secs == FETCH_TIMEOUT_SECS
                &&& f.max_bytes == MAX_INDEX_BYTES
                &&& f.timeout_secs == 10
                &&& f.max_bytes == 2 * 1024 * 1024
                &&& f.what@ == "拉取插件市场索引"@
            },
            Err(e) => configured is None && e@
                == "还没有配置服务器地址，插件市场不可用。请到「设置 → 网络 → 服务器地址」填写后重试。"@,
        },
{
    match endpoint(configured) {
        Err(e) => Err(e),
        Ok(ep) => Ok(
            Fetch {
                url: trim_slashes(ep.as_str()).concat("/api/market/index"),
                timeout_secs: FETCH_TIMEOUT_SECS,
                max_bytes: MAX_INDEX_BYTES,
                what: text::owned("拉取插件市场索引"),
            },
        ),
    }
}

/// The request that fetches a plugin's package.
pub fn fetch_package(entry: &MarketEntry, configured: Option<String>) -> (r: Result<
    Fetch,
    String,
>)
    ensures
        match r {
            Ok(f) => {
                &&& configured is Some
                &&& f.url@ == package_address(configured->0@, entry.package@, entry.name@)
                &&& f.timeout_secs == PACKAGE_TIMEOUT_SECS
                &&& f.max_bytes == MAX_PACKAGE_BYTES
                &&& f.timeout_secs == 2 * 60
                &&& f.max_bytes == 32 * 1024 * 1024
                &&& f.what@ == "下载插件包 "@ + entry.name@
            },
            Err(e) => configured is None && e@
                == "还没有配置服务器地址，插件市场不可用。请到「设置 → 网络 → 服务器地址」填写后重试。"@,
        },
{
    match endpoint(configured) {
        Err(e) => Err(e),
        Ok(ep) => Ok(
            Fetch {
                url: entry.package_url(ep.as_str()),
                timeout_secs: PACKAGE_TIMEOUT_SECS,
                max_bytes: MAX_PACKAGE_BYTES,
                what: text::owned("下载插件包 ").concat(entry.name.as_str()),
            },
        ),
    }
}

/// What is said of a response whose declared length is over the limit.
pub open spec fn declared_error(header: Option<Seq<char>>, max: u64, what: Seq<char>) -> Option<
    Seq<char>,
> {
    match header {
        None => None,
        Some(h) => match text::u64_of(h) {
            Some(n) => if n > max {
                Some(
                    what + "失败：响应体 "@ + text::decimal_text(n as nat) + " 字节超过上限 "@
                        + text::decimal_text(max as nat),
                )
            } else {
                None
            },
            None => None,
        },
    }
}

/// Refuses a response by its declared length; a header that is no number is ignored.
pub fn check_declared(header: Option<&str>, max: u64, what: &str) -> (r: Result<(), String>)
    ensures
        text::message_of(r) == declared_error(text::opt_str(header), max, what@),
{
    match header {
        None => Ok(()),
        Some(h) => {
            let v = text::chars_of(h);
            match text::parse_u64(v.as_slice()) {
                Some(n) => {
                    if n > max {
                        let shown = text::decimal(n);
                        let limit = text::decimal(max);
                        Err(
                            text::owned(what).concat("失败：响应体 ").concat(
                                shown.as_str(),
                            ).concat(" 字节超过上限 ").concat(limit.as_str()),
                        )
                    } else {
                        Ok(())
                    }
                },
                None => Ok(()),
            }
        },
    }
}

/// The body of a capped response. `body` is what reading at most one byte more than the limit
/// gave.
pub fn fetch_capped(body: Result<Vec<u8>, String>, max: u64, what: &str) -> (r: Result<
    Vec<u8>,
    String,
>)
    ensures
        text::outcome(r) == capped_body(text::outcome(body), max, what@),
        match (body, r) {
            (Ok(b), Ok(out)) => b@.len() <= max && out@ == b@,
            (Ok(b), Err(e)) => b@.len() > max && e@ == what@ + "失败：响应体超过上限 "@
                + text::decimal_text(max as nat) + " 字节"@,
            (Err(m), Err(e)) => e@ == what@ + "失败：读取响应出错: "@ + m@,
            _ => false,
        },
{
    match body {
        Err(m) => Err(text::owned(what).concat("失败：读取响应出错: ").concat(m.as_str())),
        Ok(b) => {
            if b.len() as u64 > max {
                let limit = text::decimal(max);
                Err(
                    text::owned(what).concat("失败：响应体超过上限 ").concat(
                        limit.as_str(),
                    ).concat(" 字节"),
                )
            } else {
                Ok(b)
            }
        },
    }
}

/// What is said of a response with an error status.
pub open spec fn status_text(code: u16, body: Seq<char>) -> Seq<char> {
    let head = if body.len() > 200 {
        body.take(200)
    } else {
        body
    };
    if code == 404 {
        "HTTP 404：服务器上没有这个端点或插件（请确认服务器地址与版本）"@
    } else if code == 429 {
        "HTTP 429：请求过于频繁，已被服务端限流，请稍后再试"@
    } else if 500 <= code <= 599 {
        "HTTP "@ + text::decimal_text(code as nat) + "：服务端出错。"@ + head
    } else {
        "HTTP "@ + text::decimal_text(code as nat) + "。"@ + head
    }
}

/// Describes a response with an error status, see [`status_text`].
pub fn describe(code: u16, body: &str) -> (r: String)
    ensures
        r@ == status_text(code, body@),
{
    let v = text::chars_of(body);
    let head = if v.len() > 200 {
        let h = slice_subrange(v.as_slice(), 0, 200);
        assert(h@ =~= body@.take(200));
        text::string_of(h)
    } else {
        text::owned(body)
    };
    if code == 404 {
        text::owned("HTTP 404：服务器上没有这个端点或插件（请确认服务器地址与版本）")
    } else if code == 429 {
        text::owned("HTTP 429：请求过于频繁，已被服务端限流，请稍后再试")
    } else {
        let shown = text::decimal(code as u64);
        if 500 <= code && code <= 599 {
            text::owned("HTTP ").concat(shown.as_str()).concat("：服务端出错。").concat(
                head.as_str(),
            )
        } else {
            text::owned("HTTP ").concat(shown.as_str()).concat("。").concat(head.as_str())
        }
    }
}

// ---------------------------------------------------------------------------
// The index
// ---------------------------------------------------------------------------

/// Whether the entry at an index is the first with the name.
pub open spec fn first_named(plugins: Seq<MarketEntry>, name: Seq<char>, k: int) -> bool {
    &&& 0 <= k < plugins.len()
    &&& plugins[k].name@ == name
    &&& forall|j: int| 0 <= j < k ==> (#[trigger] plugins[j]).name@ != name
}

/// Whether no entry has the name.
pub open spec fn none_named(plugins: Seq<MarketEntry>, name: Seq<char>) -> bool {
    forall|j: int| 0 <= j < plugins.len() ==> (#[trigger] plugins[j]).name@ != name
}

fn locate(plugins: &Vec<MarketEntry>, name: &str) -> (r: Option<usize>)
    ensures
        match r {
            Some(k) => first_named(plugins@, name@, k as int),
            None => none_named(plugins@, name@),
        },
{
    let mut i: usize = 0;
    while i < plugins.len()
        invariant
            i <= plugins@.len(),
            forall|j: int| 0 <= j < i ==> (#[trigger] plugins@[j]).name@ != name@,
        decreases plugins@.len() - i,
    {
        if text::str_eq(plugins[i].name.as_str(), name) {
            return Some(i);
        }
        i += 1;
    }
    None
}

/// The version of a plugin in the index; `index` is what fetching it gave.
pub fn latest_version(index: Result<MarketIndex, String>, name: &str) -> (r: Result<
    Option<String>,
    String,
>)
    ensures
        match (index, r) {
            (Err(a), Err(b)) => a == b,
            (Ok(ix), Ok(None)) => none_named(ix.plugins@, name@),
            (Ok(ix), Ok(Some(v))) => exists|k: int|
                #[trigger] first_named(ix.plugins@, name@, k) && v@ == ix.plugins@[k].version@,
            _ => false,
        },
{
    match index {
        Err(e) => Err(e),
        Ok(ix) => match locate(&ix.plugins, name) {
            Some(k) => {
                assert(first_named(ix.plugins@, name@, k as int));
                Ok(Some(ix.plugins[k].version.clone()))
            },
            None => Ok(None),
        },
    }
}

/// The entry of a plugin in the index; `index` is what fetching it gave.
pub fn find_entry<'a>(index: &'a Result<MarketIndex, String>, name: &str) -> (r: Result<
    &'a MarketEntry,
    String,
>)
    ensures
        match (*index, r) {
            (Err(a), Err(b)) => a@ == b@,
            (Ok(ix), Err(e)) => none_named(ix.plugins@, name@) && e@ == "市场里已经没有名为「"@
                + name@ + "」的插件了"@,
            (Ok(ix), Ok(entry)) => exists|k: int|
                #[trigger] first_named(ix.plugins@, name@, k) && *entry == ix.plugins@[k],
            _ => false,
        },
{
    match index {
        Err(e) => Err(e.clone()),
        Ok(ix) => match locate(&ix.plugins, name) {
            Some(k) => {
                assert(first_named(ix.plugins@, name@, k as int));
                Ok(&ix.plugins[k])
            },
            None => Err(
                text::owned("市场里已经没有名为「").concat(name).concat("」的插件了"),
            ),
        },
    }
}

/// The hash that a package must have; `None` when the index gives none.
pub open spec fn expected_hash(entry: MarketEntry) -> Option<Seq<char>> {
    if entry.content_hash@.len() == 0 {
        None
    } else {
        Some(entry.content_hash@)
    }
}

/// The hash that a package must have, see [`expected_hash`].
pub fn expect_of(entry: &MarketEntry) -> (r: Option<String>)
    ensures
        text::opt_view(r) == expected_hash(*entry),
{
    if entry.content_hash.as_str().is_empty() {
        None
    } else {
        Some(entry.content_hash.clone())
    }
}

/// The entry to install. Only a fresh index will do, and a withdrawn plugin is refused.
pub fn entry_to_install<'a>(index: &'a Result<MarketIndex, String>, name: &str) -> (r: Result<
    &'a MarketEntry,
    String,
>)
    ensures
        (match r {
            Ok(entry) => Some(*entry),
            Err(_) => None,
        }) == installable(*index, name@),
        match (*index, r) {
            (Err(a), Err(b)) => b@ == a@
                + "\n无法确认要安装的版本，已中止（不使用可能过期的缓存索引）"@,
            (Ok(ix), Err(e)) => {
                ||| none_named(ix.plugins@, name@) && e@ == "市场里没有名为「"@ + name@
                    + "」的插件（索引可能已更新）"@
                ||| exists|k: int|
                    {
                        &&& #[trigger] first_named(ix.plugins@, name@, k)
                        &&& ix.plugins@[k].revoked
                        &&& e@ == "「"@ + name@ + "」已被市场下架，不能安装。下架原因："@ + (
                        if ix.plugins@[k].revoked_reason@.len() == 0 {
                            "未给出原因"@
                        } else {
                            ix.plugins@[k].revoked_reason@
                        })
                    }
            },
            (Ok(ix), Ok(entry)) => exists|k: int|
                #[trigger] first_named(ix.plugins@, name@, k) && *entry == ix.plugins@[k]
                    && !entry.revoked,
            _ => false,
        },
{
    proof {
        if *index is Ok {
            lemma_entry_named(index->Ok_0.plugins@, name@);
        }
    }
    match index {
        Err(e) => Err(
            e.clone().concat("\n无法确认要安装的版本，已中止（不使用可能过期的缓存索引）"),
        ),
        Ok(ix) => match locate(&ix.plugins, name) {
            None => Err(
                text::owned("市场里没有名为「").concat(name).concat(
                    "」的插件（索引可能已更新）",
                ),
            ),
            Some(k) => {
                assert(first_named(ix.plugins@, name@, k as int));
                let entry = &ix.plugins[k];
                if entry.revoked {
                    let why = if entry.revoked_reason.as_str().is_empty() {
                        "未给出原因"
                    } else {
                        entry.revoked_reason.as_str()
                    };
                    return Err(
                        text::owned("「").concat(name).concat(
                            "」已被市场下架，不能安装。下架原因：",
                        ).concat(why),
                    );
                }
                Ok(entry)
            },
        },
    }
}

/// Refuses a package whose manifest names another plugin than its entry.
pub fn check_preview_name(entry_name: &str, package_name: &str) -> (r: Result<(), String>)
    ensures
        text::message_of(r) is None <==> same_plugin(entry_name@, package_name@),
        text::message_of(r) == if entry_name@ == package_name@ {
            None
        } else {
            Some(
                "市场条目与实际内容不符：条目名「"@ + entry_name@ + "」，包里的 plugin.json 写的是「"@
                    + package_name@ + "」。已拒绝安装。"@,
            )
        },
{
    if text::str_eq(entry_name, package_name) {
        Ok(())
    } else {
        Err(
            text::owned("市场条目与实际内容不符：条目名「").concat(entry_name).concat(
                "」，包里的 plugin.json 写的是「",
            ).concat(package_name).concat("」。已拒绝安装。"),
        )
    }
}

/// What the market page shows: the fetched index, else the stored one, else nothing, and in
/// the last two cases why fetching failed.
pub fn market_list(
    fetched: Result<MarketIndex, String>,
    cached: Option<MarketIndex>,
    installed: Table<String>,
    server: Option<String>,
) -> (r: MarketView)
    ensures
        is_listing(r, fetched, cached),
        r.installed == installed,
        r.source@ == (match server {
            Some(s) => s@,
            None => "（未配置服务器地址）"@,
        }),
        match fetched {
            Ok(ix) => {
                &&& r.origin@ == "remote"@
                &&& r.error is None
                &&& r.plugins == ix.plugins
                &&& r.review_mode == ix.review_mode
                &&& r.review_model == ix.review_model
            },
            Err(e) => {
                &&& r.error == Some(e)
                &&& match cached {
                    Some(ix) => {
                        &&& r.origin@ == "cache"@
                        &&& r.plugins == ix.plugins
                        &&& r.review_mode == ix.review_mode
                        &&& r.review_model == ix.review_model
                    },
                    None => {
                        &&& r.origin@ == "none"@
                        &&& r.plugins@.len() == 0
                        &&& r.review_mode@.len() == 0
                        &&& r.review_model@.len() == 0
                    },
                }
            },
        },
{
    let source = match server {
        Some(s) => s,
        None => text::owned("（未配置服务器地址）"),
    };
    match fetched {
        Ok(ix) => MarketView {
            plugins: ix.plugins,
            origin: text::owned("remote"),
            error: None,
            installed,
            source,
            review_mode: ix.review_mode,
            review_model: ix.review_model,
        },
        Err(e) => match cached {
            Some(ix) => MarketView {
                plugins: ix.plugins,
                origin: text::owned("cache"),
                error: Some(e),
                installed,
                source,
                review_mode: ix.review_mode,
                review_model: ix.review_model,
            },
            None => MarketView {
                plugins: Vec::new(),
                origin: text::owned("none"),
                error: Some(e),
                installed,
                source,
                review_mode: String::new(),
                review_model: String::new(),
            },
        },
    }
}

// ---------------------------------------------------------------------------
// The hash of a package's content
// ---------------------------------------------------------------------------

/// The rows of a table of files, as paths and bytes.
pub open spec fn file_rows(rows: Seq<(String, Vec<u8>)>) -> Seq<(Seq<char>, Seq<u8>)> {
    rows.map_values(|f: (String, Vec<u8>)| (f.0@, f.1@))
}

/// The relative path with slashes as separators.
pub open spec fn rel_of(path: Seq<char>) -> Seq<char> {
    text::replaced(path, '\\', '/')
}

/// Whether a file lies in a `.git` directory, or is called so.
pub open spec fn in_git(path: Seq<char>) -> bool {
    text::pieces(rel_of(path), '/').contains(".git"@)
}

/// The line of one file: its path, a tab, the digest of its bytes.
pub open spec fn hash_line(rel: Seq<char>, data: Seq<u8>) -> Seq<char> {
    rel + "\t"@ + codec::hex_text(codec::sha256_of(data))
}

/// The lines of the files that count.
pub open spec fn hash_input(files: Seq<(Seq<char>, Seq<u8>)>) -> Seq<Seq<char>>
    decreases files.len(),
{
    if files.len() == 0 {
        Seq::empty()
    } else {
        let f = files.last();
        let before = hash_input(files.drop_last());
        if in_git(f.0) {
            before
        } else {
            before.push(hash_line(rel_of(f.0), f.1))
        }
    }
}

/// The digest of lines: sorted, joined by line feeds.
pub open spec fn lines_hash(lines: Seq<Seq<char>>) -> Seq<char> {
    "sha256:"@ + codec::hex_text(
        codec::sha256_of(vstd::utf8::encode_utf8(text::joined(order::sorted(lines), "\n"@))),
    )
}

/// The hash of a package's content.
pub open spec fn content_hash_of(files: Seq<(Seq<char>, Seq<u8>)>) -> Seq<char> {
    lines_hash(hash_input(files))
}

/// The line of one file, see [`hash_line`].
pub fn line_of(rel: &str, content: &[u8]) -> (r: String)
    ensures
        r@ == hash_line(rel@, content@),
{
    let digest = codec::sha256(content);
    let shown = codec::hex(digest.as_slice());
    text::owned(rel).concat("\t").concat(shown.as_str())
}

/// The digest of lines, see [`lines_hash`].
pub fn hash_lines(lines: &Vec<Vec<char>>) -> (r: String)
    ensures
        r@ == lines_hash(text::views(lines@)),
{
    let ordered = order::sort(lines);
    let body = text::join(&ordered, "\n");
    let body = text::string_of(body.as_slice());
    let digest = codec::sha256(body.as_str().as_bytes());
    let shown = codec::hex(digest.as_slice());
    text::owned("sha256:").concat(shown.as_str())
}

fn lies_in_git(rel: &[char]) -> (r: bool)
    ensures
        r == text::pieces(rel@, '/').contains(".git"@),
{
    let parts = text::split(rel, '/');
    let ghost all = text::views(parts@);
    let mut i: usize = 0;
    while i < parts.len()
        invariant
            i <= parts@.len(),
            all == text::views(parts@),
            all == text::pieces(rel@, '/'),
            forall|j: int| 0 <= j < i ==> all[j] != ".git"@,
        decreases parts@.len() - i,
    {
        assert(all[i as int] == parts@[i as int]@);
        if text::same(parts[i].as_slice(), ".git") {
            return true;
        }
        i += 1;
    }
    false
}

/// The hash of a package's content, see [`content_hash_of`]. A package is a table from
/// relative paths to bytes.
///
/// Only paths and bytes count: neither the order of the files nor how they were packed.
pub fn content_hash(files: &Table<Vec<u8>>) -> (r: String)
    ensures
        r@ == content_hash_of(file_rows(files.rows())),
{
    let ghost all = file_rows(files.rows());
    let mut lines: Vec<Vec<char>> = Vec::new();
    let mut i: usize = 0;
    let n: usize = files.len();
    assert(all.take(0) =~= Seq::<(Seq<char>, Seq<u8>)>::empty());
    assert(text::views(lines@) =~= Seq::<Seq<char>>::empty());
    while i < n
        invariant
            i <= n,
            n == files.rows().len(),
            all == file_rows(files.rows()),
            text::views(lines@) == hash_input(all.take(i as int)),
        decreases n - i,
    {
        assert(all.take(i + 1).drop_last() =~= all.take(i as int));
        let row = files.row(i);
        assert(all.take(i + 1).last() == (row.0@, row.1@));
        let path = text::chars_of(row.0.as_str());
        let rel = text::replace_char(path.as_slice(), '\\', '/');
        if !lies_in_git(rel.as_slice()) {
            let name = text::string_of(rel.as_slice());
            let line = line_of(name.as_str(), row.1.as_slice());
            let ghost before = lines@;
            lines.push(text::chars_of(line.as_str()));
            assert(text::views(lines@) =~= text::views(before).push(line@));
        }
        i += 1;
    }
    assert(all.take(i as int) =~= all);
    hash_lines(&lines)
}

/// What is said of a package whose content is not the expected one.
pub open spec fn hash_error(got: Seq<char>, expect: Seq<char>) -> Option<Seq<char>> {
    if text::same_nocase(got, expect) {
        None
    } else {
        Some(
            "内容校验失败：期望 "@ + expect + "，实际 "@ + got
                + "。这份插件包与市场收录时审核过的内容不一致——可能是下载源被篡改，也可能是市场索引已过期。已拒绝安装。"@,
        )
    }
}

/// Checks a package against the hash that the index gives.
pub fn verify_content_hash(files: &Table<Vec<u8>>, expect: &str) -> (r: Result<(), String>)
    ensures
        text::message_of(r) == hash_error(content_hash_of(file_rows(files.rows())), expect@),
{
    let got = content_hash(files);
    check_hash(got.as_str(), expect)
}

/// Compares a computed hash with the expected one, see [`hash_error`].
pub fn check_hash(got: &str, expect: &str) -> (r: Result<(), String>)
    ensures
        text::message_of(r) == hash_error(got@, expect@),
{
    let a = text::chars_of(got);
    let b = text::chars_of(expect);
    if text::eq_nocase(a.as_slice(), b.as_slice()) {
        return Ok(());
    }
    Err(
        text::owned("内容校验失败：期望 ").concat(expect).concat("，实际 ").concat(got).concat(
            "。这份插件包与市场收录时审核过的内容不一致——可能是下载源被篡改，也可能是市场索引已过期。已拒绝安装。",
        ),
    )
}

/// A package always matches its own hash.
pub proof fn own_hash_is_accepted(files: Seq<(Seq<char>, Seq<u8>)>)
    ensures
        hash_error(content_hash_of(files), content_hash_of(files)) is None,
{
}

proof fn lemma_hash_input_concat(a: Seq<(Seq<char>, Seq<u8>)>, b: Seq<(Seq<char>, Seq<u8>)>)
    ensures
        hash_input(a + b) == hash_input(a) + hash_input(b),
    decreases b.len(),
{
    if b.len() == 0 {
        assert(a + b =~= a);
        assert(hash_input(a) + hash_input(b) =~= hash_input(a));
    } else {
        lemma_hash_input_concat(a, b.drop_last());
        assert((a + b).drop_last() =~= a + b.drop_last());
        assert((a + b).last() == b.last());
        let f = b.last();
        if !in_git(f.0) {
            let line = hash_line(rel_of(f.0), f.1);
            assert(hash_input(a) + hash_input(b.drop_last()).push(line) =~= (hash_input(a)
                + hash_input(b.drop_last())).push(line));
        }
    }
}

proof fn lemma_hash_input_remove(s: Seq<(Seq<char>, Seq<u8>)>, k: int)
    requires
        0 <= k < s.len(),
    ensures
        hash_input(s).to_multiset() == (if in_git(s[k].0) {
            hash_input(s.remove(k)).to_multiset()
        } else {
            hash_input(s.remove(k)).to_multiset().insert(hash_line(rel_of(s[k].0), s[k].1))
        }),
{
    let a = s.take(k);
    let one = seq![s[k]];
    let b = s.skip(k + 1);
    assert(s =~= (a + one) + b);
    assert(s.remove(k) =~= a + b);
    lemma_hash_input_concat(a + one, b);
    lemma_hash_input_concat(a, one);
    lemma_hash_input_concat(a, b);
    assert(one.drop_last() =~= Seq::<(Seq<char>, Seq<u8>)>::empty());
    assert(hash_input(one.drop_last()) =~= Seq::<Seq<char>>::empty());
    let x = hash_input(a);
    let y = hash_input(b);
    if in_git(s[k].0) {
        assert(x + hash_input(one) =~= x);
    } else {
        let line = hash_line(rel_of(s[k].0), s[k].1);
        assert(hash_input(one) =~= seq![line]);
        assert(x + hash_input(one) =~= x.push(line));
        vstd::seq_lib::lemma_multiset_commutative(x.push(line), y);
        vstd::seq_lib::lemma_multiset_commutative(x, y);
        vstd::seq_lib::to_multiset_build(x, line);
        assert((x.push(line) + y).to_multiset() =~= (x + y).to_multiset().insert(line));
    }
}

/// The hash of a package does not depend on the order of its files.
pub proof fn hash_ignores_file_order(
    a: Seq<(Seq<char>, Seq<u8>)>,
    b: Seq<(Seq<char>, Seq<u8>)>,
)
    requires
        a.to_multiset() == b.to_multiset(),
    ensures
        content_hash_of(a) == content_hash_of(b),
{
    lemma_hash_input_order(a, b);
    order::sorting_ignores_input_order(hash_input(a), hash_input(b));
}

proof fn lemma_hash_input_order(a: Seq<(Seq<char>, Seq<u8>)>, b: Seq<(Seq<char>, Seq<u8>)>)
    requires
        a.to_multiset() == b.to_multiset(),
    ensures
        hash_input(a).to_multiset() == hash_input(b).to_multiset(),
    decreases a.len(),
{
    vstd::seq_lib::to_multiset_len(a);
    vstd::seq_lib::to_multiset_len(b);
    if a.len() > 0 {
        let last = a.len() - 1;
        let x = a[last];
        assert(a.contains(x));
        vstd::seq_lib::to_multiset_contains(a, x);
        vstd::seq_lib::to_multiset_contains(b, x);
        let k = choose|k: int| 0 <= k < b.len() && b[k] == x;
        vstd::seq_lib::to_multiset_remove(a, last);
        vstd::seq_lib::to_multiset_remove(b, k);
        lemma_hash_input_order(a.remove(last), b.remove(k));
        lemma_hash_input_remove(a, last);
        lemma_hash_input_remove(b, k);
    } else {
        assert(a =~= b);
    }
}

/// Files in a `.git` directory do not count.
pub proof fn hash_ignores_git(files: Seq<(Seq<char>, Seq<u8>)>, f: (Seq<char>, Seq<u8>))
    requires
        in_git(f.0),
    ensures
        content_hash_of(files.push(f)) == content_hash_of(files),
{
    assert(files.push(f).drop_last() =~= files);
}

// ---------------------------------------------------------------------------
// What holds of addresses and hashes
// ---------------------------------------------------------------------------

/// A package lies below its server, however many slashes end the server's address: under the
/// path of its entry, with one slash in between, or in the usual place under its name.
pub proof fn packages_lie_below_their_server(
    server: Seq<char>,
    slashes: Seq<char>,
    package: Seq<char>,
    name: Seq<char>,
)
    requires
        server.len() > 0,
        server.last() != '/',
        forall|i: int| 0 <= i < slashes.len() ==> #[trigger] slashes[i] == '/',
    ensures
        package_address(server + slashes, Seq::empty(), name) == server
            + "/api/market/package/"@ + name,
        package.len() > 0 && package[0] == '/' ==> package_address(server + slashes, package, name)
            == server + package,
        package.len() > 0 && package[0] != '/' ==> package_address(server + slashes, package, name)
            == server + "/"@ + package,
        without_slashes(server + slashes) == server,
{
    reveal_strlit("/");
    reveal_strlit("/api/market/package/");
    lemma_slashes_go(server, slashes);
    let usual = "/api/market/package/"@ + name;
    assert(usual.subrange(0, 1) =~= "/"@);
    assert(server + usual =~= server + "/api/market/package/"@ + name);
    if package.len() > 0 {
        if package[0] == '/' {
            assert(package.subrange(0, 1) =~= "/"@);
        } else {
            text::lemma_not_prefix("/"@, package);
            assert(server + ("/"@ + package) =~= server + "/"@ + package);
        }
    }
}

proof fn lemma_slashes_go(server: Seq<char>, slashes: Seq<char>)
    requires
        server.len() > 0,
        server.last() != '/',
        forall|i: int| 0 <= i < slashes.len() ==> #[trigger] slashes[i] == '/',
    ensures
        without_slashes(server + slashes) == server,
    decreases slashes.len(),
{
    let all = server + slashes;
    if slashes.len() == 0 {
        assert(all =~= server);
    } else {
        let less = slashes.drop_last();
        assert(all.last() == slashes[slashes.len() - 1]);
        assert(all.drop_last() =~= server + less);
        assert forall|i: int| 0 <= i < less.len() implies #[trigger] less[i] == '/' by {
            assert(less[i] == slashes[i]);
        }
        lemma_slashes_go(server, less);
    }
}

/// A response that declares more bytes than the limit is refused, and one that declares no more
/// is not.
pub proof fn declared_lengths_are_kept_to(n: u64, max: u64, what: Seq<char>)
    ensures
        declared_error(Some(text::decimal_text(n as nat)), max, what) is Some <==> n > max,
        declared_error(None, max, what) is None,
{
    let d = text::decimal_text(n as nat);
    text::decimal_reads_back(n as nat);
    assert(text::is_digit(d[0]));
}

/// What the server says with an error is told, up to 200 characters of it.
pub proof fn errors_of_the_server_are_told(code: u16, body: Seq<char>)
    requires
        code != 404,
        code != 429,
    ensures
        body.len() <= 200 ==> body.is_suffix_of(status_text(code, body)),
        body.len() > 200 ==> body.take(200).is_suffix_of(status_text(code, body)),
{
    let t = status_text(code, body);
    let head = if body.len() > 200 {
        body.take(200)
    } else {
        body
    };
    assert(t.subrange(t.len() - head.len(), t.len() as int) =~= head);
}

/// Every file outside `.git` counts for the hash, with its path and the digest of its bytes,
/// and there is a line for nothing else.
pub proof fn every_file_counts(files: Seq<(Seq<char>, Seq<u8>)>, line: Seq<char>)
    ensures
        hash_input(files).contains(line) <==> exists|k: int|
            0 <= k < files.len() && !in_git((#[trigger] files[k]).0) && line == rel_of(files[k].0)
                + "\t"@ + codec::hex_text(codec::sha256_of(files[k].1)),
        hash_input(files).len() <= files.len(),
    decreases files.len(),
{
    let all = hash_input(files);
    if files.len() > 0 {
        let less = files.drop_last();
        let before = hash_input(less);
        let f = files.last();
        every_file_counts(less, line);
        if all.contains(line) {
            let i = choose|i: int| 0 <= i < all.len() && all[i] == line;
            if i < before.len() {
                assert(before[i] == line);
                let k = choose|k: int|
                    0 <= k < less.len() && !in_git((#[trigger] less[k]).0) && line == rel_of(
                        less[k].0,
                    ) + "\t"@ + codec::hex_text(codec::sha256_of(less[k].1));
                assert(files[k] == less[k]);
            } else {
                assert(files[files.len() - 1] == f);
            }
        }
        if exists|k: int|
            0 <= k < files.len() && !in_git((#[trigger] files[k]).0) && line == rel_of(files[k].0)
                + "\t"@ + codec::hex_text(codec::sha256_of(files[k].1)) {
            let k = choose|k: int|
                0 <= k < files.len() && !in_git((#[trigger] files[k]).0) && line == rel_of(
                    files[k].0,
                ) + "\t"@ + codec::hex_text(codec::sha256_of(files[k].1));
            if k < less.len() {
                assert(less[k] == files[k]);
                assert(before.contains(line));
                let i = choose|i: int| 0 <= i < before.len() && before[i] == line;
                assert(all[i] == line);
            } else {
                assert(all[before.len() as int] == line);
            }
        }
    }
}

/// A file called `.git`, or in a directory of that name at any depth, is one that does not
/// count; a name that only holds that text is not.
pub proof fn git_is_found_at_any_depth(v: Seq<Seq<char>>)
    requires
        v.len() > 0,
        forall|k: int|
            0 <= k < v.len() ==> !(#[trigger] v[k]).contains('/') && !v[k].contains('\\'),
    ensures
        in_git(text::joined(v, "/"@)) <==> v.contains(".git"@),
{
    reveal_strlit("/");
    assert("/"@ =~= seq!['/']);
    let p = text::joined(v, "/"@);
    assert forall|i: int| 0 <= i < p.len() implies #[trigger] p[i] != '\\' by {
        text::lemma_joined_chars(v, "/"@, i);
        if !"/"@.contains(p[i]) {
            let k = choose|k: int| 0 <= k < v.len() && (#[trigger] v[k]).contains(p[i]);
            assert(!v[k].contains('\\'));
        } else {
            let j = choose|j: int| 0 <= j < "/"@.len() && "/"@[j] == p[i];
        }
    }
    assert(rel_of(p) =~= p);
    assert forall|k: int| 0 <= k < v.len() implies !(#[trigger] v[k]).contains('/') by {}
    text::lemma_pieces_joined(v, '/');
}

/// A hash is accepted exactly where it is the expected one, up to the case of its letters.
pub proof fn only_the_expected_hash_is_accepted(got: Seq<char>, expect: Seq<char>)
    ensures
        hash_error(got, expect) is None <==> text::lowered(got) == text::lowered(expect),
{
}

/// The body of a capped response, or why it is refused.
pub open spec fn capped_body(
    body: Result<Seq<u8>, Seq<char>>,
    max: u64,
    what: Seq<char>,
) -> Result<Seq<u8>, Seq<char>> {
    match body {
        Ok(b) => if b.len() > max {
            Err(what + "失败：响应体超过上限 "@ + text::decimal_text(max as nat) + " 字节"@)
        } else {
            Ok(b)
        },
        Err(m) => Err(what + "失败：读取响应出错: "@ + m),
    }
}

/// Whether a package is that of an entry.
pub open spec fn same_plugin(entry_name: Seq<char>, package_name: Seq<char>) -> bool {
    entry_name == package_name
}

/// A response up to the limit is taken whole, and a longer one is refused.
pub proof fn responses_up_to_the_limit_are_taken(b: Seq<u8>, max: u64, what: Seq<char>, e: Seq<char>)
    ensures
        b.len() <= max ==> capped_body(Ok(b), max, what) == Ok::<Seq<u8>, Seq<char>>(b),
        b.len() > max ==> capped_body(Ok(b), max, what) is Err,
        capped_body(Err(e), max, what) is Err,
        e.is_suffix_of(capped_body(Err(e), max, what)->Err_0),
        same_plugin(what, e) <==> what.len() == e.len() && forall|i: int|
            0 <= i < e.len() ==> what[i] == #[trigger] e[i],
{
    let m = capped_body(Err(e), max, what)->Err_0;
    assert(m.subrange(m.len() - e.len(), m.len() as int) =~= e);
    if what.len() == e.len() && forall|i: int| 0 <= i < e.len() ==> what[i] == #[trigger] e[i] {
        assert(what =~= e);
    }
}

/// A package has a hash to match exactly where the index gives one.
pub proof fn given_hashes_are_expected(entry: MarketEntry)
    ensures
        entry.content_hash@.len() > 0 ==> expected_hash(entry) == Some(entry.content_hash@),
        entry.content_hash@.len() == 0 ==> expected_hash(entry) is None,
{
}

/// The first entry with a name.
pub open spec fn entry_named(plugins: Seq<MarketEntry>, name: Seq<char>) -> Option<MarketEntry>
    decreases plugins.len(),
{
    if plugins.len() == 0 {
        None
    } else if plugins[0].name@ == name {
        Some(plugins[0])
    } else {
        entry_named(plugins.drop_first(), name)
    }
}

/// The entry that is installed for a name: one of a fresh index that is not withdrawn.
pub open spec fn installable(index: Result<MarketIndex, String>, name: Seq<char>) -> Option<
    MarketEntry,
> {
    match index {
        Err(_) => None,
        Ok(ix) => match entry_named(ix.plugins@, name) {
            Some(e) => if e.revoked {
                None
            } else {
                Some(e)
            },
            None => None,
        },
    }
}

proof fn lemma_entry_named(plugins: Seq<MarketEntry>, name: Seq<char>)
    ensures
        none_named(plugins, name) <==> entry_named(plugins, name) is None,
        forall|k: int| #[trigger]
            first_named(plugins, name, k) ==> entry_named(plugins, name) == Some(plugins[k]),
        entry_named(plugins, name) is Some ==> plugins.contains(entry_named(plugins, name)->0)
            && entry_named(plugins, name)->0.name@ == name,
    decreases plugins.len(),
{
    if plugins.len() > 0 {
        let rest = plugins.drop_first();
        lemma_entry_named(rest, name);
        assert forall|j: int| 0 <= j < rest.len() implies #[trigger] rest[j] == plugins[j + 1] by {
        }
        if plugins[0].name@ == name {
            assert(plugins.contains(plugins[0]));
        } else {
            if none_named(rest, name) {
                assert forall|j: int| 0 <= j < plugins.len() implies (
                #[trigger] plugins[j]).name@ != name by {
                    if j > 0 {
                        assert(rest[j - 1] == plugins[j]);
                    }
                }
            }
            if none_named(plugins, name) {
                assert forall|j: int| 0 <= j < rest.len() implies (#[trigger] rest[j]).name@
                    != name by {
                    assert(plugins[j + 1].name@ != name);
                }
            }
            assert forall|k: int| #[trigger] first_named(plugins, name, k) implies entry_named(
                plugins,
                name,
            ) == Some(plugins[k]) by {
                assert(k > 0);
                assert forall|j: int| 0 <= j < k - 1 implies (#[trigger] rest[j]).name@ != name by {
                    assert(plugins[j + 1].name@ != name);
                }
                assert(first_named(rest, name, k - 1));
            }
            if entry_named(plugins, name) is Some {
                let m = choose|m: int|
                    0 <= m < rest.len() && rest[m] == entry_named(plugins, name)->0;
                assert(plugins[m + 1] == rest[m]);
            }
        }
    }
}

/// What is installed stands in the index, has the name that was asked for and is not withdrawn.
/// An entry that alone has its name is installed unless it is withdrawn; without an index
/// nothing is.
pub proof fn only_offered_plugins_are_installed(
    index: Result<MarketIndex, String>,
    name: Seq<char>,
    k: int,
)
    ensures
        installable(index, name) is Some ==> {
            let e = installable(index, name)->0;
            &&& index is Ok
            &&& index->Ok_0.plugins@.contains(e)
            &&& e.name@ == name
            &&& !e.revoked
        },
        index is Ok && 0 <= k < index->Ok_0.plugins@.len() && index->Ok_0.plugins@[k].name@ == name
            && (forall|j: int|
            0 <= j < index->Ok_0.plugins@.len() && j != k ==> (
            #[trigger] index->Ok_0.plugins@[j]).name@ != name) ==> {
            let e = index->Ok_0.plugins@[k];
            installable(index, name) == if e.revoked {
                None
            } else {
                Some(e)
            }
        },
{
    if index is Ok {
        let plugins = index->Ok_0.plugins@;
        lemma_entry_named(plugins, name);
        if 0 <= k < plugins.len() && plugins[k].name@ == name && entry_named(plugins, name) is Some {
            let e = entry_named(plugins, name)->0;
            let m = choose|m: int| 0 <= m < plugins.len() && plugins[m] == e;
            assert(plugins[m].name@ == name);
        }
    }
}

/// Whether the page shows what was fetched, or else what was stored.
pub open spec fn is_listing(
    r: MarketView,
    fetched: Result<MarketIndex, String>,
    cached: Option<MarketIndex>,
) -> bool {
    &&& match fetched {
        Ok(ix) => r.origin@ == "remote"@ && r.error is None && r.plugins@ == ix.plugins@,
        Err(e) => r.error is Some && r.error->0@ == e@ && match cached {
            Some(ix) => r.origin@ == "cache"@ && r.plugins@ == ix.plugins@,
            None => r.origin@ == "none"@ && r.plugins@.len() == 0,
        },
    }
}

/// What was just fetched is shown and nothing stored takes its place; what is stored is shown
/// only as such, with the reason why nothing was fetched, and no entry is shown that is in
/// neither.
pub proof fn stored_entries_are_marked(
    r: MarketView,
    fetched: Result<MarketIndex, String>,
    cached: Option<MarketIndex>,
    k: int,
)
    requires
        is_listing(r, fetched, cached),
    ensures
        fetched is Ok ==> r.plugins@ == fetched->Ok_0.plugins@,
        r.error is None <==> fetched is Ok,
        r.origin@ == "remote"@ <==> fetched is Ok,
        r.origin@ == "cache"@ <==> fetched is Err && cached is Some,
        fetched is Err ==> r.error->0@ == fetched->Err_0@,
        fetched is Err && cached is Some ==> r.plugins@ == cached->0.plugins@,
        fetched is Err && cached is None ==> !(0 <= k < r.plugins@.len()),
{
    reveal_strlit("remote");
    reveal_strlit("cache");
    reveal_strlit("none");
    assert("remote"@.len() == 6 && "cache"@.len() == 5 && "none"@.len() == 4);
}

} // verus!
