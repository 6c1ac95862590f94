//! Links, credentials and requests for downloading from a plugin source.

use crate::codec;
use crate::install::source;
use crate::install::source::{check_ident, Forge, GitSource, SourceView, MARKET_HOST};
use crate::text;
use vstd::prelude::*;
use vstd::slice::slice_subrange;

verus! {

broadcast use vstd::seq_lib::group_seq_properties;

/// Seconds that fetching one manifest may take.
pub const META_TIMEOUT_SECS: u64 = 10;

/// Seconds that fetching an archive may take.
pub const ARCHIVE_TIMEOUT_SECS: u64 = 120;

/// The largest archive that is downloaded, in bytes.
pub const MAX_ARCHIVE_BYTES: u64 = 33_554_432;

/// The largest remote manifest that is read, in bytes.
pub const MAX_META_BYTES: u64 = 524_288;

/// What a download fetches: one file of the repository or a whole archive.
#[derive(Clone, Copy, PartialEq, Eq, Debug, Structural)]
pub enum Kind {
    Raw,
    Archive,
}

/// A file in a repository of github.com, in the terms that mirrors use.
#[derive(Debug)]
pub struct GhCoord {
    pub owner: String,
    pub repo: String,
    pub git_ref: String,
    pub path: String,
}

/// The mathematical content of a [`GhCoord`].
#[verifier::ext_equal]
pub struct CoordView {
    pub owner: Seq<char>,
    pub repo: Seq<char>,
    pub git_ref: Seq<char>,
    pub path: Seq<char>,
}

impl View for GhCoord {
    type V = CoordView;

    open spec fn view(&self) -> CoordView {
        CoordView {
            owner: self.owner@,
            repo: self.repo@,
            git_ref: self.git_ref@,
            path: self.path@,
        }
    }
}

/// A capped download, ready to be carried out.
#[derive(Debug)]
pub struct Request {
    pub kind: Kind,
    pub official_url: String,
    pub official_label: String,
    /// Where mirrors find the file; `None` keeps mirrors out.
    pub github: Option<GhCoord>,
    /// A header that authorises the request.
    pub auth: Option<(String, String)>,
    pub timeout_secs: u64,
    pub max_bytes: u64,
    pub what: String,
    pub expect_sha256: Option<String>,
}

// ---------------------------------------------------------------------------
// Links
// ---------------------------------------------------------------------------

impl SourceView {
    /// The style that the `host` field names; an unknown name counts as gitee.
    pub open spec fn forge(self) -> Forge {
        if self.host == "github"@ {
            Forge::GitHub
        } else if self.host == MARKET_HOST@ {
            Forge::Market
        } else {
            Forge::Gitee
        }
    }

    /// The domain, taken from the page address where the record has none.
    pub open spec fn real_host(self) -> Seq<char> {
        if self.domain.len() > 0 {
            self.domain
        } else {
            let rest = text::stripped_starts(self.page_url, "https://"@);
            rest.take(text::index_of(rest, '/') as int)
        }
    }

    pub open spec fn on_github(self) -> bool {
        self.forge() == Forge::GitHub && self.real_host() == "github.com"@
    }

    /// The revision to ask for; `HEAD` stands for the default branch.
    pub open spec fn git_ref(self) -> Seq<char> {
        if self.revision.len() == 0 {
            "HEAD"@
        } else {
            self.revision
        }
    }

    pub open spec fn coord(self, rel: Seq<char>) -> Option<CoordView> {
        if self.on_github() {
            Some(
                CoordView {
                    owner: self.owner,
                    repo: self.repo,
                    git_ref: self.git_ref(),
                    path: rel,
                },
            )
        } else {
            None
        }
    }

    pub open spec fn official_label(self) -> Seq<char> {
        self.real_host() + "（官方直连）"@
    }

    pub open spec fn archive_url(self) -> Seq<char> {
        match self.forge() {
            Forge::Gitee => "https://"@ + self.real_host() + "/"@ + self.owner + "/"@ + self.repo
                + "/repository/archive/"@ + self.git_ref() + ".zip"@,
            Forge::GitHub => if self.real_host() == "github.com"@ {
                "https://codeload.github.com/"@ + self.owner + "/"@ + self.repo + "/zip/"@
                    + self.git_ref()
            } else {
                "https://"@ + self.real_host() + "/"@ + self.owner + "/"@ + self.repo
                    + "/archive/"@ + self.git_ref() + ".zip"@
            },
            Forge::Market => Seq::empty(),
        }
    }

    pub open spec fn raw_url(self, rel: Seq<char>) -> Seq<char> {
        match self.forge() {
            Forge::GitHub => if self.real_host() == "github.com"@ {
                "https://raw.githubusercontent.com/"@ + self.owner + "/"@ + self.repo + "/"@
                    + self.git_ref() + "/"@ + rel
            } else {
                "https://"@ + self.real_host() + "/"@ + self.owner + "/"@ + self.repo + "/raw/"@
                    + self.git_ref() + "/"@ + rel
            },
            Forge::Gitee => "https://"@ + self.real_host() + "/"@ + self.owner + "/"@ + self.repo
                + "/raw/"@ + self.git_ref() + "/"@ + rel,
            Forge::Market => Seq::empty(),
        }
    }

    pub open spec fn manifest_rel(self) -> Seq<char> {
        if self.sub_path.len() == 0 {
            "plugin.json"@
        } else {
            self.sub_path + "/plugin.json"@
        }
    }

    /// The page address that may be opened, rebuilt from checked parts.
    pub open spec fn page(self, hosts: Seq<(Seq<char>, Forge)>) -> Result<Seq<char>, Seq<char>> {
        if self.forge() == Forge::Market {
            Err("这个插件来自插件市场，没有对应的代码仓库页面"@)
        } else if !source::has_host(hosts, self.real_host()) {
            Err(
                "该插件的安装记录指向未放行的域名 "@ + self.real_host()
                    + "，已拒绝打开（安装记录可能被篡改）"@,
            )
        } else if source::ident_error(self.owner, "用户名"@) is Some {
            Err(source::ident_error(self.owner, "用户名"@)->0)
        } else if source::ident_error(self.repo, "仓库名"@) is Some {
            Err(source::ident_error(self.repo, "仓库名"@)->0)
        } else {
            Ok("https://"@ + self.real_host() + "/"@ + self.owner + "/"@ + self.repo)
        }
    }

    /// The header that authorises a request: only github.com ever gets the token.
    pub open spec fn auth(self, token: Option<Seq<char>>) -> Option<(Seq<char>, Seq<char>)> {
        match token {
            Some(t) => if self.on_github() && text::trimmed(t).len() > 0 {
                Some(("Authorization"@, "Bearer "@ + text::trimmed(t)))
            } else {
                None
            },
            None => None,
        }
    }
}

/// The view of an optional header.
pub open spec fn header_view(h: Option<(String, String)>) -> Option<(Seq<char>, Seq<char>)> {
    match h {
        Some((k, v)) => Some((k@, v@)),
        None => None,
    }
}

impl GitSource {
    pub fn forge(&self) -> (r: Forge)
        ensures
            r == self@.forge(),
    {
        if text::str_eq(self.host.as_str(), "github") {
            Forge::GitHub
        } else if text::str_eq(self.host.as_str(), MARKET_HOST) {
            Forge::Market
        } else {
            Forge::Gitee
        }
    }

    /// Whether the plugin came from the market.
    pub fn is_market(&self) -> (r: bool)
        ensures
            r == (self@.forge() == Forge::Market),
    {
        self.forge() == Forge::Market
    }

    /// The real domain, see [`SourceView::real_host`].
    pub fn real_host(&self) -> (r: String)
        ensures
            r@ == self@.real_host(),
    {
        if !self.domain.as_str().is_empty() {
            return self.domain.clone();
        }
        proof {
            reveal_strlit("https://");
        }
        let page = text::chars_of(self.page_url.as_str());
        let rest = text::strip_starts(page.as_slice(), "https://");
        let i = text::find_char(rest, '/');
        let head = slice_subrange(rest, 0, i);
        assert(head@ == rest@.take(i as int));
        text::string_of(head)
    }

    fn on_github(&self) -> (r: bool)
        ensures
            r == self@.on_github(),
    {
        self.forge() == Forge::GitHub && text::str_eq(self.real_host().as_str(), "github.com")
    }

    /// Rebuilds the repository's page address; a recorded one is never trusted.
    pub fn verified_page_url(&self, allowed: &[(String, Forge)]) -> (r: Result<String, String>)
        ensures
            text::outcome(r) == self@.page(source::host_views(allowed@)),
    {
        if self.is_market() {
            return Err(text::owned("这个插件来自插件市场，没有对应的代码仓库页面"));
        }
        let host = self.real_host();
        if !source::is_allowed(allowed, host.as_str()) {
            return Err(
                text::owned("该插件的安装记录指向未放行的域名 ").concat(host.as_str()).concat(
                    "，已拒绝打开（安装记录可能被篡改）",
                ),
            );
        }
        if let Err(e) = check_ident(self.owner.as_str(), "用户名") {
            return Err(e);
        }
        if let Err(e) = check_ident(self.repo.as_str(), "仓库名") {
            return Err(e);
        }
        Ok(
            text::owned("https://").concat(host.as_str()).concat("/").concat(
                self.owner.as_str(),
            ).concat("/").concat(self.repo.as_str()),
        )
    }

    /// The revision to ask for.
    pub fn git_ref(&self) -> (r: &str)
        ensures
            r@ == self@.git_ref(),
    {
        if self.revision.as_str().is_empty() {
            "HEAD"
        } else {
            self.revision.as_str()
        }
    }

    /// Where mirrors find a file of this source: only sources on github.com have one.
    pub fn gh_coord(&self, rel: &str) -> (r: Option<GhCoord>)
        ensures
            text::opt_view(r) == self@.coord(rel@),
    {
        if !self.on_github() {
            return None;
        }
        Some(
            GhCoord {
                owner: self.owner.clone(),
                repo: self.repo.clone(),
                git_ref: text::owned(self.git_ref()),
                path: text::owned(rel),
            },
        )
    }

    /// The header that authorises a direct request; `token` is the configured GitHub token.
    pub fn auth_header(&self, token: Option<&str>) -> (r: Option<(String, String)>)
        ensures
            header_view(r) == self@.auth(text::opt_str(token)),
    {
        if !self.on_github() {
            return None;
        }
        match token {
            None => None,
            Some(t) => {
                let tok = text::trim_str(t);
                if tok.len() == 0 {
                    return None;
                }
                let tok = text::string_of(tok.as_slice());
                Some((text::owned("Authorization"), text::owned("Bearer ").concat(tok.as_str())))
            },
        }
    }

    /// How the official origin is shown to the user.
    pub fn official_label(&self) -> (r: String)
        ensures
            r@ == self@.official_label(),
    {
        self.real_host().concat("（官方直连）")
    }

    /// The link of the archive at its official origin.
    pub fn archive_url(&self) -> (r: String)
        ensures
            r@ == self@.archive_url(),
    {
        let host = self.real_host();
        let (owner, repo) = (self.owner.as_str(), self.repo.as_str());
        match self.forge() {
            Forge::Gitee => text::owned("https://").concat(host.as_str()).concat("/").concat(
                owner,
            ).concat("/").concat(repo).concat("/repository/archive/").concat(
                self.git_ref(),
            ).concat(".zip"),
            Forge::GitHub => {
                if text::str_eq(host.as_str(), "github.com") {
                    text::owned("https://codeload.github.com/").concat(owner).concat("/").concat(
                        repo,
                    ).concat("/zip/").concat(self.git_ref())
                } else {
                    text::owned("https://").concat(host.as_str()).concat("/").concat(
                        owner,
                    ).concat("/").concat(repo).concat("/archive/").concat(self.git_ref()).concat(
                        ".zip",
                    )
                }
            },
            Forge::Market => String::new(),
        }
    }

    /// The link of one file at its official origin; `rel` is relative to the repository root.
    pub fn raw_url(&self, rel: &str) -> (r: String)
        ensures
            r@ == self@.raw_url(rel@),
    {
        let host = self.real_host();
        let (owner, repo) = (self.owner.as_str(), self.repo.as_str());
        match self.forge() {
            Forge::GitHub => {
                if text::str_eq(host.as_str(), "github.com") {
                    text::owned("https://raw.githubusercontent.com/").concat(owner).concat(
                        "/",
                    ).concat(repo).concat("/").concat(self.git_ref()).concat("/").concat(rel)
                } else {
                    text::owned("https://").concat(host.as_str()).concat("/").concat(
                        owner,
                    ).concat("/").concat(repo).concat("/raw/").concat(self.git_ref()).concat(
                        "/",
                    ).concat(rel)
                }
            },
            Forge::Gitee => text::owned("https://").concat(host.as_str()).concat("/").concat(
                owner,
            ).concat("/").concat(repo).concat("/raw/").concat(self.git_ref()).concat("/").concat(
                rel,
            ),
            Forge::Market => String::new(),
        }
    }

    /// The path of the manifest inside the repository.
    pub fn manifest_rel(&self) -> (r: String)
        ensures
            r@ == self@.manifest_rel(),
    {
        if self.sub_path.as_str().is_empty() {
            text::owned("plugin.json")
        } else {
            self.sub_path.clone().concat("/plugin.json")
        }
    }
}

// ---------------------------------------------------------------------------
// Requests
// ---------------------------------------------------------------------------

/// The address with the gitee token as a parameter; other styles never get one.
pub open spec fn tokened(url: Seq<char>, forge: Forge, token: Option<Seq<char>>) -> Seq<char> {
    match token {
        Some(t) => if forge == Forge::Gitee && text::trimmed(t).len() > 0 {
            url + (if url.contains('?') {
                "&"@
            } else {
                "?"@
            }) + "access_token="@ + text::trimmed(t)
        } else {
            url
        },
        None => url,
    }
}

/// Adds the gitee token to an address; `token` is the configured one.
pub fn with_token(url: String, forge: Forge, token: Option<&str>) -> (r: String)
    ensures
        r@ == tokened(url@, forge, text::opt_str(token)),
{
    if forge != Forge::Gitee {
        return url;
    }
    match token {
        None => url,
        Some(t) => {
            let tok = text::trim_str(t);
            if tok.len() == 0 {
                return url;
            }
            let tok = text::string_of(tok.as_slice());
            let v = text::chars_of(url.as_str());
            let sep = if text::contains_char(v.as_slice(), '?') {
                "&"
            } else {
                "?"
            };
            url.concat(sep).concat("access_token=").concat(tok.as_str())
        },
    }
}

/// The address that a download of the given kind asks first.
pub open spec fn official_url(
    s: SourceView,
    kind: Kind,
    rel: Seq<char>,
    gitee_token: Option<Seq<char>>,
) -> Seq<char> {
    tokened(
        match kind {
            Kind::Raw => s.raw_url(rel),
            Kind::Archive => s.archive_url(),
        },
        s.forge(),
        gitee_token,
    )
}

/// What is told where a market plugin is to be downloaded from a repository.
pub open spec fn no_links(s: SourceView, what: Seq<char>) -> Seq<char> {
    what + "失败：「"@ + s.repo + "」来自插件市场，没有代码仓库地址。请在「插件市场」页更新它。"@
}

/// Whether a request asks for a file of a source, or for its archive.
pub open spec fn is_request(
    q: Request,
    s: SourceView,
    kind: Kind,
    rel: Seq<char>,
    github_token: Option<Seq<char>>,
    gitee_token: Option<Seq<char>>,
) -> bool {
    let auth = s.auth(github_token);
    &&& q.kind == kind
    &&& q.official_url@ == official_url(s, kind, rel, gitee_token)
    &&& q.official_label@ == s.official_label()
    &&& header_view(q.auth) == auth
    &&& text::opt_view(q.github) == if auth is Some {
        None
    } else {
        s.coord(rel)
    }
}

/// Prepares a capped download. Market sources have no links and are refused.
///
/// A request with an authorising header carries no mirror coordinates: a token goes to the
/// official origin or nowhere.
pub fn download_capped(
    source: &GitSource,
    kind: Kind,
    rel: &str,
    timeout_secs: u64,
    max: u64,
    what: &str,
    expect_sha256: Option<String>,
    github_token: Option<&str>,
    gitee_token: Option<&str>,
) -> (r: Result<Request, String>)
    ensures
        match r {
            Err(e) => source@.forge() == Forge::Market && e@ == no_links(source@, what@),
            Ok(q) => source@.forge() != Forge::Market && is_request(
                q,
                source@,
                kind,
                rel@,
                text::opt_str(github_token),
                text::opt_str(gitee_token),
            ) && q.timeout_secs == timeout_secs && q.max_bytes == max && q.what@ == what@
                && q.expect_sha256 == expect_sha256,
        },
{
    if source.is_market() {
        return Err(
            text::owned(what).concat("失败：「").concat(source.repo.as_str()).concat(
                "」来自插件市场，没有代码仓库地址。请在「插件市场」页更新它。",
            ),
        );
    }
    let auth = source.auth_header(github_token);
    let url = match kind {
        Kind::Raw => source.raw_url(rel),
        Kind::Archive => source.archive_url(),
    };
    let github = if auth.is_some() {
        None
    } else {
        source.gh_coord(rel)
    };
    Ok(
        Request {
            kind,
            official_url: with_token(url, source.forge(), gitee_token),
            official_label: source.official_label(),
            github,
            auth,
            timeout_secs,
            max_bytes: max,
            what: text::owned(what),
            expect_sha256,
        },
    )
}

/// A token goes to github.com alone: every other source sends no header, whatever is set.
pub proof fn token_reaches_github_only(s: SourceView, token: Option<Seq<char>>)
    requires
        s.real_host() != "github.com"@,
    ensures
        s.auth(token) is None,
        s.coord("plugin.json"@) is None,
{
}

/// The GitHub token never shows in an address: the addresses do not depend on any token
/// unless the source is built like gitee.
pub proof fn github_address_has_no_token(s: SourceView, kind: Kind, rel: Seq<char>, a: Option<
    Seq<char>,
>)
    requires
        s.forge() != Forge::Gitee,
    ensures
        official_url(s, kind, rel, a) == official_url(s, kind, rel, None),
{
}

/// Whether downloaded bytes are verified: `expect` is the digest that they must have, in
/// hexadecimal digits of any case. Without one they are not; with another one they are refused.
pub open spec fn digest_outcome(
    what: Seq<char>,
    bytes: Seq<u8>,
    expect: Option<Seq<char>>,
) -> Result<bool, Seq<char>> {
    match expect {
        None => Ok(false),
        Some(h) => if text::same_nocase(codec::hex_text(codec::sha256_of(bytes)), h) {
            Ok(true)
        } else {
            Err(what + "失败：下载内容的 SHA-256 与预期不符，已拒绝"@)
        },
    }
}

/// Holds downloaded bytes to the digest that a request expects, see [`digest_outcome`].
pub fn check_digest(what: &str, bytes: &[u8], expect: Option<&str>) -> (r: Result<bool, String>)
    ensures
        match r {
            Ok(v) => digest_outcome(what@, bytes@, text::opt_str(expect)) == Ok::<bool, Seq<char>>(
                v,
            ),
            Err(e) => digest_outcome(what@, bytes@, text::opt_str(expect)) == Err::<
                bool,
                Seq<char>,
            >(e@),
        },
{
    match expect {
        None => Ok(false),
        Some(h) => {
            let digest = codec::sha256(bytes);
            let shown = codec::hex(digest.as_slice());
            let a = text::chars_of(shown.as_str());
            let b = text::chars_of(h);
            if text::eq_nocase(a.as_slice(), b.as_slice()) {
                Ok(true)
            } else {
                Err(text::owned(what).concat("失败：下载内容的 SHA-256 与预期不符，已拒绝"))
            }
        },
    }
}

/// The links of a source name its owner, its repository and its revision, the default branch
/// where there is none, on its own host or on the hosts that serve github.com.
pub proof fn links_name_the_source(s: SourceView, rel: Seq<char>)
    requires
        s.forge() != Forge::Market,
    ensures
        ({
            let rev = if s.revision.len() == 0 {
                "HEAD"@
            } else {
                s.revision
            };
            let repo = s.owner + "/"@ + s.repo;
            let on_github = s.host == "github"@ && s.real_host() == "github.com"@;
            &&& on_github ==> s.archive_url() == "https://codeload.github.com/"@ + repo + "/zip/"@
                + rev
            &&& on_github ==> s.raw_url(rel) == "https://raw.githubusercontent.com/"@ + repo
                + "/"@ + rev + "/"@ + rel
            &&& !on_github ==> s.raw_url(rel) == "https://"@ + s.real_host() + "/"@ + repo
                + "/raw/"@ + rev + "/"@ + rel
            &&& !on_github && s.host == "github"@ ==> s.archive_url() == "https://"@
                + s.real_host() + "/"@ + repo + "/archive/"@ + rev + ".zip"@
            &&& s.host != "github"@ ==> s.archive_url() == "https://"@ + s.real_host() + "/"@
                + repo + "/repository/archive/"@ + rev + ".zip"@
            &&& s.domain.len() > 0 ==> s.real_host() == s.domain
            &&& s.sub_path.len() == 0 ==> s.manifest_rel() == "plugin.json"@
            &&& s.sub_path.len() > 0 ==> s.manifest_rel() == s.sub_path + "/plugin.json"@
        }),
{
    let rev = s.git_ref();
    let repo = s.owner + "/"@ + s.repo;
    assert("https://codeload.github.com/"@ + s.owner + "/"@ + s.repo + "/zip/"@ + rev
        =~= "https://codeload.github.com/"@ + repo + "/zip/"@ + rev);
    assert("https://raw.githubusercontent.com/"@ + s.owner + "/"@ + s.repo + "/"@ + rev + "/"@ + rel
        =~= "https://raw.githubusercontent.com/"@ + repo + "/"@ + rev + "/"@ + rel);
    assert("https://"@ + s.real_host() + "/"@ + s.owner + "/"@ + s.repo + "/raw/"@ + rev + "/"@
        + rel =~= "https://"@ + s.real_host() + "/"@ + repo + "/raw/"@ + rev + "/"@ + rel);
    assert("https://"@ + s.real_host() + "/"@ + s.owner + "/"@ + s.repo + "/archive/"@ + rev
        + ".zip"@ =~= "https://"@ + s.real_host() + "/"@ + repo + "/archive/"@ + rev + ".zip"@);
    assert("https://"@ + s.real_host() + "/"@ + s.owner + "/"@ + s.repo + "/repository/archive/"@
        + rev + ".zip"@ =~= "https://"@ + s.real_host() + "/"@ + repo + "/repository/archive/"@
        + rev + ".zip"@);
}

/// Bytes are verified exactly where a digest is expected and theirs is it, in any case of the
/// letters; with another digest they are refused, and without one they are taken unverified.
pub proof fn only_expected_bytes_are_verified(what: Seq<char>, bytes: Seq<u8>, expect: Seq<char>)
    ensures
        digest_outcome(what, bytes, None) == Ok::<bool, Seq<char>>(false),
        text::lowered(expect) == text::lowered(codec::hex_text(codec::sha256_of(bytes)))
            ==> digest_outcome(what, bytes, Some(expect)) == Ok::<bool, Seq<char>>(true),
        text::lowered(expect) != text::lowered(codec::hex_text(codec::sha256_of(bytes)))
            ==> digest_outcome(what, bytes, Some(expect)) is Err,
{
}

/// A token is added to an address of the gitee style alone, behind all that it holds, and an
/// empty one never.
pub proof fn tokens_stand_at_the_end(url: Seq<char>, forge: Forge, token: Seq<char>)
    requires
        token.len() > 0,
        !text::is_space(token[0]),
        !text::is_space(token.last()),
    ensures
        forge == Forge::Gitee ==> url.is_prefix_of(tokened(url, forge, Some(token))) && (
        "access_token="@ + token).is_suffix_of(tokened(url, forge, Some(token))) && tokened(
            url,
            forge,
            Some(token),
        ).len() == url.len() + 1 + "access_token="@.len() + token.len(),
        forge != Forge::Gitee ==> tokened(url, forge, Some(token)) == url,
        tokened(url, forge, None) == url,
        tokened(url, forge, Some(Seq::empty())) == url,
{
    reveal_strlit("&");
    reveal_strlit("?");
    text::lemma_trimmed_id(token);
    text::lemma_trimmed_id(Seq::empty());
    let t = tokened(url, forge, Some(token));
    let end = "access_token="@ + token;
    if forge == Forge::Gitee {
        assert(t.subrange(0, url.len() as int) =~= url);
        assert(t.subrange(t.len() - end.len(), t.len() as int) =~= end);
    }
}

/// A page is opened only of a repository on an allowed host, by its names, which leave no way to
/// another page; one of the market has none.
pub proof fn pages_are_those_of_the_repository(s: SourceView, hosts: Seq<(Seq<char>, Forge)>, i: int)
    requires
        s.page(hosts) is Ok,
    ensures
        source::has_host(hosts, s.real_host()),
        s.host != "market"@,
        s.page(hosts)->Ok_0 == "https://"@ + s.real_host() + "/"@ + s.owner + "/"@ + s.repo,
        0 <= i < s.owner.len() ==> s.owner[i] != '/' && s.owner[i] != '?' && s.owner[i] != '#',
        0 <= i < s.repo.len() ==> s.repo[i] != '/' && s.repo[i] != '?' && s.repo[i] != '#',
{
    reveal_strlit("github");
    reveal_strlit("market");
    assert("github"@.len() == 6 && "github"@[0] == 'g' && "market"@[0] == 'm');
    if 0 <= i < s.owner.len() {
        assert(source::ident_char(s.owner[i]));
    }
    if 0 <= i < s.repo.len() {
        assert(source::ident_char(s.repo[i]));
    }
}

/// A request with a token goes to the official address alone, and that of github.com; no mirror
/// is asked with it. Without one, a file of a repository there may come from a mirror.
pub proof fn mirrors_get_no_token(
    q: Request,
    s: SourceView,
    kind: Kind,
    rel: Seq<char>,
    github_token: Option<Seq<char>>,
    gitee_token: Option<Seq<char>>,
)
    requires
        is_request(q, s, kind, rel, github_token, gitee_token),
    ensures
        header_view(q.auth) is Some ==> q.github is None && s.real_host() == "github.com"@,
        q.github is Some ==> header_view(q.auth) is None && s.real_host() == "github.com"@,
        q.github is Some ==> {
            let c = q.github->0@;
            &&& c.owner == s.owner
            &&& c.repo == s.repo
            &&& c.path == rel
        },
        github_token is None && s.host == "github"@ && s.real_host() == "github.com"@
            ==> q.github is Some,
{
}

/// A token is sent as it is, without the white space around it, and only to github.com; one
/// that is blank is none.
pub proof fn blank_tokens_are_not_sent(s: SourceView, token: Seq<char>)
    ensures
        s.auth(None) is None,
        text::trimmed(token).len() == 0 ==> s.auth(Some(token)) is None,
        s.real_host() != "github.com"@ ==> s.auth(Some(token)) is None,
        s.host == "github"@ && s.real_host() == "github.com"@ && text::trimmed(token).len() > 0
            ==> s.auth(Some(token)) == Some(("Authorization"@, "Bearer "@ + text::trimmed(token))),
{
}

/// A source is on the host that its record names, and else on that of its page.
pub proof fn hosts_are_those_on_record(s: SourceView, host: Seq<char>, tail: Seq<char>)
    requires
        !host.contains('/'),
        host.len() > 0,
        s.page_url == "https://"@ + host + "/"@ + tail,
        !"https://"@.is_prefix_of(host + "/"@ + tail),
    ensures
        s.domain.len() > 0 ==> s.real_host() == s.domain,
        s.domain.len() == 0 ==> s.real_host() == host,
{
    reveal_strlit("https://");
    reveal_strlit("/");
    let rest = host + "/"@ + tail;
    assert(s.page_url =~= "https://"@ + rest);
    assert(s.page_url.subrange(0, 8) =~= "https://"@);
    assert(s.page_url.skip(8) =~= rest);
    assert(text::stripped_starts(rest, "https://"@) == rest);
    assert(text::stripped_starts(s.page_url, "https://"@) == rest);
    assert forall|j: int| 0 <= j < host.len() implies rest[j] != '/' by {
        assert(host.contains(host[j]));
        assert(rest[j] == host[j]);
    }
    assert(rest[host.len() as int] == '/');
    text::lemma_index_of_is(rest, '/', host.len());
    assert(rest.take(host.len() as int) =~= host);
}

} // verus!
