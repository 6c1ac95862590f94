//! Previews of installations, from an address or a package to what the user sees.

use crate::codec;
use crate::install::download;
use crate::install::download::{Kind, Request};
use crate::install::lock;
use crate::install::lock::LockFile;
use crate::install::package;
use crate::install::package::{Staged, StagedPackage};
use crate::install::source;
use crate::install::source::{Forge, GitSource};
use crate::install::staging;
use crate::install::staging::{InstallPreview, InstallStaging};
use crate::install::update;
use crate::manifest::PluginManifest;
use crate::text;
use vstd::prelude::*;

verus! {

/// A number in sixteen hexadecimal digits.
pub open spec fn sixteen_digits(n: u64) -> Seq<char> {
    codec::hex_text(codec::le_bytes(n as nat, 8).reverse())
}

fn hex16(n: u64) -> (r: String)
    ensures
        r@ == sixteen_digits(n),
{
    let mut low: Vec<u8> = Vec::new();
    codec::push_le(&mut low, n as u128, 8);
    let ghost all = codec::le_bytes(n as nat, 8);
    assert(low@ =~= all);
    let mut high: Vec<u8> = Vec::new();
    let mut i: usize = low.len();
    while i > 0
        invariant
            i <= low@.len(),
            low@ == all,
            high@ == all.reverse().take(all.len() - i),
        decreases i,
    {
        high.push(low[i - 1]);
        assert(high@ =~= all.reverse().take(all.len() - i + 1));
        i -= 1;
    }
    assert(all.reverse().take(all.len() as int) =~= all.reverse());
    codec::hex(high.as_slice())
}

/// The token of a preview, from the time in nanoseconds and a random number.
pub fn new_token(nanos: u64, random: u64) -> (r: String)
    ensures
        r@ == sixteen_digits(nanos) + sixteen_digits(random),
{
    let a = hex16(nanos);
    let b = hex16(random);
    a.concat(b.as_str())
}

/// Begins a preview from an address: parses it and says what to download.
pub fn preview_request(
    url: &str,
    extra_hosts: Option<&str>,
    github_token: Option<&str>,
    gitee_token: Option<&str>,
) -> (r: Result<(GitSource, Request), String>)
    ensures
        match source::parsed(url@, source::hosts_of(text::opt_str(extra_hosts))) {
            Err(e) => r is Err && r->Err_0@ == e,
            Ok(s) => match r {
                Err(e) => s.forge() == Forge::Market && e@ == download::no_links(
                    s,
                    "下载插件归档"@,
                ),
                Ok((src, q)) => {
                    &&& src@ == s
                    &&& s.forge() != Forge::Market
                    &&& download::is_request(
                        q,
                        s,
                        Kind::Archive,
                        ""@,
                        text::opt_str(github_token),
                        text::opt_str(gitee_token),
                    )
                    &&& q.timeout_secs == download::ARCHIVE_TIMEOUT_SECS
                    &&& q.max_bytes == download::MAX_ARCHIVE_BYTES
                    &&& q.timeout_secs == 2 * 60
                    &&& q.max_bytes == 32 * 1024 * 1024
                    &&& q.what@ == "下载插件归档"@
                    &&& q.expect_sha256 is None
                },
            },
        },
{
    let src = match source::parse_git_url(url, extra_hosts) {
        Ok(s) => s,
        Err(e) => {
            return Err(e);
        },
    };
    match download::download_capped(
        &src,
        Kind::Archive,
        "",
        download::ARCHIVE_TIMEOUT_SECS,
        download::MAX_ARCHIVE_BYTES,
        "下载插件归档",
        None,
        github_token,
        gitee_token,
    ) {
        Ok(q) => Ok((src, q)),
        Err(e) => Err(e),
    }
}

/// Begins a preview from a market package: the address tells its origin, the bytes are staged to
/// go below `dest`.
pub fn preview_from_market_package(
    bytes: Vec<u8>,
    dest: &str,
    source_url: &str,
    server_label: &str,
    extra_hosts: Option<&str>,
) -> (r: Result<(GitSource, Staged), String>)
    ensures
        match source::parsed(source_url@, source::hosts_of(text::opt_str(extra_hosts))) {
            Err(e) => r is Err && r->Err_0@ == e,
            Ok(s) => match package::market_package(bytes@, dest@) {
                Err(e) => r is Err && r->Err_0@ == e,
                Ok(p) => {
                    &&& r is Ok
                    &&& (r->Ok_0).0@ == s
                    &&& (r->Ok_0).1.is_package(p)
                    &&& (r->Ok_0).1.download_source@ == update::market_origin(server_label@)
                    &&& !(r->Ok_0).1.via_mirror
                    &&& !(r->Ok_0).1.hash_verified
                },
            },
        },
{
    let src = match source::parse_git_url(source_url, extra_hosts) {
        Ok(s) => s,
        Err(e) => {
            return Err(e);
        },
    };
    let label = update::market_label(server_label);
    match package::stage_from_bytes(bytes, dest, label.as_str()) {
        Ok(staged) => Ok((src, staged)),
        Err(e) => Err(e),
    }
}

/// Whether a preview tells how a package stands to what is installed: `prior` is the address
/// on record for the installed plugin of its name.
pub open spec fn compares(
    p: InstallPreview,
    name: Seq<char>,
    url: Seq<char>,
    installed: Seq<(String, String)>,
    prior: Option<Seq<char>>,
    builtins: Seq<String>,
) -> bool {
    &&& p.already_installed == (p.installed_version is Some)
    &&& match p.installed_version {
        Some(v) => exists|k: int|
            #[trigger] staging::first_installed(installed, name, k) && v@ == installed[k].1@,
        None => forall|j: int| 0 <= j < installed.len() ==> (#[trigger] installed[j]).0@ != name,
    }
    &&& p.same_source == (prior == Some(url))
    &&& p.is_builtin == lock::listed(builtins, name)
}

/// The address on record for a plugin.
pub open spec fn recorded_url(record: LockFile, name: Seq<char>) -> Option<Seq<char>> {
    if record.plugins@.dom().contains(name) {
        Some(record.plugins@[name].source.url@)
    } else {
        None
    }
}

/// Where a preview keeps its files, and when it was made.
#[derive(Debug)]
pub struct Place {
    pub token: String,
    /// The staging directory.
    pub dir: String,
    /// The checked package inside it.
    pub pkg: String,
    /// The time in nanoseconds since the epoch.
    pub now: u128,
}

/// What goes with a package besides its files.
#[derive(Debug)]
pub struct Extras {
    pub manifest: PluginManifest,
    pub logo: Option<String>,
    pub readme: Option<String>,
}

/// Completes a preview, whichever way the package came: checks it, shows it, and keeps it for
/// the confirmation. A package that is refused leaves what waits as it was.
pub fn preview_impl(
    waiting: &mut InstallStaging,
    place: Place,
    src: &GitSource,
    staged: Staged,
    extras: Extras,
    expect_content: Option<&str>,
    installed: &[(String, String)],
    record: &LockFile,
    builtins: &[String],
) -> (r: Result<InstallPreview, String>)
    ensures
        match package::package_error(
            staged.files,
            extras.manifest,
            text::opt_str(expect_content),
        ) {
            Some(e) => r is Err && r->Err_0@ == e && final(waiting)@ == old(waiting)@,
            None => {
                let name = extras.manifest.name@;
                &&& r is Ok
                &&& r->Ok_0.token@ == place.token@
                &&& staging::shows(
                    r->Ok_0,
                    (StagedPackage {
                        files: staged.files,
                        dirs: staged.dirs,
                        manifest: extras.manifest,
                        download_source: staged.download_source,
                        via_mirror: staged.via_mirror,
                        hash_verified: expect_content is Some || staged.hash_verified,
                    }),
                    src@,
                )
                &&& compares(
                    r->Ok_0,
                    name,
                    src.url@,
                    installed@,
                    recorded_url(*record, name),
                    builtins@,
                )
                &&& r->Ok_0.logo == extras.logo
                &&& text::opt_view(r->Ok_0.readme) == (match extras.readme {
                    Some(s) => Some(staging::clipped(s@)),
                    None => None,
                })
                &&& staging::holds(
                    old(waiting)@,
                    final(waiting)@,
                    r->Ok_0,
                    place.dir,
                    place.pkg,
                    place.now,
                )
            },
        },
{
    let pkg = match package::finish_stage(staged, extras.manifest, expect_content) {
        Ok(p) => p,
        Err(e) => {
            return Err(e);
        },
    };
    let prior = lock::prior_url(record, pkg.manifest.name.as_str());
    let prior_url = match &prior {
        Some(u) => Some(u.as_str()),
        None => None,
    };
    let preview = staging::build_preview(
        place.token.as_str(),
        &pkg,
        src,
        extras.logo,
        extras.readme,
        installed,
        prior_url,
        builtins,
    );
    staging::hold_preview(waiting, &preview, place.dir, place.pkg, place.now);
    Ok(preview)
}

/// A number reads back from its sixteen digits, so different times or random numbers give
/// different tokens.
pub proof fn tokens_differ(a: u64, b: u64, c: u64, d: u64)
    ensures
        sixteen_digits(a).len() == 16,
        sixteen_digits(a) + sixteen_digits(b) == sixteen_digits(c) + sixteen_digits(d) ==> a == c
            && b == d,
{
    lemma_sixteen(a);
    lemma_sixteen(b);
    lemma_sixteen(c);
    lemma_sixteen(d);
    let s = sixteen_digits(a) + sixteen_digits(b);
    let t = sixteen_digits(c) + sixteen_digits(d);
    if s == t {
        assert(s.take(16) =~= sixteen_digits(a));
        assert(t.take(16) =~= sixteen_digits(c));
        assert(s.skip(16) =~= sixteen_digits(b));
        assert(t.skip(16) =~= sixteen_digits(d));
        lemma_sixteen_equal(a, c);
        lemma_sixteen_equal(b, d);
    }
}

proof fn lemma_sixteen(n: u64)
    ensures
        sixteen_digits(n).len() == 16,
{
    codec::le_bytes_read_back(n as nat, 8);
}

proof fn lemma_sixteen_equal(a: u64, b: u64)
    requires
        sixteen_digits(a) == sixteen_digits(b),
    ensures
        a == b,
{
    codec::le_bytes_read_back(a as nat, 8);
    codec::le_bytes_read_back(b as nat, 8);
    let x = codec::le_bytes(a as nat, 8);
    let y = codec::le_bytes(b as nat, 8);
    assert forall|i: int| 0 <= i < 8 implies x[i] == y[i] by {
        codec::hex_reads_back(x.reverse(), 7 - i);
        codec::hex_reads_back(y.reverse(), 7 - i);
        assert(x.reverse()[7 - i] == x[i]);
        assert(y.reverse()[7 - i] == y[i]);
    }
    assert(x =~= y);
    assert(vstd::arithmetic::power::pow(256, 8) == 0x1_0000_0000_0000_0000int) by {
        reveal_with_fuel(vstd::arithmetic::power::pow, 9);
    }
    vstd::arithmetic::div_mod::lemma_small_mod(a as nat, 0x1_0000_0000_0000_0000nat);
    vstd::arithmetic::div_mod::lemma_small_mod(b as nat, 0x1_0000_0000_0000_0000nat);
}

/// A preview tells the version of the plugin that is installed under the name, where it is the
/// only one, and says that none is installed where none has the name. The source is the same
/// where the address on record is the one of the package.
pub proof fn installed_plugins_are_compared(
    p: InstallPreview,
    name: Seq<char>,
    url: Seq<char>,
    installed: Seq<(String, String)>,
    record: LockFile,
    builtins: Seq<String>,
    k: int,
)
    requires
        compares(p, name, url, installed, recorded_url(record, name), builtins),
    ensures
        0 <= k < installed.len() && installed[k].0@ == name ==> p.already_installed
            && p.installed_version is Some,
        0 <= k < installed.len() && installed[k].0@ == name && (forall|j: int|
            0 <= j < installed.len() && j != k ==> (#[trigger] installed[j]).0@ != name)
            ==> p.installed_version->0@ == installed[k].1@,
        (forall|j: int| 0 <= j < installed.len() ==> (#[trigger] installed[j]).0@ != name)
            ==> !p.already_installed && p.installed_version is None,
        p.same_source <==> record.plugins@.dom().contains(name)
            && record.plugins@[name].source.url@ == url,
{
    if p.installed_version is Some {
        let m = choose|m: int|
            #[trigger] staging::first_installed(installed, name, m) && p.installed_version->0@
                == installed[m].1@;
        assert(installed[m].0@ == name);
    }
}

} // verus!
