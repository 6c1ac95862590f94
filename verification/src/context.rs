//! What the user was looking at before the host was called up.

use crate::path;
use crate::text;
use crate::utf16;
use crate::utf8;
use vstd::prelude::*;
use vstd::slice::slice_subrange;

verus! {

/// Where a window lies on the screen.
#[derive(Clone, Copy, PartialEq, Eq, Debug, Structural)]
pub struct WindowRect {
    pub left: i32,
    pub top: i32,
    pub right: i32,
    pub bottom: i32,
}

impl Default for WindowRect {
    fn default() -> (r: Self)
        ensures
            r == (WindowRect { left: 0, top: 0, right: 0, bottom: 0 }),
    {
        WindowRect { left: 0, top: 0, right: 0, bottom: 0 }
    }
}

/// A window that was in front.
#[derive(Debug)]
pub struct ActiveWindowInfo {
    /// The file name of the program; empty when unknown.
    pub app: String,
    pub title: String,
    pub class: String,
    /// The number of the window.
    pub hwnd: isize,
    pub rect: WindowRect,
}

/// The view of [`ActiveWindowInfo`].
#[verifier::ext_equal]
pub struct WindowView {
    pub app: Seq<char>,
    pub title: Seq<char>,
    pub class: Seq<char>,
    pub hwnd: isize,
    pub rect: WindowRect,
}

impl View for ActiveWindowInfo {
    type V = WindowView;

    open spec fn view(&self) -> WindowView {
        WindowView {
            app: self.app@,
            title: self.title@,
            class: self.class@,
            hwnd: self.hwnd,
            rect: self.rect,
        }
    }
}

impl Clone for ActiveWindowInfo {
    fn clone(&self) -> (r: Self)
        ensures
            r@ == self@,
    {
        ActiveWindowInfo {
            app: self.app.clone(),
            title: self.title.clone(),
            class: self.class.clone(),
            hwnd: self.hwnd,
            rect: self.rect,
        }
    }
}

/// Checks that a plugin may know of the window in front.
pub fn check_access(granted: bool) -> (r: Result<(), String>)
    ensures
        text::message_of(r) == (if granted {
            None
        } else {
            Some("插件未获授权读取当前窗口信息（请在「插件管理」里授权 context-read）"@)
        }),
{
    if granted {
        Ok(())
    } else {
        Err(
            text::owned(
                "插件未获授权读取当前窗口信息（请在「插件管理」里授权 context-read）",
            ),
        )
    }
}

// ---------------------------------------------------------------------------
// The window in front
// ---------------------------------------------------------------------------

/// What the system told of the window in front.
#[derive(Debug)]
pub struct Front {
    /// Whether there is one.
    pub found: bool,
    /// The number of its process; 0 when unknown.
    pub pid: u32,
    pub title: Vec<u16>,
    pub class: Vec<u16>,
    pub hwnd: isize,
    pub rect: Option<WindowRect>,
    /// The path of its program.
    pub image: Option<Vec<u16>>,
}

/// The file name of a program whose path is given in UTF-16.
pub open spec fn exe_name(image: Option<Seq<u16>>) -> Seq<char> {
    match image {
        None => Seq::empty(),
        Some(u) => match path::file_name(utf16::text_of(u)) {
            Some(n) => n,
            None => Seq::empty(),
        },
    }
}

/// The window in front, unless it belongs to the host itself.
pub open spec fn foreign(f: Front, own_pid: u32) -> Option<WindowView> {
    if !f.found || f.pid == 0 || f.pid == own_pid {
        None
    } else {
        Some(
            WindowView {
                app: exe_name(text::opt_view(f.image)),
                title: utf16::text_of(f.title@),
                class: utf16::text_of(f.class@),
                hwnd: f.hwnd,
                rect: match f.rect {
                    Some(r) => r,
                    None => WindowRect { left: 0, top: 0, right: 0, bottom: 0 },
                },
            },
        )
    }
}

fn process_exe_name(image: &Option<Vec<u16>>) -> (r: String)
    ensures
        r@ == exe_name(text::opt_view(*image)),
{
    let empty = text::string_of(&[]);
    assert(empty@ =~= Seq::<char>::empty());
    match image {
        None => empty,
        Some(u) => {
            let v = utf16::decode_lossy(u.as_slice());
            let whole = text::string_of(v.as_slice());
            match path::name_in(whole.as_str()) {
                Some(n) => text::string_of(n.as_slice()),
                None => empty,
            }
        },
    }
}

/// The window in front, unless it belongs to the host itself, see [`foreign`].
pub fn capture_if_foreign(f: &Front, own_pid: u32) -> (r: Option<ActiveWindowInfo>)
    ensures
        text::opt_view(r) == foreign(*f, own_pid),
{
    if !f.found || f.pid == 0 || f.pid == own_pid {
        return None;
    }
    let title = utf16::decode_lossy(f.title.as_slice());
    let class = utf16::decode_lossy(f.class.as_slice());
    let rect = match f.rect {
        Some(r) => r,
        None => WindowRect::default(),
    };
    Some(
        ActiveWindowInfo {
            app: process_exe_name(&f.image),
            title: text::string_of(title.as_slice()),
            class: text::string_of(class.as_slice()),
            hwnd: f.hwnd,
            rect,
        },
    )
}

/// The last window in front that did not belong to the host.
#[derive(Debug)]
pub struct Foreground {
    last: Option<ActiveWindowInfo>,
}

impl View for Foreground {
    type V = Option<WindowView>;

    closed spec fn view(&self) -> Option<WindowView> {
        text::opt_view(self.last)
    }
}

/// The window that counts: the one in front, or else the last one.
pub open spec fn target(last: Option<WindowView>, live: Option<WindowView>) -> Option<WindowView> {
    match live {
        Some(w) => Some(w),
        None => last,
    }
}

impl Foreground {
    pub fn new() -> (r: Self)
        ensures
            r@ == None::<WindowView>,
    {
        Foreground { last: None }
    }

    /// The window that counts, see [`target`].
    pub fn current_target(&self, live: Option<ActiveWindowInfo>) -> (r: Option<ActiveWindowInfo>)
        ensures
            text::opt_view(r) == target(self@, text::opt_view(live)),
    {
        match live {
            Some(w) => Some(w),
            None => match &self.last {
                Some(w) => Some(w.clone()),
                None => None,
            },
        }
    }
}

/// Notes the window in front; the host's own windows change nothing.
pub fn refresh_now(state: &mut Foreground, live: Option<ActiveWindowInfo>)
    ensures
        final(state)@ == target(old(state)@, text::opt_view(live)),
{
    if let Some(w) = live {
        state.last = Some(w);
    }
}

/// Whether the window that counts is as asked for, see [`is_match`]; without one it is not.
pub fn window_matches(
    state: &Foreground,
    live: Option<ActiveWindowInfo>,
    app: &str,
    title_pat: Option<&str>,
    class: Option<&str>,
) -> (r: bool)
    ensures
        r == (match target(state@, text::opt_view(live)) {
            Some(w) => is_match(w, app@, text::opt_str(title_pat), text::opt_str(class)),
            None => false,
        }),
{
    match state.current_target(live) {
        Some(w) => matches_snapshot(&w, app, title_pat, class),
        None => false,
    }
}

/// While the host is in front, what the user looked at before stays the window that counts.
pub proof fn own_windows_change_nothing(last: Option<WindowView>, f: Front, own_pid: u32)
    requires
        f.pid == own_pid,
    ensures
        target(last, foreign(f, own_pid)) == last,
{
}

// ---------------------------------------------------------------------------
// Matching a window
// ---------------------------------------------------------------------------

/// Whether a text has a match for a pattern; `None` when the pattern is none.
pub uninterp spec fn pattern_match(pattern: Seq<char>, s: Seq<char>) -> Option<bool>;

/// Looks for a pattern with `regex::Regex::new` and `regex::Regex::is_match`.
///
/// The answer depends on the pattern and the text alone.
#[verifier::external_body]
fn look_for(pattern: &str, s: &str) -> (r: Option<bool>)
    ensures
        r == pattern_match(pattern@, s@),
{
    regex::Regex::new(pattern).ok().map(|re| re.is_match(s))
}

/// Whether a window is as asked for: the program and the class whatever their case, an empty
/// program being any; the title by a pattern, one that is none matching nothing.
pub open spec fn is_match(
    w: WindowView,
    app: Seq<char>,
    title_pat: Option<Seq<char>>,
    class: Option<Seq<char>>,
) -> bool {
    matches_with(
        w,
        app,
        match title_pat {
            Some(p) => Some(pattern_match(p, w.title)),
            None => None,
        },
        class,
    )
}

/// Whether a window is as asked for, when it is known what the title's pattern gave: nothing
/// was asked, the pattern is none, or whether it has a match.
pub open spec fn matches_with(
    w: WindowView,
    app: Seq<char>,
    title: Option<Option<bool>>,
    class: Option<Seq<char>>,
) -> bool {
    &&& app.len() == 0 || text::same_nocase(w.app, app)
    &&& title is None || title->0 == Some(true)
    &&& class is None || text::same_nocase(w.class, class->0)
}

fn nocase(a: &str, b: &str) -> (r: bool)
    ensures
        r == text::same_nocase(a@, b@),
{
    let x = text::chars_of(a);
    let y = text::chars_of(b);
    text::eq_nocase(x.as_slice(), y.as_slice())
}

/// Whether a window is as asked for, see [`matches_with`].
pub fn matches_found(
    w: &ActiveWindowInfo,
    app: &str,
    title: Option<Option<bool>>,
    class: Option<&str>,
) -> (r: bool)
    ensures
        r == matches_with(w@, app@, title, text::opt_str(class)),
{
    if !app.is_empty() && !nocase(w.app.as_str(), app) {
        return false;
    }
    match title {
        Some(Some(found)) => if !found {
            return false;
        },
        Some(None) => {
            return false;
        },
        None => {},
    }
    match class {
        Some(c) => nocase(w.class.as_str(), c),
        None => true,
    }
}

/// Whether a window is as asked for, see [`is_match`].
pub fn matches_snapshot(
    w: &ActiveWindowInfo,
    app: &str,
    title_pat: Option<&str>,
    class: Option<&str>,
) -> (r: bool)
    ensures
        r == is_match(w@, app@, text::opt_str(title_pat), text::opt_str(class)),
{
    let title = match title_pat {
        Some(p) => Some(look_for(p, w.title.as_str())),
        None => None,
    };
    matches_found(w, app, title, class)
}

// ---------------------------------------------------------------------------
// Addresses of files
// ---------------------------------------------------------------------------

/// The value of a hexadecimal digit.
pub open spec fn digit_of(b: u8) -> Option<u8> {
    if 48 <= b <= 57 {
        Some((b - 48) as u8)
    } else if 97 <= b <= 102 {
        Some((b - 87) as u8)
    } else if 65 <= b <= 70 {
        Some((b - 55) as u8)
    } else {
        None
    }
}

/// The value of a hexadecimal digit, see [`digit_of`].
pub fn hex_val(b: u8) -> (r: Option<u8>)
    ensures
        r == digit_of(b),
{
    if 48 <= b && b <= 57 {
        Some(b - 48)
    } else if 97 <= b && b <= 102 {
        Some(b - 87)
    } else if 65 <= b && b <= 70 {
        Some(b - 55)
    } else {
        None
    }
}

/// Whether bytes start with a percent sign and two hexadecimal digits.
pub open spec fn is_escape(b: Seq<u8>) -> bool {
    b.len() >= 3 && b[0] == 37 && digit_of(b[1]) is Some && digit_of(b[2]) is Some
}

/// Bytes with every percent sign that has two hexadecimal digits behind it, and these, replaced
/// by the byte that they stand for.
pub open spec fn unescaped(b: Seq<u8>) -> Seq<u8>
    decreases b.len(),
{
    if b.len() == 0 {
        Seq::empty()
    } else if is_escape(b) {
        seq![(digit_of(b[1])->0 * 16 + digit_of(b[2])->0) as u8] + unescaped(b.skip(3))
    } else {
        seq![b[0]] + unescaped(b.skip(1))
    }
}

/// A text with its escapes replaced; what is then no UTF-8 becomes U+FFFD.
pub open spec fn percent_decoded(s: Seq<char>) -> Seq<char> {
    utf8::lossy(unescaped(vstd::utf8::encode_utf8(s)))
}

/// Replaces the escapes of a text, see [`percent_decoded`].
pub fn percent_decode(s: &str) -> (r: Vec<char>)
    ensures
        r@ == percent_decoded(s@),
{
    let b = s.as_bytes();
    let n: usize = b.len();
    let mut out: Vec<u8> = Vec::new();
    let mut i: usize = 0;
    assert(b@.skip(0) =~= b@);
    assert(out@ + unescaped(b@) =~= unescaped(b@));
    while i < n
        invariant
            n == b@.len(),
            i <= n,
            unescaped(b@) == out@ + unescaped(b@.skip(i as int)),
        decreases n - i,
    {
        let ghost t = b@.skip(i as int);
        let ghost before = out@;
        if b[i] == 37 && n - i >= 3 {
            if let Some(hi) = hex_val(b[i + 1]) {
                if let Some(lo) = hex_val(b[i + 2]) {
                    let v: u8 = hi * 16 + lo;
                    assert(t.skip(3) =~= b@.skip(i + 3));
                    let ghost left = unescaped(b@.skip(i + 3));
                    out.push(v);
                    assert(before + (seq![v] + left) =~= out@ + left);
                    i += 3;
                    continue ;
                }
            }
        }
        assert(t.skip(1) =~= b@.skip(i + 1));
        let ghost left = unescaped(b@.skip(i + 1));
        out.push(b[i]);
        assert(before + (seq![t[0]] + left) =~= out@ + left);
        i += 1;
    }
    assert(out@ + unescaped(b@.skip(i as int)) =~= out@);
    utf8::read_lossy(out.as_slice())
}

proof fn lemma_plain_unescaped(b: Seq<u8>)
    requires
        forall|k: int| 0 <= k < b.len() ==> b[k] != 37,
    ensures
        unescaped(b) == b,
    decreases b.len(),
{
    if b.len() > 0 {
        assert forall|k: int| 0 <= k < b.skip(1).len() implies b.skip(1)[k] != 37 by {
            assert(b.skip(1)[k] == b[k + 1]);
        }
        lemma_plain_unescaped(b.skip(1));
        assert(seq![b[0]] + b.skip(1) =~= b);
    }
}

/// A text whose bytes hold no percent sign stays as it is.
pub proof fn plain_addresses_stay(s: Seq<char>)
    requires
        forall|k: int|
            0 <= k < vstd::utf8::encode_utf8(s).len() ==> vstd::utf8::encode_utf8(s)[k] != 37,
    ensures
        percent_decoded(s) == s,
{
    lemma_plain_unescaped(vstd::utf8::encode_utf8(s));
    utf8::text_reads_back(s);
}

/// What stands behind the front of a file address.
pub open spec fn behind_scheme(url: Seq<char>) -> Option<Seq<char>> {
    if "file:///"@.is_prefix_of(url) {
        Some(url.skip("file:///"@.len() as int))
    } else if "file://"@.is_prefix_of(url) {
        Some(url.skip("file://"@.len() as int))
    } else {
        None
    }
}

/// The path that a file address stands for: on a drive, or else on a share.
pub open spec fn url_path(url: Seq<char>) -> Option<Seq<char>> {
    match behind_scheme(url) {
        None => None,
        Some(rest) => if rest.len() == 0 {
            None
        } else {
            let d = percent_decoded(rest);
            let p = text::replaced(d, '/', '\\');
            if d.len() >= 2 && (d[0] as int) < 0x80 && d[1] == ':' {
                Some(p)
            } else {
                Some("\\\\"@ + p)
            }
        },
    }
}

/// The path that a file address stands for, see [`url_path`].
pub fn file_url_to_path(url: &str) -> (r: Option<String>)
    ensures
        text::opt_view(r) == url_path(url@),
{
    let v = text::chars_of(url);
    let n: usize = if text::has_prefix(v.as_slice(), "file:///") {
        text::chars_of("file:///").len()
    } else if text::has_prefix(v.as_slice(), "file://") {
        text::chars_of("file://").len()
    } else {
        return None;
    };
    let rest = slice_subrange(v.as_slice(), n, v.len());
    assert(rest@ =~= url@.skip(n as int));
    if rest.len() == 0 {
        return None;
    }
    let inner = text::string_of(rest);
    let d = percent_decode(inner.as_str());
    let back = text::replace_char(d.as_slice(), '/', '\\');
    let p = text::string_of(back.as_slice());
    if d.len() >= 2 && d[0] < '\u{80}' && d[1] == ':' {
        Some(p)
    } else {
        Some(text::owned("\\\\").concat(p.as_str()))
    }
}

// ---------------------------------------------------------------------------
// Directories and addresses in the window
// ---------------------------------------------------------------------------

/// A window of the file manager, as the shell tells of it.
#[derive(Debug)]
pub struct ShellWindow {
    /// Its number, where it has one.
    pub hwnd: Option<isize>,
    /// What it shows, where that can be read.
    pub url: Option<String>,
}

/// Whether a window is one of the file manager.
pub fn is_explorer(w: &ActiveWindowInfo) -> (r: bool)
    ensures
        r == (w@.class == "CabinetWClass"@ || w@.class == "ExploreWClass"@),
{
    text::str_eq(w.class.as_str(), "CabinetWClass") || text::str_eq(
        w.class.as_str(),
        "ExploreWClass",
    )
}

/// The first window of a number.
pub open spec fn shell_window(v: Seq<ShellWindow>, hwnd: isize) -> Option<ShellWindow>
    decreases v.len(),
{
    if v.len() == 0 {
        None
    } else if v[0].hwnd == Some(hwnd) {
        Some(v[0])
    } else {
        shell_window(v.drop_first(), hwnd)
    }
}

/// The directory that a window of the file manager shows; nothing for other windows and for
/// what has no path.
pub open spec fn shown_folder(w: WindowView, v: Seq<ShellWindow>) -> Option<Seq<char>> {
    if w.class != "CabinetWClass"@ && w.class != "ExploreWClass"@ {
        None
    } else {
        match shell_window(v, w.hwnd) {
            Some(s) => match s.url {
                Some(u) => url_path(u@),
                None => None,
            },
            None => None,
        }
    }
}

/// The directory that a window shows, see [`shown_folder`].
pub fn folder_path_for(w: &ActiveWindowInfo, shells: &Vec<ShellWindow>) -> (r: Option<String>)
    ensures
        text::opt_view(r) == shown_folder(w@, shells@),
{
    if !is_explorer(w) {
        return None;
    }
    let mut i: usize = 0;
    assert(shells@.skip(0) =~= shells@);
    while i < shells.len()
        invariant
            i <= shells@.len(),
            shell_window(shells@, w.hwnd) == shell_window(shells@.skip(i as int), w.hwnd),
            w@.class == "CabinetWClass"@ || w@.class == "ExploreWClass"@,
        decreases shells@.len() - i,
    {
        assert(shells@.skip(i as int).drop_first() =~= shells@.skip(i + 1));
        assert(shells@.skip(i as int)[0] == shells@[i as int]);
        let same = match shells[i].hwnd {
            Some(h) => h == w.hwnd,
            None => false,
        };
        if same {
            return match &shells[i].url {
                Some(u) => file_url_to_path(u.as_str()),
                None => None,
            };
        }
        i += 1;
    }
    None
}

/// How the address field of a browser is found.
#[derive(Clone, Copy, PartialEq, Eq, Debug, Structural)]
pub enum AddressBarLocator {
    /// By the class `Chrome_OmniboxView`.
    OmniboxClass,
    /// By the id `urlbar-input`.
    UrlbarId,
}

/// How the address field of the browser that a window belongs to is found; nothing for other
/// programs.
pub fn address_bar(w: &ActiveWindowInfo) -> (r: Option<AddressBarLocator>)
    ensures
        r == ({
            let app = text::lowered(w@.app);
            if app == "chrome.exe"@ || app == "msedge.exe"@ {
                Some(AddressBarLocator::OmniboxClass)
            } else if app == "firefox.exe"@ {
                Some(AddressBarLocator::UrlbarId)
            } else {
                None
            }
        }),
{
    let v = text::chars_of(w.app.as_str());
    let low = text::to_lower(v.as_slice());
    let app = low.as_slice();
    if text::same(app, "chrome.exe") || text::same(app, "msedge.exe") {
        Some(AddressBarLocator::OmniboxClass)
    } else if text::same(app, "firefox.exe") {
        Some(AddressBarLocator::UrlbarId)
    } else {
        None
    }
}

/// The address in an address field: its text without the spaces around it, unless that is
/// empty.
pub fn address_of(field: Option<&str>) -> (r: Option<String>)
    ensures
        text::opt_view(r) == (match field {
            Some(s) => if text::trimmed(s@).len() == 0 {
                None
            } else {
                Some(text::trimmed(s@))
            },
            None => None,
        }),
{
    match field {
        Some(s) => {
            let t = text::trim_str(s);
            if t.len() == 0 {
                None
            } else {
                Some(text::string_of(t.as_slice()))
            }
        },
        None => None,
    }
}

/// The upper or lower case hexadecimal digit of a value below 16, as a byte.
pub open spec fn digit_byte(d: int, upper: bool) -> u8 {
    if d < 10 {
        (48 + d) as u8
    } else if upper {
        (55 + d) as u8
    } else {
        (87 + d) as u8
    }
}

/// Bytes, each as a percent sign and two hexadecimal digits.
pub open spec fn escaped(b: Seq<u8>, upper: bool) -> Seq<u8>
    decreases b.len(),
{
    if b.len() == 0 {
        Seq::empty()
    } else {
        seq![37u8, digit_byte(b[0] as int / 16, upper), digit_byte(b[0] as int % 16, upper)]
            + escaped(b.skip(1), upper)
    }
}

/// Every byte reads back from its escape, whatever the case of the digits.
pub proof fn escapes_read_back(b: Seq<u8>, upper: bool)
    ensures
        unescaped(escaped(b, upper)) == b,
    decreases b.len(),
{
    if b.len() > 0 {
        escapes_read_back(b.skip(1), upper);
        let e = escaped(b, upper);
        let n = b[0] as int;
        assert(n / 16 < 16 && n % 16 < 16 && 16 * (n / 16) + n % 16 == n);
        assert(e.skip(3) =~= escaped(b.skip(1), upper));
        assert(unescaped(e) == seq![b[0]] + b.skip(1));
        assert(seq![b[0]] + b.skip(1) =~= b);
    } else {
        assert(b =~= Seq::<u8>::empty());
    }
}

/// The address of a file on a drive, or on a share, stands for its path with backslashes. What
/// is no file address stands for none.
pub proof fn file_addresses_are_paths(p: Seq<char>, url: Seq<char>)
    requires
        p.len() > 0,
        forall|k: int|
            0 <= k < vstd::utf8::encode_utf8(p).len() ==> vstd::utf8::encode_utf8(p)[k] != 37,
    ensures
        p.len() >= 2 && text::is_letter(p[0]) && p[1] == ':' ==> {
            let found = url_path("file:///"@ + p);
            &&& found is Some
            &&& found->0.len() == p.len()
            &&& forall|i: int|
                0 <= i < p.len() ==> #[trigger] found->0[i] == if p[i] == '/' {
                    '\\'
                } else {
                    p[i]
                }
        },
        p[0] != '/' && !(p.len() >= 2 && p[1] == ':') ==> {
            let found = url_path("file://"@ + p);
            &&& found is Some
            &&& found->0.len() == p.len() + 2
            &&& found->0[0] == '\\'
            &&& found->0[1] == '\\'
            &&& forall|i: int|
                0 <= i < p.len() ==> #[trigger] found->0[i + 2] == if p[i] == '/' {
                    '\\'
                } else {
                    p[i]
                }
        },
        !"file://"@.is_prefix_of(url) ==> url_path(url) is None,
{
    reveal_strlit("file:///");
    reveal_strlit("file://");
    reveal_strlit("\\\\");
    plain_addresses_stay(p);
    let drive = "file:///"@ + p;
    let share = "file://"@ + p;
    assert(drive.subrange(0, 8) =~= "file:///"@);
    assert("file:///"@.is_prefix_of(drive));
    assert(drive.skip(8) =~= p);
    assert(share.subrange(0, 7) =~= "file://"@);
    assert("file://"@.is_prefix_of(share));
    assert(share.skip(7) =~= p);
    if p[0] != '/' {
        assert(share[7] == p[0]);
        if "file:///"@.is_prefix_of(share) {
            assert("file:///"@[7] == share.subrange(0, 8)[7]);
        }
    }
    if "file:///"@.is_prefix_of(url) {
        assert(url.subrange(0, 7) =~= "file://"@) by {
            assert(url.subrange(0, 8) =~= "file:///"@);
            assert forall|i: int| 0 <= i < 7 implies url.subrange(0, 7)[i] == "file://"@[i] by {
                assert(url.subrange(0, 8)[i] == "file:///"@[i]);
            }
        }
    }
}

/// A window matches its own program and class in any case of the letters, and any program where
/// none is named; it never matches another one, nor a title that the pattern does not find.
pub proof fn windows_match_what_they_are(
    w: WindowView,
    app: Seq<char>,
    title: Option<Option<bool>>,
    class: Option<Seq<char>>,
)
    ensures
        matches_with(w, w.app, None, Some(w.class)),
        matches_with(w, Seq::empty(), None, None),
        matches_with(w, app, title, class) ==> (app.len() == 0 || text::lowered(app)
            == text::lowered(w.app)) && (class is Some ==> text::lowered(class->0)
            == text::lowered(w.class)) && title != Some(None::<bool>) && title != Some(
            Some(false),
        ),
        text::lowered(app) == text::lowered(w.app) && class is None && title is None
            ==> matches_with(w, app, title, class),
        matches_with(w, app, None, class) ==> matches_with(w, app, Some(Some(true)), class),
{
}

/// The directory is that of the first window with the right number, where its address can be
/// read.
pub proof fn the_right_window_is_asked(w: WindowView, v: Seq<ShellWindow>, k: int)
    requires
        0 <= k < v.len(),
        v[k].hwnd == Some(w.hwnd),
        forall|j: int| 0 <= j < k ==> (#[trigger] v[j]).hwnd != Some(w.hwnd),
        w.class == "CabinetWClass"@ || w.class == "ExploreWClass"@,
    ensures
        shown_folder(w, v) == match v[k].url {
            Some(u) => url_path(u@),
            None => None,
        },
    decreases v.len(),
{
    if k > 0 {
        assert(v[0].hwnd != Some(w.hwnd));
        let t = v.drop_first();
        assert(t[k - 1] == v[k]);
        assert forall|j: int| 0 <= j < k - 1 implies (#[trigger] t[j]).hwnd != Some(w.hwnd) by {
            assert(t[j] == v[j + 1]);
        }
        the_right_window_is_asked(w, t, k - 1);
    }
}

/// The window in front is told where it is found and is that of another program, with the texts
/// that the system has for it; nothing is told of the windows of the host.
pub proof fn windows_of_others_are_told(f: Front, own_pid: u32)
    ensures
        foreign(f, own_pid) is Some <==> f.found && f.pid != 0 && f.pid != own_pid,
        foreign(f, own_pid) is Some ==> {
            let w = foreign(f, own_pid)->0;
            &&& w.hwnd == f.hwnd
            &&& utf16::is_text(f.title@) ==> utf16::units_of(w.title) == f.title@
            &&& utf16::is_text(f.class@) ==> utf16::units_of(w.class) == f.class@
            &&& f.rect is Some ==> w.rect == f.rect->0
            &&& f.image is None ==> w.app.len() == 0
        },
{
    utf16::text_units_are_exact(f.title@, Seq::empty());
    utf16::text_units_are_exact(f.class@, Seq::empty());
}

} // verus!
