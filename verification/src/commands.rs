//! What plugin pages may ask of the host: sessions, permissions, routes and the rules of each
//! request.

use crate::audit;
use crate::audit::AuditLog;
use crate::codec;
use crate::path;
use crate::session::ActiveSession;
use crate::table::Table;
use crate::text;
use vstd::prelude::*;
use vstd::slice::slice_subrange;

verus! {

/// The label of the window that installed plugins run in.
pub const PLUGIN_WINDOW_LABEL: &'static str = "plugin";

/// The label of the window that plugins under development run in.
pub const DEV_WINDOW_LABEL: &'static str = "plugin-dev";

/// What stands in front of the id of a plugin under development.
pub const DEV_ID_PREFIX: &'static str = "dev:";

// ---------------------------------------------------------------------------
// Lists of names
// ---------------------------------------------------------------------------

/// A list without a name.
pub open spec fn without(v: Seq<Seq<char>>, name: Seq<char>) -> Seq<Seq<char>>
    decreases v.len(),
{
    if v.len() == 0 {
        Seq::empty()
    } else if v.last() == name {
        without(v.drop_last(), name)
    } else {
        without(v.drop_last(), name).push(v.last())
    }
}

fn drop_name(v: &Vec<String>, name: &str) -> (r: Vec<String>)
    ensures
        text::texts(r@) == without(text::texts(v@), name@),
{
    let ghost all = text::texts(v@);
    let mut out: Vec<String> = Vec::new();
    let mut i: usize = 0;
    assert(all.take(0) =~= Seq::<Seq<char>>::empty());
    assert(text::texts(out@) =~= Seq::<Seq<char>>::empty());
    while i < v.len()
        invariant
            i <= v@.len(),
            all == text::texts(v@),
            text::texts(out@) == without(all.take(i as int), name@),
        decreases v@.len() - i,
    {
        assert(all.take(i + 1).drop_last() =~= all.take(i as int));
        assert(all.take(i + 1).last() == v@[i as int]@);
        if !text::str_eq(v[i].as_str(), name) {
            let ghost before = out@;
            out.push(v[i].clone());
            assert(text::texts(out@) =~= text::texts(before).push(v@[i as int]@));
        }
        i += 1;
    }
    assert(all.take(i as int) =~= all);
    out
}

proof fn lemma_without(v: Seq<Seq<char>>, name: Seq<char>, other: Seq<char>)
    ensures
        !without(v, name).contains(name),
        other != name ==> (without(v, name).contains(other) <==> v.contains(other)),
    decreases v.len(),
{
    if v.len() > 0 {
        let t = v.drop_last();
        lemma_without(t, name, other);
        let w = without(v, name);
        let wt = without(t, name);
        if v.last() != name {
            assert(w.drop_last() =~= wt);
            assert forall|k: int| 0 <= k < w.len() implies w[k] != name by {
                if k < wt.len() {
                    assert(wt[k] == w[k]);
                    assert(wt.contains(wt[k]));
                }
            }
        }
        if other != name {
            if v.contains(other) {
                let k = choose|k: int| 0 <= k < v.len() && v[k] == other;
                if k < t.len() {
                    assert(t[k] == other);
                    let m = choose|m: int| 0 <= m < wt.len() && wt[m] == other;
                    assert(w[m] == other);
                } else {
                    assert(w[w.len() - 1] == other);
                }
            }
            if w.contains(other) {
                let k = choose|k: int| 0 <= k < w.len() && w[k] == other;
                if k < wt.len() {
                    assert(wt[k] == other);
                    let m = choose|m: int| 0 <= m < t.len() && t[m] == other;
                    assert(v[m] == other);
                } else {
                    assert(v[v.len() - 1] == other);
                }
            }
        }
    }
}

/// Whether a name stands in a list.
pub open spec fn lists(v: Seq<String>, name: Seq<char>) -> bool {
    text::texts(v).contains(name)
}

fn is_in(v: &Vec<String>, name: &str) -> (r: bool)
    ensures
        r == lists(v@, name@),
{
    let mut i: usize = 0;
    while i < v.len()
        invariant
            i <= v@.len(),
            forall|j: int| 0 <= j < i ==> #[trigger] text::texts(v@)[j] != name@,
        decreases v@.len() - i,
    {
        if text::str_eq(v[i].as_str(), name) {
            assert(text::texts(v@)[i as int] == name@);
            return true;
        }
        assert(text::texts(v@)[i as int] != name@);
        i += 1;
    }
    false
}

// ---------------------------------------------------------------------------
// Permissions
// ---------------------------------------------------------------------------

/// What the user decided about plugins. What was granted to plugins under development is kept
/// apart from what was granted to installed ones.
#[derive(Debug)]
pub struct PluginSettings {
    pub plugin_permissions: Table<Vec<String>>,
    pub dev_plugin_permissions: Table<Vec<String>>,
    pub disabled_plugins: Vec<String>,
}

/// The permissions that the manifests of plugins ask for now.
#[derive(Debug)]
pub struct Declared {
    pub installed: Table<Vec<String>>,
    pub dev: Table<Vec<String>>,
}

/// Whether a table lists a permission for a plugin.
pub open spec fn table_lists(
    m: Map<Seq<char>, Vec<String>>,
    id: Seq<char>,
    perm: Seq<char>,
) -> bool {
    m.dom().contains(id) && lists(m[id]@, perm)
}

/// Whether a session has a permission: its manifest asks for it now, and the user granted it,
/// both on the session's own side.
pub open spec fn granted(
    settings: PluginSettings,
    declared: Declared,
    session: (Seq<char>, bool),
    perm: Seq<char>,
) -> bool {
    if session.1 {
        table_lists(declared.dev@, session.0, perm) && table_lists(
            settings.dev_plugin_permissions@,
            session.0,
            perm,
        )
    } else {
        table_lists(declared.installed@, session.0, perm) && table_lists(
            settings.plugin_permissions@,
            session.0,
            perm,
        )
    }
}

fn table_has(t: &Table<Vec<String>>, id: &str, perm: &str) -> (r: bool)
    ensures
        r == table_lists(t@, id@, perm@),
{
    match t.get(id) {
        Some(v) => is_in(v, perm),
        None => false,
    }
}

fn has_permission(
    settings: &PluginSettings,
    declared: &Declared,
    session: &ActiveSession,
    perm: &str,
) -> (r: bool)
    ensures
        r == granted(*settings, *declared, session@, perm@),
{
    let id = session.id.as_str();
    if session.dev {
        table_has(&declared.dev, id, perm) && table_has(&settings.dev_plugin_permissions, id, perm)
    } else {
        table_has(&declared.installed, id, perm) && table_has(
            &settings.plugin_permissions,
            id,
            perm,
        )
    }
}

/// Decides whether a session has a permission, see [`granted`], and notes the decision in the
/// audit log, whether it is allowed or not. There is no other way to decide.
pub fn plugin_granted(
    log: &mut AuditLog,
    settings: &PluginSettings,
    declared: &Declared,
    session: &ActiveSession,
    perm: &str,
    now: u64,
) -> (r: bool)
    ensures
        r == granted(*settings, *declared, session@, perm@),
        final(log)@ == audit::recorded(old(log)@, session@, perm@, r, now),
        audit::shows_first(final(log)@, session@, perm@, r),
{
    let allowed = has_permission(settings, declared, session, perm);
    audit::record(log, session, perm, allowed, now);
    proof {
        audit::calls_are_never_lost(old(log)@, session@, perm@, allowed, now);
    }
    allowed
}

impl PluginSettings {
    pub fn new() -> (r: Self)
        ensures
            r.plugin_permissions@ == Map::<Seq<char>, Vec<String>>::empty(),
            r.dev_plugin_permissions@ == Map::<Seq<char>, Vec<String>>::empty(),
            r.disabled_plugins@ == Seq::<String>::empty(),
    {
        PluginSettings {
            plugin_permissions: Table::new(),
            dev_plugin_permissions: Table::new(),
            disabled_plugins: Vec::new(),
        }
    }

    /// Grants a permission to an installed plugin, or takes it back.
    pub fn set_plugin_permission(&mut self, name: &str, perm: &str, granted: bool)
        ensures
            final(self).dev_plugin_permissions == old(self).dev_plugin_permissions,
            final(self).disabled_plugins == old(self).disabled_plugins,
            final(self).plugin_permissions@.dom() == old(self).plugin_permissions@.dom().insert(
                name@,
            ),
            forall|n: Seq<char>|
                n != name@ && old(self).plugin_permissions@.dom().contains(n) ==> #[trigger] final(self).plugin_permissions@[n] == old(self).plugin_permissions@[n],
            text::texts(final(self).plugin_permissions@[name@]@) == ({
                let had = if old(self).plugin_permissions@.dom().contains(name@) {
                    text::texts(old(self).plugin_permissions@[name@]@)
                } else {
                    Seq::empty()
                };
                if granted {
                    without(had, perm@).push(perm@)
                } else {
                    without(had, perm@)
                }
            }),
    {
        let none: Vec<String> = Vec::new();
        assert(text::texts(none@) =~= Seq::<Seq<char>>::empty());
        let mut list = match self.plugin_permissions.get(name) {
            Some(v) => drop_name(v, perm),
            None => {
                assert(without(Seq::empty(), perm@) =~= Seq::<Seq<char>>::empty());
                none
            },
        };
        if granted {
            let ghost before = list@;
            list.push(text::owned(perm));
            assert(text::texts(list@) =~= text::texts(before).push(perm@));
        }
        self.plugin_permissions.insert(text::owned(name), list);
        assert(self.plugin_permissions@.dom() =~= old(self).plugin_permissions@.dom().insert(name@));
    }

    /// Turns a plugin on or off.
    pub fn set_plugin_enabled(&mut self, name: &str, enabled: bool)
        ensures
            final(self).plugin_permissions == old(self).plugin_permissions,
            final(self).dev_plugin_permissions == old(self).dev_plugin_permissions,
            text::texts(final(self).disabled_plugins@) == (if enabled {
                without(text::texts(old(self).disabled_plugins@), name@)
            } else {
                without(text::texts(old(self).disabled_plugins@), name@).push(name@)
            }),
    {
        let mut list = drop_name(&self.disabled_plugins, name);
        if !enabled {
            let ghost before = list@;
            list.push(text::owned(name));
            assert(text::texts(list@) =~= text::texts(before).push(name@));
        }
        self.disabled_plugins = list;
    }

    /// Forgets what the user decided about a plugin that was deleted.
    pub fn forget_plugin(&mut self, name: &str)
        ensures
            final(self).plugin_permissions@ == old(self).plugin_permissions@.remove(name@),
            final(self).dev_plugin_permissions == old(self).dev_plugin_permissions,
            text::texts(final(self).disabled_plugins@) == without(
                text::texts(old(self).disabled_plugins@),
                name@,
            ),
    {
        let list = drop_name(&self.disabled_plugins, name);
        self.disabled_plugins = list;
        self.plugin_permissions.remove(name);
    }
}

/// What was granted to a plugin under development gives an installed one nothing, and the
/// other way round: the answer for one side depends on that side's tables alone.
pub proof fn permission_sides_are_apart(
    a: PluginSettings,
    b: PluginSettings,
    declared: Declared,
    session: (Seq<char>, bool),
    perm: Seq<char>,
)
    requires
        session.1 ==> a.dev_plugin_permissions@ == b.dev_plugin_permissions@,
        !session.1 ==> a.plugin_permissions@ == b.plugin_permissions@,
    ensures
        granted(a, declared, session, perm) == granted(b, declared, session, perm),
{
}

/// No grant helps a plugin whose manifest does not ask for the permission.
pub proof fn undeclared_is_never_granted(
    settings: PluginSettings,
    declared: Declared,
    session: (Seq<char>, bool),
    perm: Seq<char>,
)
    requires
        session.1 ==> !table_lists(declared.dev@, session.0, perm),
        !session.1 ==> !table_lists(declared.installed@, session.0, perm),
    ensures
        !granted(settings, declared, session, perm),
{
}

/// A permission that was taken back is not granted; one that was given is, where the manifest
/// asks for it.
pub proof fn permission_follows_the_user(
    had: Seq<Seq<char>>,
    perm: Seq<char>,
    other: Seq<char>,
)
    ensures
        !without(had, perm).contains(perm),
        without(had, perm).push(perm).contains(perm),
        other != perm ==> (without(had, perm).contains(other) <==> had.contains(other)),
        other != perm ==> (without(had, perm).push(perm).contains(other) <==> had.contains(other)),
{
    lemma_without(had, perm, other);
    let w = without(had, perm);
    let p = w.push(perm);
    assert(p[p.len() - 1] == perm);
    if other != perm {
        if w.contains(other) {
            let k = choose|k: int| 0 <= k < w.len() && w[k] == other;
            assert(p[k] == other);
        }
        if p.contains(other) {
            let k = choose|k: int| 0 <= k < p.len() && p[k] == other;
            assert(w[k] == other);
        }
    }
}

/// A plugin that comes under the name of a deleted one has none of its permissions.
pub proof fn deleted_plugins_leave_no_grants(
    before: Map<Seq<char>, Vec<String>>,
    name: Seq<char>,
    perm: Seq<char>,
)
    ensures
        !table_lists(before.remove(name), name, perm),
{
}

// ---------------------------------------------------------------------------
// Sessions and entries, window by window
// ---------------------------------------------------------------------------

/// With what a plugin was opened.
#[derive(Debug)]
pub struct EnterInfo {
    pub code: String,
    pub kind: String,
    pub query: String,
    pub plugin_id: String,
}

/// The view of [`EnterInfo`].
#[verifier::ext_equal]
pub struct EnterView {
    pub code: Seq<char>,
    pub kind: Seq<char>,
    pub query: Seq<char>,
    pub plugin_id: Seq<char>,
}

impl View for EnterInfo {
    type V = EnterView;

    open spec fn view(&self) -> EnterView {
        EnterView {
            code: self.code@,
            kind: self.kind@,
            query: self.query@,
            plugin_id: self.plugin_id@,
        }
    }
}

impl Clone for EnterInfo {
    fn clone(&self) -> (r: Self)
        ensures
            r@ == self@,
    {
        EnterInfo {
            code: self.code.clone(),
            kind: self.kind.clone(),
            query: self.query.clone(),
            plugin_id: self.plugin_id.clone(),
        }
    }
}

/// Which plugin runs in which window, and with what each was opened.
#[derive(Debug)]
pub struct PluginWindows {
    sessions: Table<ActiveSession>,
    pending: Table<EnterInfo>,
    last: Table<EnterInfo>,
}

impl PluginWindows {
    /// The sessions by the labels of their windows.
    pub closed spec fn sessions(&self) -> Map<Seq<char>, ActiveSession> {
        self.sessions@
    }

    /// What waits to be taken by a window.
    pub closed spec fn pending(&self) -> Map<Seq<char>, EnterInfo> {
        self.pending@
    }

    /// What a window was last opened with.
    pub closed spec fn last(&self) -> Map<Seq<char>, EnterInfo> {
        self.last@
    }

    pub fn new() -> (r: Self)
        ensures
            r.sessions() == Map::<Seq<char>, ActiveSession>::empty(),
            r.pending() == Map::<Seq<char>, EnterInfo>::empty(),
            r.last() == Map::<Seq<char>, EnterInfo>::empty(),
    {
        PluginWindows { sessions: Table::new(), pending: Table::new(), last: Table::new() }
    }

    /// Notes which plugin runs in a window.
    pub fn set_session(&mut self, label: &str, session: ActiveSession)
        ensures
            final(self).sessions() == old(self).sessions().insert(label@, session),
            final(self).pending() == old(self).pending(),
            final(self).last() == old(self).last(),
    {
        self.sessions.insert(text::owned(label), session);
    }

    /// The plugin that runs in a window.
    pub fn session_for(&self, label: &str) -> (r: Option<ActiveSession>)
        ensures
            match r {
                Some(s) => self.sessions().dom().contains(label@) && s@
                    == self.sessions()[label@]@,
                None => !self.sessions().dom().contains(label@),
            },
    {
        match self.sessions.get(label) {
            Some(s) => Some(s.clone()),
            None => None,
        }
    }

    /// The plugin that a request comes from, by the window it comes from.
    pub fn caller_session(&self, label: &str) -> (r: Result<ActiveSession, String>)
        ensures
            match r {
                Ok(s) => self.sessions().dom().contains(label@) && s@ == self.sessions()[label@]@,
                Err(e) => !self.sessions().dom().contains(label@) && e@ == "没有正在运行的插件"@,
            },
    {
        match self.session_for(label) {
            Some(s) => Ok(s),
            None => Err(text::owned("没有正在运行的插件")),
        }
    }

    /// Notes with what a window is opened.
    pub fn set_enter(&mut self, label: &str, info: EnterInfo)
        ensures
            final(self).sessions() == old(self).sessions(),
            final(self).pending().dom() == old(self).pending().dom().insert(label@),
            final(self).last().dom() == old(self).last().dom().insert(label@),
            final(self).pending()[label@]@ == info@,
            final(self).last()[label@]@ == info@,
            forall|l: Seq<char>|
                l != label@ && old(self).pending().dom().contains(l) ==> #[trigger] final(self).pending()[l] == old(self).pending()[l],
            forall|l: Seq<char>|
                l != label@ && old(self).last().dom().contains(l) ==> #[trigger] final(self).last()[l] == old(self).last()[l],
    {
        self.last.insert(text::owned(label), info.clone());
        self.pending.insert(text::owned(label), info);
        assert(self.pending@.dom() =~= old(self).pending@.dom().insert(label@));
        assert(self.last@.dom() =~= old(self).last@.dom().insert(label@));
    }

    /// Takes with what a window was opened; it is gone then.
    pub fn take_enter(&mut self, label: &str) -> (r: Option<EnterInfo>)
        ensures
            final(self).sessions() == old(self).sessions(),
            final(self).last() == old(self).last(),
            final(self).pending() == old(self).pending().remove(label@),
            match r {
                Some(e) => old(self).pending().dom().contains(label@) && e
                    == old(self).pending()[label@],
                None => !old(self).pending().dom().contains(label@),
            },
    {
        self.pending.remove(label)
    }

    /// Puts back with what a window was last opened, for a page that is loaded anew.
    pub fn reseed_enter(&mut self, label: &str)
        ensures
            final(self).sessions() == old(self).sessions(),
            final(self).last() == old(self).last(),
            !old(self).last().dom().contains(label@) ==> final(self).pending() == old(self).pending(),
            old(self).last().dom().contains(label@) ==> {
                &&& final(self).pending().dom() == old(self).pending().dom().insert(label@)
                &&& final(self).pending()[label@]@ == old(self).last()[label@]@
                &&& forall|l: Seq<char>|
                    l != label@ && old(self).pending().dom().contains(l) ==> #[trigger] final(self).pending()[l] == old(self).pending()[l]
            },
    {
        let info = match self.last.get(label) {
            Some(e) => e.clone(),
            None => {
                return ;
            },
        };
        self.pending.insert(text::owned(label), info);
        assert(self.pending@.dom() =~= old(self).pending@.dom().insert(label@));
    }
}

// ---------------------------------------------------------------------------
// Opening a plugin
// ---------------------------------------------------------------------------

/// Where a target leads.
#[derive(Debug)]
pub enum Route {
    /// An installed plugin: its id and the code of the feature.
    Installed(String, String),
    /// A plugin under development.
    Dev(String, String),
}

/// The view of [`Route`].
pub enum RouteView {
    Installed(Seq<char>, Seq<char>),
    Dev(Seq<char>, Seq<char>),
}

impl View for Route {
    type V = RouteView;

    open spec fn view(&self) -> RouteView {
        match self {
            Route::Installed(i, c) => RouteView::Installed(i@, c@),
            Route::Dev(i, c) => RouteView::Dev(i@, c@),
        }
    }
}

/// Where a target leads: `id#code`, with `dev:` in front for a plugin under development.
pub open spec fn route_of(target: Seq<char>) -> Result<RouteView, Seq<char>> {
    match text::cut_char(target, '#') {
        None => Err("非法插件目标（缺 #code）"@),
        Some((id, code)) => if DEV_ID_PREFIX@.is_prefix_of(id) {
            Ok(RouteView::Dev(id.skip(DEV_ID_PREFIX@.len() as int), code))
        } else {
            Ok(RouteView::Installed(id, code))
        },
    }
}

/// Where a target leads, see [`route_of`].
pub fn route(target: &str) -> (r: Result<Route, String>)
    ensures
        text::outcome(r) == route_of(target@),
{
    let v = text::chars_of(target);
    match text::split_once_char(v.as_slice(), '#') {
        None => Err(text::owned("非法插件目标（缺 #code）")),
        Some((id, code)) => {
            let code = text::string_of(code);
            if text::has_prefix(id, DEV_ID_PREFIX) {
                let n: usize = text::chars_of(DEV_ID_PREFIX).len();
                let bare = slice_subrange(id, n, id.len());
                assert(bare@ =~= id@.skip(n as int));
                Ok(Route::Dev(text::string_of(bare), code))
            } else {
                Ok(Route::Installed(text::string_of(id), code))
            }
        },
    }
}

/// The width of a plugin window for which no size was noted.
pub const DEFAULT_WINDOW_WIDTH: u32 = 960;

/// The height of a plugin window for which no size was noted.
pub const DEFAULT_WINDOW_HEIGHT: u32 = 660;

/// The least width of a plugin window.
pub const MIN_WINDOW_WIDTH: u32 = 360;

/// The least height of a plugin window.
pub const MIN_WINDOW_HEIGHT: u32 = 240;

/// How an installed plugin is opened.
#[derive(Debug)]
pub struct OpenPlan {
    pub session: ActiveSession,
    pub enter: EnterInfo,
    pub url: String,
    /// The title of a new window.
    pub title: String,
    /// Whether the size of the window is first noted for the plugin that ran in it.
    pub note_size_for: Option<ActiveSession>,
    /// Whether the window that is there is used again.
    pub reuse: bool,
    /// Whether the window that is there gets the size noted for this plugin.
    pub resize: bool,
    /// Whether a new window gets the size noted for this plugin, else the default one.
    pub noted_size: bool,
    /// Whether the window is shown and takes the focus.
    pub show: bool,
}

/// Plans how an installed plugin is opened.
///
/// `has_page` says whether the plugin has a page, `kind` by what it was found, `window` whether
/// the window is open, `running` what runs in it, and `has_size` whether a size was noted for
/// the plugin.
pub fn open_plan(
    id: &str,
    code: &str,
    query: &str,
    kind: &str,
    hidden: bool,
    has_page: bool,
    window: bool,
    running: Option<ActiveSession>,
    has_size: bool,
) -> (r: Result<OpenPlan, String>)
    ensures
        match r {
            Ok(p) => has_page && p.url@ == page_address(id@) && (p.reuse, p.resize, p.noted_size, p.show)
                == window_steps(window, has_size, hidden) && (p.note_size_for is Some)
                == notes_size(
                window,
                match running {
                    Some(s) => Some(s@),
                    None => None,
                },
                id@,
            ),
            Err(_) => !has_page,
        },
        match r {
            Err(e) => !has_page && e@ == "插件不存在或缺 index.html: "@ + id@,
            Ok(p) => {
                &&& has_page
                &&& p.session@ == (id@, false)
                &&& p.enter@ == (EnterView {
                    code: code@,
                    kind: kind@,
                    query: query@,
                    plugin_id: id@,
                })
                &&& p.url@ == "http://itplugin.localhost/"@ + id@ + "/index.html"@
                &&& p.title@ == id@ + " - iTools 插件"@
                &&& p.note_size_for == (if window && running is Some && running->0@.0 != id@ {
                    running
                } else {
                    None
                })
                &&& p.reuse == window
                &&& p.resize == (window && has_size)
                &&& p.noted_size == (!window && has_size)
                &&& p.show == !hidden
            },
        },
{
    if !has_page {
        return Err(text::owned("插件不存在或缺 index.html: ").concat(id));
    }
    let note_size_for = match running {
        Some(prev) => if window && !text::str_eq(prev.id.as_str(), id) {
            Some(prev)
        } else {
            None
        },
        None => None,
    };
    Ok(
        OpenPlan {
            session: ActiveSession { id: text::owned(id), dev: false },
            enter: EnterInfo {
                code: text::owned(code),
                kind: text::owned(kind),
                query: text::owned(query),
                plugin_id: text::owned(id),
            },
            url: text::owned("http://itplugin.localhost/").concat(id).concat("/index.html"),
            title: text::owned(id).concat(" - iTools 插件"),
            note_size_for,
            reuse: window,
            resize: window && has_size,
            noted_size: !window && has_size,
            show: !hidden,
        },
    )
}

/// Whether a plugin page may go to an address: pages of plugins only.
pub fn may_navigate(scheme: &str, host: Option<&str>) -> (r: bool)
    ensures
        r == is_plugin_page(scheme@, text::opt_str(host)),
        r == (scheme@ == "itplugin"@ || text::opt_str(host) == Some("itplugin.localhost"@)),
{
    let own_host = match host {
        Some(h) => text::str_eq(h, "itplugin.localhost"),
        None => false,
    };
    text::str_eq(scheme, "itplugin") || own_host
}

/// Checks whether a plugin directory may be deleted: it must lie below the root of the
/// plugins. `dir` is `None` when there is no such plugin.
pub fn check_delete(root: &Vec<String>, dir: &Option<Vec<String>>) -> (r: Result<(), String>)
    ensures
        text::message_of(r) == delete_error(
            text::texts(root@),
            match *dir {
                Some(d) => Some(text::texts(d@)),
                None => None,
            },
        ),
        text::message_of(r) == (match *dir {
            None => Some("插件不存在"@),
            Some(d) => if text::texts(d@) == text::texts(root@) || !path::covers(
                text::texts(root@),
                text::texts(d@),
            ) {
                Some("非法插件目录"@)
            } else {
                None
            },
        }),
{
    match dir {
        None => Err(text::owned("插件不存在")),
        Some(d) => {
            if !path::is_within(root, d) {
                return Err(text::owned("非法插件目录"));
            }
            if d.len() == root.len() {
                assert(text::texts(root@) =~= text::texts(d@).subrange(
                    0,
                    text::texts(root@).len() as int,
                ));
                assert(text::texts(d@) =~= text::texts(root@));
                return Err(text::owned("非法插件目录"));
            }
            assert(text::texts(d@).len() != text::texts(root@).len());
            Ok(())
        },
    }
}

// ---------------------------------------------------------------------------
// Files of a plugin
// ---------------------------------------------------------------------------

/// The directory of a session's own files, below the data directory.
pub open spec fn files_dir(session: (Seq<char>, bool)) -> Seq<Seq<char>> {
    if session.1 {
        seq!["dev"@, "plugin-data"@, session.0, "files"@]
    } else {
        seq!["plugin-data"@, session.0, "files"@]
    }
}

/// The directory of a session's own files, see [`files_dir`].
pub fn session_files_dir(session: &ActiveSession) -> (r: Vec<String>)
    ensures
        text::texts(r@) == files_dir(session@),
{
    let mut v: Vec<String> = Vec::new();
    if session.dev {
        v.push(text::owned("dev"));
    }
    v.push(text::owned("plugin-data"));
    v.push(session.id.clone());
    v.push(text::owned("files"));
    assert(text::texts(v@) =~= files_dir(session@));
    v
}

/// The files of a plugin under development lie apart from those of every installed plugin.
pub proof fn sandboxes_are_apart(dev_id: Seq<char>, id: Seq<char>, below: Seq<Seq<char>>)
    ensures
        !path::covers(files_dir((dev_id, true)), files_dir((id, false)) + below),
        !path::covers(files_dir((id, false)), files_dir((dev_id, true)) + below),
{
    reveal_strlit("dev");
    reveal_strlit("plugin-data");
    assert("dev"@.len() != "plugin-data"@.len());
    let d = files_dir((dev_id, true));
    let p = files_dir((id, false));
    assert((p + below)[0] == "plugin-data"@);
    assert((d + below)[0] == "dev"@);
    if path::covers(d, p + below) {
        assert((p + below).subrange(0, d.len() as int)[0] == d[0]);
    }
    if path::covers(p, d + below) {
        assert((d + below).subrange(0, p.len() as int)[0] == p[0]);
    }
}

/// The path of a file below a plugin's own directory.
pub open spec fn sandbox_path(p: Seq<char>) -> Result<Seq<Seq<char>>, Seq<char>> {
    if p.len() > 0 && path::is_plain(p) {
        Ok(path::parts(p))
    } else {
        Err("只能访问插件沙盒内的相对路径（禁绝对路径/盘符/根/..）"@)
    }
}

/// Checks the path of a file below a plugin's own directory, see [`sandbox_path`].
pub fn sandbox_relative(p: &str) -> (r: Result<Vec<String>, String>)
    ensures
        crate::entry::path_outcome(r) == sandbox_path(p@),
{
    if p.is_empty() {
        return Err(text::owned("只能访问插件沙盒内的相对路径（禁绝对路径/盘符/根/..）"));
    }
    match path::plain_parts(p) {
        Some(v) => Ok(v),
        None => Err(text::owned("只能访问插件沙盒内的相对路径（禁绝对路径/盘符/根/..）")),
    }
}

/// Checks, where the system could resolve both, that the directory of a file to write still
/// lies in the plugin's own directory.
pub fn check_write_parent(sandbox: &Option<Vec<String>>, parent: &Option<Vec<String>>) -> (r:
    Result<(), String>)
    ensures
        text::message_of(r) is None <==> may_write_in(
            match *sandbox {
                Some(s) => Some(text::texts(s@)),
                None => None,
            },
            match *parent {
                Some(p) => Some(text::texts(p@)),
                None => None,
            },
        ),
        text::message_of(r) == (match (*sandbox, *parent) {
            (Some(s), Some(p)) => if path::covers(text::texts(s@), text::texts(p@)) {
                None
            } else {
                Some("路径越出插件沙盒"@)
            },
            _ => None,
        }),
{
    if let Some(s) = sandbox {
        if let Some(p) = parent {
            if !path::is_within(s, p) {
                return Err(text::owned("路径越出插件沙盒"));
            }
        }
    }
    Ok(())
}

/// What deleting a file came to: a file that was not there counts as deleted.
pub fn remove_result(failure: Option<String>, not_found: bool) -> (r: Result<(), String>)
    ensures
        text::message_of(r) == removal_error(text::opt_view(failure), not_found),
        text::message_of(r) == (match failure {
            Some(e) => if not_found {
                None
            } else {
                Some("删除文件失败: "@ + e@)
            },
            None => None,
        }),
{
    match failure {
        Some(e) => {
            if not_found {
                return Ok(());
            }
            Err(text::owned("删除文件失败: ").concat(e.as_str()))
        },
        None => Ok(()),
    }
}

/// Whether a path names a share or another machine.
pub open spec fn is_remote(p: Seq<char>) -> bool {
    "\\\\"@.is_prefix_of(p) || "//"@.is_prefix_of(p)
}

/// The extensions of images.
pub open spec fn is_image_ext(e: Seq<char>) -> bool {
    ||| e == "png"@
    ||| e == "jpg"@
    ||| e == "jpeg"@
    ||| e == "gif"@
    ||| e == "bmp"@
    ||| e == "webp"@
    ||| e == "svg"@
    ||| e == "ico"@
    ||| e == "tif"@
    ||| e == "tiff"@
}

/// The extensions of documents.
pub open spec fn is_document_ext(e: Seq<char>) -> bool {
    ||| e == "txt"@
    ||| e == "md"@
    ||| e == "log"@
    ||| e == "csv"@
    ||| e == "json"@
    ||| e == "xml"@
    ||| e == "yaml"@
    ||| e == "yml"@
    ||| e == "ini"@
    ||| e == "conf"@
    ||| e == "pdf"@
    ||| e == "rtf"@
    ||| e == "doc"@
    ||| e == "docx"@
    ||| e == "xls"@
    ||| e == "xlsx"@
    ||| e == "ppt"@
    ||| e == "pptx"@
    ||| e == "odt"@
    ||| e == "ods"@
    ||| e == "odp"@
}

/// The extensions of sound and film.
pub open spec fn is_media_ext(e: Seq<char>) -> bool {
    ||| e == "mp3"@
    ||| e == "wav"@
    ||| e == "flac"@
    ||| e == "aac"@
    ||| e == "ogg"@
    ||| e == "m4a"@
    ||| e == "mp4"@
    ||| e == "mkv"@
    ||| e == "avi"@
    ||| e == "mov"@
    ||| e == "webm"@
}

fn image_ext(e: &[char]) -> (r: bool)
    ensures
        r == is_image_ext(e@),
{
    text::same(e, "png") || text::same(e, "jpg") || text::same(e, "jpeg") || text::same(e, "gif")
        || text::same(e, "bmp") || text::same(e, "webp") || text::same(e, "svg") || text::same(
        e,
        "ico",
    ) || text::same(e, "tif") || text::same(e, "tiff")
}

fn document_ext(e: &[char]) -> (r: bool)
    ensures
        r == is_document_ext(e@),
{
    text::same(e, "txt") || text::same(e, "md") || text::same(e, "log") || text::same(e, "csv")
        || text::same(e, "json") || text::same(e, "xml") || text::same(e, "yaml") || text::same(
        e,
        "yml",
    ) || text::same(e, "ini") || text::same(e, "conf") || text::same(e, "pdf") || text::same(
        e,
        "rtf",
    ) || text::same(e, "doc") || text::same(e, "docx") || text::same(e, "xls") || text::same(
        e,
        "xlsx",
    ) || text::same(e, "ppt") || text::same(e, "pptx") || text::same(e, "odt") || text::same(
        e,
        "ods",
    ) || text::same(e, "odp")
}

fn media_ext(e: &[char]) -> (r: bool)
    ensures
        r == is_media_ext(e@),
{
    text::same(e, "mp3") || text::same(e, "wav") || text::same(e, "flac") || text::same(e, "aac")
        || text::same(e, "ogg") || text::same(e, "m4a") || text::same(e, "mp4") || text::same(
        e,
        "mkv",
    ) || text::same(e, "avi") || text::same(e, "mov") || text::same(e, "webm")
}

fn remote(p: &[char]) -> (r: bool)
    ensures
        r == is_remote(p@),
{
    text::has_prefix(p, "\\\\") || text::has_prefix(p, "//")
}

/// The path of an image that is to be read, or why it is not.
pub open spec fn image_path(p: Seq<char>) -> Result<Seq<char>, Seq<char>> {
    let t = text::trimmed(p);
    if t.len() == 0 {
        Err("路径为空"@)
    } else if is_remote(t) {
        Err("不支持 UNC/远程路径"@)
    } else if !is_image_ext(path::ext_of(t)) {
        Err("只支持读取图片文件（png/jpg/jpeg/gif/bmp/webp/svg/ico/tiff）"@)
    } else {
        Ok(t)
    }
}

/// Checks the path of an image, see [`image_path`].
pub fn check_image_path(p: &str) -> (r: Result<String, String>)
    ensures
        text::outcome(r) == image_path(p@),
{
    let t = text::trim_str(p);
    if t.len() == 0 {
        return Err(text::owned("路径为空"));
    }
    if remote(t.as_slice()) {
        return Err(text::owned("不支持 UNC/远程路径"));
    }
    let s = text::string_of(t.as_slice());
    let ext = path::extension(s.as_str());
    if !image_ext(ext.as_slice()) {
        return Err(
            text::owned("只支持读取图片文件（png/jpg/jpeg/gif/bmp/webp/svg/ico/tiff）"),
        );
    }
    Ok(s)
}

/// The largest image that is read: 30 MB.
pub const MAX_IMAGE_BYTES: usize = 31_457_280;

/// What a page gets of an image file: its bytes in base64. `None` stands for no such file.
pub open spec fn image_reply(bytes: Option<Result<Seq<u8>, Seq<char>>>) -> Result<
    Seq<char>,
    Seq<char>,
> {
    match bytes {
        None => Err("文件不存在"@),
        Some(Err(e)) => Err("读文件失败: "@ + e),
        Some(Ok(b)) => if b.len() > MAX_IMAGE_BYTES {
            Err("图片过大（>30MB）"@)
        } else {
            Ok(codec::base64_text(b))
        },
    }
}

/// What a page gets of an image file, see [`image_reply`].
pub fn read_local_image(bytes: Option<Result<Vec<u8>, String>>) -> (r: Result<String, String>)
    ensures
        text::outcome(r) == image_reply(
            match bytes {
                None => None,
                Some(b) => Some(text::outcome(b)),
            },
        ),
{
    match bytes {
        None => Err(text::owned("文件不存在")),
        Some(Err(e)) => Err(text::owned("读文件失败: ").concat(e.as_str())),
        Some(Ok(b)) => {
            if b.len() > MAX_IMAGE_BYTES {
                return Err(text::owned("图片过大（>30MB）"));
            }
            Ok(codec::base64_encode(b.as_slice()))
        },
    }
}

/// The bytes that a page sent, from what reading its base64 text gave.
pub open spec fn sent_bytes(decoded: Result<Seq<u8>, Seq<char>>) -> Result<Seq<u8>, Seq<char>> {
    match decoded {
        Ok(b) => Ok(b),
        Err(e) => Err("base64 解码失败: "@ + e),
    }
}

/// Reads base64 text that a page sent; spaces around it do not matter.
pub fn read_base64(b64: &str) -> (r: Result<Vec<u8>, String>)
    ensures
        text::outcome(r) == sent_bytes(codec::base64_bytes(text::trimmed(b64@))),
{
    let t = text::trim_str(b64);
    let s = text::string_of(t.as_slice());
    match codec::base64_decode(s.as_str()) {
        Ok(b) => Ok(b),
        Err(e) => Err(text::owned("base64 解码失败: ").concat(e.as_str())),
    }
}

/// The name that a saved image is offered under.
pub fn save_name(default_name: Option<String>) -> (r: String)
    ensures
        r@ == (match default_name {
            Some(n) => n@,
            None => "iTools截图.png"@,
        }),
{
    match default_name {
        Some(n) => n,
        None => text::owned("iTools截图.png"),
    }
}

// ---------------------------------------------------------------------------
// Opening links and paths
// ---------------------------------------------------------------------------

/// Whether a text starts with something, whatever its case and the spaces around it.
pub open spec fn starts_nocase(s: Seq<char>, p: Seq<char>) -> bool {
    p.is_prefix_of(text::lowered(text::trimmed(s)))
}

/// Checks a link that is to be opened outside.
pub fn check_external(url: &str) -> (r: Result<(), String>)
    ensures
        text::message_of(r) is None <==> opens_outside(url@),
        text::message_of(r) == (if starts_nocase(url@, "http://"@) || starts_nocase(
            url@,
            "https://"@,
        ) || starts_nocase(url@, "mailto:"@) {
            None
        } else {
            Some("openExternal 只支持 http/https/mailto"@)
        }),
{
    let t = text::trim_str(url);
    let low = text::to_lower(t.as_slice());
    let v = low.as_slice();
    if text::has_prefix(v, "http://") || text::has_prefix(v, "https://") || text::has_prefix(
        v,
        "mailto:",
    ) {
        Ok(())
    } else {
        Err(text::owned("openExternal 只支持 http/https/mailto"))
    }
}

/// The path that is opened for a path, or why none is. Dots and spaces at its end go, as the
/// system drops them too.
pub open spec fn openable(p: Seq<char>) -> Result<Seq<char>, Seq<char>> {
    let t = text::trimmed(p);
    let n = text::trimmed_end(t, |c: char| c == '.' || c == ' ');
    if "cmd:"@.is_prefix_of(text::lowered(t)) {
        Err("openPath 不支持 cmd: 前缀"@)
    } else if is_remote(t) {
        Err("openPath 不支持 UNC/远程路径"@)
    } else if n.len() == 0 {
        Err("路径为空"@)
    } else {
        Ok(n)
    }
}

/// Whether a path may be opened: a directory, or a file of a harmless kind.
pub open spec fn may_open(p: Seq<char>, is_dir: bool) -> bool {
    let e = path::ext_of(p);
    is_dir || is_document_ext(e) || is_image_ext(e) || is_media_ext(e)
}

/// The path that is opened for a path, see [`openable`].
pub fn check_open_path(p: &str) -> (r: Result<String, String>)
    ensures
        text::outcome(r) == openable(p@),
{
    let t = text::trim_str(p);
    let low = text::to_lower(t.as_slice());
    if text::has_prefix(low.as_slice(), "cmd:") {
        return Err(text::owned("openPath 不支持 cmd: 前缀"));
    }
    if remote(t.as_slice()) {
        return Err(text::owned("openPath 不支持 UNC/远程路径"));
    }
    let ghost q = |c: char| c == '.' || c == ' ';
    let mut j: usize = t.len();
    assert(t@.take(j as int) =~= t@);
    while j > 0 && (t[j - 1] == '.' || t[j - 1] == ' ')
        invariant
            j <= t@.len(),
            q == (|c: char| c == '.' || c == ' '),
            text::trimmed_end(t@, q) == text::trimmed_end(t@.take(j as int), q),
        decreases j,
    {
        assert(t@.take(j as int).drop_last() =~= t@.take(j - 1));
        j -= 1;
    }
    let n = slice_subrange(t.as_slice(), 0, j);
    assert(n@ =~= t@.take(j as int));
    if j == 0 {
        return Err(text::owned("路径为空"));
    }
    Ok(text::string_of(n))
}

/// Checks whether a path may be opened, see [`may_open`].
pub fn check_openable(p: &str, is_dir: bool) -> (r: Result<(), String>)
    ensures
        text::message_of(r) == (if may_open(p@, is_dir) {
            None
        } else {
            Some("openPath 只允许打开文件夹或文档/图片/媒体类文件（白名单）"@)
        }),
{
    if is_dir {
        return Ok(());
    }
    let ext = path::extension(p);
    let e = ext.as_slice();
    if document_ext(e) || image_ext(e) || media_ext(e) {
        Ok(())
    } else {
        Err(text::owned("openPath 只允许打开文件夹或文档/图片/媒体类文件（白名单）"))
    }
}

/// A path that is opened does not end in a dot or a space, so its extension is the one that
/// the system goes by: nothing is hidden behind such an ending.
pub proof fn opened_paths_hide_nothing(p: Seq<char>)
    requires
        openable(p) is Ok,
    ensures
        openable(p)->Ok_0.len() > 0,
        openable(p)->Ok_0.last() != '.',
        openable(p)->Ok_0.last() != ' ',
{
    text::lemma_trimmed_end(text::trimmed(p), |c: char| c == '.' || c == ' ');
}

// ---------------------------------------------------------------------------
// Requests over the network
// ---------------------------------------------------------------------------

/// The seconds after which a request of a plugin page is given up.
pub const FETCH_TIMEOUT_SECS: u64 = 20;

/// The reply to a request over the network.
#[derive(Debug)]
pub struct FetchResponse {
    pub status: u16,
    pub ok: bool,
    pub body: String,
}

/// A text in upper case.
pub uninterp spec fn upper_text(s: Seq<char>) -> Seq<char>;

/// `str::to_uppercase` of std, by the rules of Unicode. What it gives depends on the text
/// alone.
#[verifier::external_body]
fn to_upper(s: &str) -> (r: String)
    ensures
        r@ == upper_text(s@),
{
    s.to_uppercase()
}

/// Why a request is not sent.
pub open spec fn fetch_error(granted: bool, url: Seq<char>) -> Option<Seq<char>> {
    if !granted {
        Some("插件未获授权联网（请在「插件管理」里授权 network）"@)
    } else if !(starts_nocase(url, "http://"@) || starts_nocase(url, "https://"@)) {
        Some("fetch 只支持 http/https"@)
    } else {
        None
    }
}

/// The method of a request before it is put in upper case.
pub open spec fn asked_method(method: Option<Seq<char>>) -> Seq<char> {
    match method {
        Some(m) => m,
        None => "GET"@,
    }
}

/// Checks a request over the network and gives its method in upper case.
pub fn check_fetch(granted: bool, url: &str, method: Option<&str>) -> (r: Result<String, String>)
    ensures
        text::outcome(r) == (match fetch_error(granted, url@) {
            Some(e) => Err(e),
            None => Ok(upper_text(asked_method(text::opt_str(method)))),
        }),
{
    if !granted {
        return Err(text::owned("插件未获授权联网（请在「插件管理」里授权 network）"));
    }
    let t = text::trim_str(url);
    let low = text::to_lower(t.as_slice());
    if !(text::has_prefix(low.as_slice(), "http://") || text::has_prefix(
        low.as_slice(),
        "https://",
    )) {
        return Err(text::owned("fetch 只支持 http/https"));
    }
    match method {
        Some(m) => Ok(to_upper(m)),
        None => Ok(to_upper("GET")),
    }
}

/// What the network gave back.
#[derive(Debug)]
pub enum Reply {
    /// A reply with a status, and its text or why it could not be read.
    Answered(u16, Result<String, String>),
    /// A reply with the status of an error, and its text where it could be read.
    Refused(u16, Option<String>),
    /// No reply.
    Failed(String),
}

/// What a page gets for a reply: status, whether it is a good one, and the text.
pub open spec fn fetch_reply(reply: Reply) -> Result<(u16, bool, Seq<char>), Seq<char>> {
    match reply {
        Reply::Answered(status, Ok(body)) => Ok((status, 200 <= status < 300, body@)),
        Reply::Answered(_, Err(e)) => Err(e@),
        Reply::Refused(status, body) => Ok(
            (
                status,
                false,
                match body {
                    Some(b) => b@,
                    None => Seq::empty(),
                },
            ),
        ),
        Reply::Failed(e) => Err(e@),
    }
}

/// What a page gets for a reply, see [`fetch_reply`].
pub fn fetch_result(reply: Reply) -> (r: Result<FetchResponse, String>)
    ensures
        match r {
            Ok(f) => fetch_reply(reply) is Ok && fetch_reply(reply)->Ok_0 == (
                f.status,
                f.ok,
                f.body@,
            ),
            Err(e) => fetch_reply(reply) is Err && fetch_reply(reply)->Err_0 == e@,
        },
{
    match reply {
        Reply::Answered(status, Ok(body)) => Ok(
            FetchResponse { status, ok: 200 <= status && status < 300, body },
        ),
        Reply::Answered(_, Err(e)) => Err(e),
        Reply::Refused(status, body) => {
            let body = match body {
                Some(b) => b,
                None => {
                    let empty = text::string_of(&[]);
                    assert(empty@ =~= Seq::<char>::empty());
                    empty
                },
            };
            Ok(FetchResponse { status, ok: false, body })
        },
        Reply::Failed(e) => Err(e),
    }
}

// ---------------------------------------------------------------------------
// Stored data
// ---------------------------------------------------------------------------

/// The store that a session uses: plugins under development have one of their own.
pub fn session_db<'a, D>(session: &ActiveSession, dev: &'a D, db: &'a D) -> (r: &'a D)
    ensures
        *r == (if session@.1 {
            *dev
        } else {
            *db
        }),
{
    if session.dev {
        dev
    } else {
        db
    }
}

/// The name space of a plugin's data.
pub open spec fn ns_of(id: Seq<char>) -> Seq<char> {
    "plugin:"@ + id
}

/// The name space of a plugin's data, see [`ns_of`].
pub fn plugin_ns(id: &str) -> (r: String)
    ensures
        r@ == ns_of(id@),
{
    text::owned("plugin:").concat(id)
}

/// Plugins have different name spaces.
pub proof fn name_spaces_are_apart(a: Seq<char>, b: Seq<char>)
    requires
        ns_of(a) == ns_of(b),
    ensures
        a == b,
{
    let n = "plugin:"@.len() as int;
    assert(ns_of(a).skip(n) =~= a);
    assert(ns_of(b).skip(n) =~= b);
}

/// How a change of data that can be synchronised is stored.
#[derive(Debug)]
pub struct DataWrite {
    pub ns: String,
    /// Whether it goes to the store of plugins under development.
    pub test: bool,
    /// The JSON text that is stored.
    pub json: String,
    /// Whether it is sent to the cloud after a while.
    pub auto_sync: bool,
}

/// Plans how a change of data is stored. Data of plugins under development never leaves the
/// machine.
pub fn plan_data_set(session: &ActiveSession, value: &str) -> (r: DataWrite)
    ensures
        (r.ns@, r.test, r.json@, r.auto_sync) == data_write(
            session@,
            value@,
            crate::json::json_rewritten(value@),
        ),
        r.ns@ == ns_of(session@.0),
        r.test == session@.1,
        r.json@ == crate::json::stored_text(value@, crate::json::json_rewritten(value@)),
        r.auto_sync == !session@.1,
{
    DataWrite {
        ns: plugin_ns(session.id.as_str()),
        test: session.dev,
        json: crate::json::to_stored(value),
        auto_sync: !session.dev,
    }
}

/// What a plugin is told of the account.
#[derive(Clone, Copy, PartialEq, Eq, Debug, Structural)]
pub struct PluginAccountState {
    pub logged_in: bool,
    pub cloud_configured: bool,
    pub sync_enabled: bool,
}

/// What a plugin is told of the account. A plugin under development is told what the mode of
/// the simulated cloud says, never the real state.
pub fn account_state(
    session: Option<&ActiveSession>,
    mock_mode: &str,
    actual: PluginAccountState,
) -> (r: PluginAccountState)
    ensures
        r == told_account(
            match session {
                Some(s) => Some(s@),
                None => None,
            },
            mock_mode@,
            actual,
        ),
        r == (if session is Some && session->0@.1 {
            PluginAccountState {
                logged_in: mock_mode@ != "notLoggedIn"@,
                cloud_configured: true,
                sync_enabled: mock_mode@ != "notLoggedIn"@,
            }
        } else {
            actual
        }),
{
    if let Some(s) = session {
        if s.dev {
            let logged_in = !text::str_eq(mock_mode, "notLoggedIn");
            return PluginAccountState {
                logged_in,
                cloud_configured: true,
                sync_enabled: logged_in,
            };
        }
    }
    actual
}

/// Who a notice comes from, for the log: the session, or else the window.
pub fn notice_source(session: Option<&ActiveSession>, label: &str) -> (r: String)
    ensures
        r@ == (match session {
            Some(s) => crate::session::session_name(s@),
            None => label@,
        }),
{
    match session {
        Some(s) => crate::session::who(s),
        None => text::owned(label),
    }
}

// ---------------------------------------------------------------------------
// What holds of requests
// ---------------------------------------------------------------------------

/// A permission is had exactly where the manifest asks for it and the user gave it, both on the
/// side of the session.
pub proof fn permissions_are_asked_for_and_given(
    settings: PluginSettings,
    declared: Declared,
    session: (Seq<char>, bool),
    perm: Seq<char>,
)
    ensures
        ({
            let asked = if session.1 {
                declared.dev@
            } else {
                declared.installed@
            };
            let given = if session.1 {
                settings.dev_plugin_permissions@
            } else {
                settings.plugin_permissions@
            };
            granted(settings, declared, session, perm) <==> asked.dom().contains(session.0)
                && given.dom().contains(session.0) && text::texts(
                asked[session.0]@,
            ).contains(perm) && text::texts(given[session.0]@).contains(perm)
        }),
{
}

/// A target leads to the plugin whose id stands in front of the first `#`, with the code behind
/// it, on the side that it names. A target without a `#` leads nowhere.
pub proof fn targets_lead_to_their_plugin(id: Seq<char>, code: Seq<char>, other: Seq<char>)
    requires
        !id.contains('#'),
    ensures
        route_of("dev:"@ + id + "#"@ + code) == Ok::<RouteView, Seq<char>>(
            RouteView::Dev(id, code),
        ),
        !"dev:"@.is_prefix_of(id) ==> route_of(id + "#"@ + code) == Ok::<RouteView, Seq<char>>(
            RouteView::Installed(id, code),
        ),
        !other.contains('#') ==> route_of(other) is Err,
{
    reveal_strlit("dev:");
    reveal_strlit("#");
    assert("#"@ =~= seq!['#']);
    let dev = "dev:"@ + id;
    let target = "dev:"@ + id + "#"@ + code;
    assert forall|i: int| 0 <= i < id.len() implies #[trigger] id[i] != '#' by {
        assert(id.contains(id[i]));
    }
    assert forall|i: int| 0 <= i < dev.len() implies target[i] != '#' by {
        if i >= 4 {
            assert(target[i] == id[i - 4]);
        }
    }
    assert(target[dev.len() as int] == '#');
    text::lemma_index_of_is(target, '#', dev.len());
    assert(target.take(dev.len() as int) =~= dev);
    assert(target.skip(dev.len() as int + 1) =~= code);
    assert(dev.subrange(0, 4) =~= "dev:"@);
    assert(dev.skip(4) =~= id);
    let plain = id + "#"@ + code;
    assert forall|i: int| 0 <= i < id.len() implies plain[i] != '#' by {
        assert(plain[i] == id[i]);
    }
    assert(plain[id.len() as int] == '#');
    text::lemma_index_of_is(plain, '#', id.len());
    assert(plain.take(id.len() as int) =~= id);
    assert(plain.skip(id.len() as int + 1) =~= code);
    text::lemma_index_of(other, '#');
    if text::index_of(other, '#') < other.len() {
        assert(other.contains('#'));
    }
}

/// Different sessions have different directories for their files, and none lies in another.
pub proof fn every_session_has_its_own_files(
    a: (Seq<char>, bool),
    b: (Seq<char>, bool),
    below: Seq<Seq<char>>,
)
    requires
        a != b,
    ensures
        !path::covers(files_dir(a), files_dir(b) + below),
{
    if a.1 != b.1 {
        if a.1 {
            sandboxes_are_apart(a.0, b.0, below);
        } else {
            sandboxes_are_apart(b.0, a.0, below);
        }
    } else if path::covers(files_dir(a), files_dir(b) + below) {
        let k: int = if a.1 {
            2
        } else {
            1
        };
        path::directories_cover_what_lies_below(files_dir(a), below, files_dir(b) + below, k);
        assert((files_dir(b) + below)[k] == b.0);
    }
}

/// The files that a plugin names lie below its own directory, under the path that it named:
/// names with slashes between them, none of them a step up. Nothing else is reached.
pub proof fn sandbox_paths_are_kept(v: Seq<Seq<char>>, p: Seq<char>)
    requires
        v.len() > 0,
        forall|k: int| 0 <= k < v.len() ==> path::is_name(#[trigger] v[k]) && v[k] != ".."@,
        v[0].len() < 2 || v[0][1] != ':',
    ensures
        sandbox_path(text::joined(v, "/"@)) == Ok::<Seq<Seq<char>>, Seq<char>>(v),
        p.len() == 0 || p[0] == '/' || p[0] == '\\' || (p.len() > 1 && p[1] == ':'
            && text::is_letter(p[0])) || path::parts(p).contains(".."@) ==> sandbox_path(p) is Err,
{
    path::paths_are_made_of_names(v);
    path::plain_paths_are_made_of_names(v, p);
    if text::joined(v, "/"@).len() == 0 {
        text::lemma_pieces_one(Seq::empty(), '/');
        assert(text::joined(v, "/"@) =~= Seq::<char>::empty());
        assert(text::replaced(Seq::empty(), '\\', '/') =~= Seq::<char>::empty());
        let e = seq![Seq::<char>::empty()];
        assert(e.drop_last() =~= Seq::<Seq<char>>::empty());
        assert(path::named_pieces(e) =~= Seq::<Seq<char>>::empty());
        assert(path::parts(Seq::empty()).len() == 0);
    }
}

/// An image of up to 30 MB is sent whole; a larger one is not sent.
pub proof fn images_are_sent_whole(bytes: Seq<u8>)
    ensures
        bytes.len() <= 30 * 1024 * 1024 ==> image_reply(
            Some(Ok::<Seq<u8>, Seq<char>>(bytes)),
        ) == Ok::<Seq<char>, Seq<char>>(codec::base64_text(bytes)),
        bytes.len() > 30 * 1024 * 1024 ==> image_reply(Some(Ok::<Seq<u8>, Seq<char>>(bytes)))
            is Err,
        image_reply(None) is Err,
{
}

/// Only images on this machine are read: what is read ends in the extension of one, in any case
/// of the letters, and names no other machine.
pub proof fn only_images_are_read(p: Seq<char>)
    ensures
        image_path(p) matches Ok(t) ==> {
            let e = path::ext_of(t);
            &&& t == text::trimmed(p)
            &&& !(t.len() >= 2 && ((t[0] == '\\' && t[1] == '\\') || (t[0] == '/' && t[1] == '/')))
            &&& e == "png"@ || e == "jpg"@ || e == "jpeg"@ || e == "gif"@ || e == "bmp"@ || e
                == "webp"@ || e == "svg"@ || e == "ico"@ || e == "tif"@ || e == "tiff"@
        },
        ({
            let t = text::trimmed(p);
            let e = path::ext_of(t);
            t.len() > 0 && (t[0] != '\\' && t[0] != '/') && (e == "png"@ || e == "jpg"@ || e
                == "jpeg"@ || e == "gif"@ || e == "bmp"@ || e == "webp"@ || e == "svg"@ || e
                == "ico"@ || e == "tif"@ || e == "tiff"@) ==> image_path(p) == Ok::<
                Seq<char>,
                Seq<char>,
            >(t)
        }),
{
    let t = text::trimmed(p);
    lemma_remote(t);
}

proof fn lemma_remote(t: Seq<char>)
    ensures
        is_remote(t) <==> t.len() >= 2 && ((t[0] == '\\' && t[1] == '\\') || (t[0] == '/' && t[1]
            == '/')),
{
    reveal_strlit("\\\\");
    reveal_strlit("//");
    if is_remote(t) {
        if "//"@.is_prefix_of(t) {
            assert(t.subrange(0, 2)[0] == '/' && t.subrange(0, 2)[1] == '/');
        } else {
            assert(t.subrange(0, 2)[0] == '\\' && t.subrange(0, 2)[1] == '\\');
        }
    }
    if t.len() >= 2 && t[0] == '/' && t[1] == '/' {
        assert(t.subrange(0, 2) =~= "//"@);
    }
    if t.len() >= 2 && t[0] == '\\' && t[1] == '\\' {
        assert(t.subrange(0, 2) =~= "\\\\"@);
    }
}

/// The kinds of files that may be opened.
pub open spec fn harmless_kinds() -> Seq<Seq<char>> {
    seq![
        "txt"@, "md"@, "log"@, "csv"@, "json"@, "xml"@, "yaml"@, "yml"@, "ini"@, "conf"@,
        "pdf"@, "rtf"@, "doc"@, "docx"@, "xls"@, "xlsx"@, "ppt"@, "pptx"@, "odt"@, "ods"@,
        "odp"@, "png"@, "jpg"@, "jpeg"@, "gif"@, "bmp"@, "webp"@, "svg"@, "ico"@, "tif"@,
        "tiff"@, "mp3"@, "wav"@, "flac"@, "aac"@, "ogg"@, "m4a"@, "mp4"@, "mkv"@, "avi"@,
        "mov"@, "webm"@,
    ]
}

/// A file is opened only where its kind is one of those that can do no harm, and always there;
/// a directory is always opened.
pub proof fn only_harmless_files_are_opened(p: Seq<char>)
    ensures
        may_open(p, false) ==> harmless_kinds().contains(path::ext_of(p)),
        may_open(p, true),
        harmless_kinds().len() == 42,
{
    let e = path::ext_of(p);
    let h = harmless_kinds();
    if may_open(p, false) {
        assert(exists|k: int| 0 <= k < h.len() && h[k] == e) by {
            assert(h[0] == "txt"@ && h[1] == "md"@ && h[2] == "log"@ && h[3] == "csv"@ && h[4]
                == "json"@ && h[5] == "xml"@ && h[6] == "yaml"@ && h[7] == "yml"@ && h[8]
                == "ini"@ && h[9] == "conf"@ && h[10] == "pdf"@ && h[11] == "rtf"@ && h[12]
                == "doc"@ && h[13] == "docx"@ && h[14] == "xls"@ && h[15] == "xlsx"@ && h[16]
                == "ppt"@ && h[17] == "pptx"@ && h[18] == "odt"@ && h[19] == "ods"@ && h[20]
                == "odp"@ && h[21] == "png"@ && h[22] == "jpg"@ && h[23] == "jpeg"@ && h[24]
                == "gif"@ && h[25] == "bmp"@ && h[26] == "webp"@ && h[27] == "svg"@ && h[28]
                == "ico"@ && h[29] == "tif"@ && h[30] == "tiff"@ && h[31] == "mp3"@ && h[32]
                == "wav"@ && h[33] == "flac"@ && h[34] == "aac"@ && h[35] == "ogg"@ && h[36]
                == "m4a"@ && h[37] == "mp4"@ && h[38] == "mkv"@ && h[39] == "avi"@ && h[40]
                == "mov"@ && h[41] == "webm"@);
        }
    }
}

/// Every file of a harmless kind may be opened.
pub proof fn harmless_files_are_opened(p: Seq<char>, k: int)
    requires
        0 <= k < harmless_kinds().len(),
        path::ext_of(p) == harmless_kinds()[k],
    ensures
        may_open(p, false),
{
    let e = path::ext_of(p);
    assert(0 <= k < 42);
}

/// Neither commands nor other machines are reached by opening a path; any other path is opened
/// as it was given, without the white space around it and the dots and spaces at its end.
pub proof fn paths_are_opened_as_given(p: Seq<char>, tail: Seq<char>)
    requires
        p.len() > 0,
        !text::is_space(p[0]),
        p.last() != '.',
        !text::is_space(p.last()),
        forall|i: int| 0 <= i < tail.len() ==> #[trigger] tail[i] == '.' || tail[i] == ' ',
    ensures
        "cmd:"@.is_prefix_of(text::lowered(p)) ==> openable(p) is Err,
        p.len() >= 2 && ((p[0] == '\\' && p[1] == '\\') || (p[0] == '/' && p[1] == '/'))
            ==> openable(p) is Err,
        !"cmd:"@.is_prefix_of(text::lowered(p)) && p[0] != '\\' && p[0] != '/' ==> openable(p)
            == Ok::<Seq<char>, Seq<char>>(p),
        tail.len() > 0 && tail.last() == '.' && !"cmd:"@.is_prefix_of(text::lowered(p + tail))
            && p[0] != '\\' && p[0] != '/' ==> openable(p + tail) == Ok::<Seq<char>, Seq<char>>(p),
{
    text::lemma_trimmed_id(p);
    lemma_remote(p);
    let ends = |c: char| c == '.' || c == ' ';
    assert(!ends(p.last()));
    assert(text::trimmed_end(p, ends) == p);
    if tail.len() > 0 && tail.last() == '.' {
        let q = p + tail;
        assert(q[0] == p[0]);
        assert(q.last() == '.');
        text::lemma_trimmed_id(q);
        lemma_remote(q);
        lemma_tail_goes(p, tail);
    }
}

proof fn lemma_tail_goes(p: Seq<char>, tail: Seq<char>)
    requires
        p.len() > 0,
        p.last() != '.',
        p.last() != ' ',
        forall|i: int| 0 <= i < tail.len() ==> #[trigger] tail[i] == '.' || tail[i] == ' ',
    ensures
        text::trimmed_end(p + tail, |c: char| c == '.' || c == ' ') == p,
    decreases tail.len(),
{
    if tail.len() == 0 {
        assert(p + tail =~= p);
    } else {
        let less = tail.drop_last();
        assert((p + tail).drop_last() =~= p + less);
        assert((p + tail).last() == tail[tail.len() - 1]);
        assert forall|i: int| 0 <= i < less.len() implies #[trigger] less[i] == '.' || less[i]
            == ' ' by {
            assert(less[i] == tail[i]);
        }
        lemma_tail_goes(p, less);
    }
}

/// Only web addresses are fetched, and only with the permission.
pub proof fn only_web_addresses_are_fetched(granted: bool, rest: Seq<char>, url: Seq<char>)
    requires
        rest.len() > 0,
        !text::is_space(rest.last()),
    ensures
        !granted ==> fetch_error(granted, url) is Some,
        granted ==> fetch_error(granted, "http://"@ + rest) is None && fetch_error(
            granted,
            "https://"@ + rest,
        ) is None,
        fetch_error(granted, url) is None ==> {
            let t = text::lowered(text::trimmed(url));
            "http://"@.is_prefix_of(t) || "https://"@.is_prefix_of(t)
        },
{
    reveal_strlit("http://");
    reveal_strlit("https://");
    let a = "http://"@ + rest;
    let b = "https://"@ + rest;
    assert(a.last() == rest.last() && b.last() == rest.last());
    text::lemma_trimmed_id(a);
    text::lemma_trimmed_id(b);
    assert(text::lowered(a).subrange(0, 7) =~= "http://"@);
    assert(text::lowered(b).subrange(0, 8) =~= "https://"@);
}

/// A page gets the status and the text that came over the network; only a status from 200 to
/// 299 is a good one.
pub proof fn replies_are_kept(status: u16, body: String, e: String)
    ensures
        fetch_reply(Reply::Answered(status, Ok(body))) == Ok::<(u16, bool, Seq<char>), Seq<char>>(
            (status, status >= 200 && status <= 299, body@),
        ),
        fetch_reply(Reply::Refused(status, Some(body))) == Ok::<
            (u16, bool, Seq<char>),
            Seq<char>,
        >((status, false, body@)),
        fetch_reply(Reply::Refused(status, None)) == Ok::<(u16, bool, Seq<char>), Seq<char>>(
            (status, false, Seq::empty()),
        ),
        fetch_reply(Reply::Failed(e)) == Err::<(u16, bool, Seq<char>), Seq<char>>(e@),
{
}

/// Whether an address is that of a plugin's page.
pub open spec fn is_plugin_page(scheme: Seq<char>, host: Option<Seq<char>>) -> bool {
    scheme == "itplugin"@ || host == Some("itplugin.localhost"@)
}

/// The address of an installed plugin's page.
pub open spec fn page_address(id: Seq<char>) -> Seq<char> {
    "http://itplugin.localhost/"@ + id + "/index.html"@
}

/// What happens to the window: whether it is used again, gets the noted size, is made with it,
/// and is shown.
pub open spec fn window_steps(window: bool, has_size: bool, hidden: bool) -> (
    bool,
    bool,
    bool,
    bool,
) {
    (window, window && has_size, !window && has_size, !hidden)
}

/// Whether the size of the window is noted for what runs in it before another plugin opens.
pub open spec fn notes_size(
    window: bool,
    running: Option<(Seq<char>, bool)>,
    id: Seq<char>,
) -> bool {
    window && running is Some && (running->0).0 != id
}

/// Why a plugin directory is not deleted.
pub open spec fn delete_error(root: Seq<Seq<char>>, dir: Option<Seq<Seq<char>>>) -> Option<
    Seq<char>,
> {
    match dir {
        None => Some("插件不存在"@),
        Some(d) => if d == root || !path::covers(root, d) {
            Some("非法插件目录"@)
        } else {
            None
        },
    }
}

/// Whether a link is opened outside.
pub open spec fn opens_outside(url: Seq<char>) -> bool {
    starts_nocase(url, "http://"@) || starts_nocase(url, "https://"@) || starts_nocase(
        url,
        "mailto:"@,
    )
}

/// What a plugin is told of the account.
pub open spec fn told_account(
    session: Option<(Seq<char>, bool)>,
    mock_mode: Seq<char>,
    actual: PluginAccountState,
) -> PluginAccountState {
    if session is Some && (session->0).1 {
        PluginAccountState {
            logged_in: mock_mode != "notLoggedIn"@,
            cloud_configured: true,
            sync_enabled: mock_mode != "notLoggedIn"@,
        }
    } else {
        actual
    }
}

/// How a change of data is stored: the name space, whether in the store of plugins under
/// development, the JSON text, and whether it is sent to the cloud.
pub open spec fn data_write(
    session: (Seq<char>, bool),
    value: Seq<char>,
    rewritten: Option<Seq<char>>,
) -> (Seq<char>, bool, Seq<char>, bool) {
    (ns_of(session.0), session.1, crate::json::stored_text(value, rewritten), !session.1)
}

/// Whether a file may be written in a directory, as far as the system could resolve both.
pub open spec fn may_write_in(
    sandbox: Option<Seq<Seq<char>>>,
    parent: Option<Seq<Seq<char>>>,
) -> bool {
    sandbox is None || parent is None || path::covers(sandbox->0, parent->0)
}

/// What is told of a file that was not deleted.
pub open spec fn removal_error(failure: Option<Seq<char>>, not_found: bool) -> Option<Seq<char>> {
    match failure {
        Some(e) => if not_found {
            None
        } else {
            Some("删除文件失败: "@ + e)
        },
        None => None,
    }
}

/// A plugin's own page is one that plugins may go to, and pages of the web are none.
pub proof fn plugins_stay_on_their_pages(host: Seq<char>)
    ensures
        is_plugin_page("http"@, Some("itplugin.localhost"@)),
        is_plugin_page("itplugin"@, None),
        host != "itplugin.localhost"@ ==> !is_plugin_page("http"@, Some(host)) && !is_plugin_page(
            "https"@,
            Some(host),
        ) && !is_plugin_page("file"@, Some(host)),
        !is_plugin_page("file"@, None),
{
    reveal_strlit("http");
    reveal_strlit("https");
    reveal_strlit("file");
    reveal_strlit("itplugin");
    assert("http"@.len() == 4 && "https"@.len() == 5 && "file"@.len() == 4 && "itplugin"@.len()
        == 8);
}

/// Different plugins have different pages.
pub proof fn every_plugin_has_its_own_page(a: Seq<char>, b: Seq<char>)
    requires
        page_address(a) == page_address(b),
    ensures
        a == b,
{
    let p = page_address(a);
    let q = page_address(b);
    let n = "http://itplugin.localhost/"@.len() as int;
    let m = "/index.html"@.len() as int;
    assert(p.len() == n + a.len() + m);
    assert(q.len() == n + b.len() + m);
    assert(p.subrange(n, n + a.len()) =~= a);
    assert(q.subrange(n, n + b.len()) =~= b);
}

/// A window that is there is used again and one that is not is made, each with the size that was
/// noted where there is one; it is shown unless it is to stay unseen. The size of the window is
/// noted for the plugin that ran in it where another one takes its place.
pub proof fn windows_are_used_again(
    window: bool,
    has_size: bool,
    hidden: bool,
    running: Seq<char>,
    dev: bool,
    id: Seq<char>,
)
    ensures
        ({
            let (reuse, resize, noted, show) = window_steps(window, has_size, hidden);
            &&& reuse == window
            &&& resize || noted <==> has_size
            &&& resize ==> reuse
            &&& noted ==> !reuse
            &&& show != hidden
        }),
        notes_size(window, Some((running, dev)), id) <==> window && running != id,
        !notes_size(window, None, id),
{
}

/// Only what lies below the root of the plugins is deleted, never the root itself.
pub proof fn only_plugins_are_deleted(
    root: Seq<Seq<char>>,
    dir: Seq<Seq<char>>,
    below: Seq<Seq<char>>,
)
    ensures
        delete_error(root, Some(dir)) is None ==> dir.len() > root.len() && dir.take(
            root.len() as int,
        ) == root,
        below.len() > 0 ==> delete_error(root, Some(root + below)) is None,
        delete_error(root, Some(root)) is Some,
        delete_error(root, None) is Some,
{
    path::directories_cover_what_lies_below(root, below, dir, 0);
    if delete_error(root, Some(dir)) is None {
        assert(dir.take(root.len() as int) =~= dir.subrange(0, root.len() as int));
        if dir.len() == root.len() {
            assert(dir.subrange(0, root.len() as int) =~= dir);
        }
    }
    if below.len() > 0 {
        assert((root + below).len() > root.len());
    }
}

/// Links of the web and of mail are opened outside, in any case of the letters and with white
/// space around them; nothing else is.
pub proof fn only_links_are_opened_outside(url: Seq<char>, rest: Seq<char>)
    requires
        rest.len() > 0,
        !text::is_space(rest.last()),
    ensures
        opens_outside("http://"@ + rest),
        opens_outside("https://"@ + rest),
        opens_outside("mailto:"@ + rest),
        opens_outside(url) ==> ({
            let t = text::lowered(text::trimmed(url));
            t.len() >= 7 && (t.take(7) == "http://"@ || t.take(7) == "mailto:"@ || (t.len() >= 8
                && t.take(8) == "https://"@))
        }),
{
    reveal_strlit("http://");
    reveal_strlit("https://");
    reveal_strlit("mailto:");
    let a = "http://"@ + rest;
    let b = "https://"@ + rest;
    let c = "mailto:"@ + rest;
    assert(a.last() == rest.last() && b.last() == rest.last() && c.last() == rest.last());
    text::lemma_trimmed_id(a);
    text::lemma_trimmed_id(b);
    text::lemma_trimmed_id(c);
    assert(text::lowered(a).subrange(0, 7) =~= "http://"@);
    assert(text::lowered(b).subrange(0, 8) =~= "https://"@);
    assert(text::lowered(c).subrange(0, 7) =~= "mailto:"@);
    let t = text::lowered(text::trimmed(url));
    if t.len() >= 7 {
        assert(t.take(7) =~= t.subrange(0, 7));
    }
    if t.len() >= 8 {
        assert(t.take(8) =~= t.subrange(0, 8));
    }
}

/// A plugin under development never learns the real state of the account: whatever that is, it
/// is told the same. Every other plugin is told the real state.
pub proof fn the_account_is_kept_from_development(
    id: Seq<char>,
    mock_mode: Seq<char>,
    one: PluginAccountState,
    other: PluginAccountState,
)
    ensures
        told_account(Some((id, true)), mock_mode, one) == told_account(
            Some((id, true)),
            mock_mode,
            other,
        ),
        told_account(Some((id, true)), mock_mode, one).logged_in <==> mock_mode != "notLoggedIn"@,
        told_account(Some((id, true)), mock_mode, one).cloud_configured,
        told_account(Some((id, false)), mock_mode, one) == one,
        told_account(None, mock_mode, one) == one,
{
}

/// Data of a plugin under development stays in its own store and never leaves the machine; that
/// of an installed one is kept apart from it and sent. Data that is JSON is stored as that.
pub proof fn test_data_stays_here(id: Seq<char>, value: Seq<char>, rewritten: Seq<char>)
    ensures
        ({
            let (ns, test, json, auto_sync) = data_write((id, true), value, Some(rewritten));
            test && !auto_sync && json == rewritten && ns == "plugin:"@ + id
        }),
        ({
            let (ns, test, json, auto_sync) = data_write((id, false), value, None);
            !test && auto_sync && json == crate::json::json_quoted(value) && ns == "plugin:"@ + id
        }),
{
}

/// A file is written only in the plugin's own directory or below it, where the system can tell.
pub proof fn writes_stay_in_the_sandbox(
    sandbox: Seq<Seq<char>>,
    parent: Seq<Seq<char>>,
    below: Seq<Seq<char>>,
)
    ensures
        may_write_in(Some(sandbox), Some(parent)) ==> parent.len() >= sandbox.len()
            && parent.take(sandbox.len() as int) == sandbox,
        may_write_in(Some(sandbox), Some(sandbox + below)),
        may_write_in(None, Some(parent)),
        may_write_in(Some(sandbox), None),
{
    path::directories_cover_what_lies_below(sandbox, below, parent, 0);
    if may_write_in(Some(sandbox), Some(parent)) {
        assert(parent.take(sandbox.len() as int) =~= parent.subrange(0, sandbox.len() as int));
    }
}

/// A file that was not there counts as deleted; any other failure is told.
pub proof fn failed_deletions_are_told(e: Seq<char>)
    ensures
        removal_error(Some(e), true) is None,
        removal_error(None, false) is None,
        removal_error(Some(e), false) is Some,
        e.is_suffix_of(removal_error(Some(e), false)->0),
{
    let m = removal_error(Some(e), false)->0;
    assert(m.subrange(m.len() - e.len(), m.len() as int) =~= e);
}

} // verus!
