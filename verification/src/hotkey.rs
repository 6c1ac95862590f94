//! Hotkeys that plugins take.

use crate::json;
use crate::session::ActiveSession;
use crate::text;
use std::collections::HashMap;
use vstd::prelude::*;

verus! {

broadcast use vstd::std_specs::hash::group_hash_axioms;

/// Who took a hotkey, and for what.
#[derive(Debug)]
pub struct HotkeyBinding {
    pub plugin_id: String,
    /// The feature that it calls up.
    pub code: Option<String>,
    pub accelerator: String,
    /// Whether a plugin under development took it.
    pub dev: bool,
}

impl HotkeyBinding {
    /// The session that a binding belongs to.
    pub open spec fn owner(&self) -> (Seq<char>, bool) {
        (self.plugin_id@, self.dev)
    }

    /// Whether a binding belongs to a session.
    pub fn owned_by(&self, s: &ActiveSession) -> (r: bool)
        ensures
            r == (self.owner() == s@),
    {
        self.dev == s.dev && text::str_eq(self.plugin_id.as_str(), s.id.as_str())
    }
}

/// Whether a session may take a hotkey.
#[derive(PartialEq, Eq, Debug)]
pub enum Takeover {
    /// Nobody has it.
    Free,
    /// Who has it gives way.
    Replace,
    /// It stays with who has it, for this reason.
    Deny(String),
}

/// The view of [`Takeover`].
pub enum TakeoverView {
    Free,
    Replace,
    Deny(Seq<char>),
}

impl View for Takeover {
    type V = TakeoverView;

    open spec fn view(&self) -> TakeoverView {
        match self {
            Takeover::Free => TakeoverView::Free,
            Takeover::Replace => TakeoverView::Replace,
            Takeover::Deny(s) => TakeoverView::Deny(s@),
        }
    }
}

/// Why a hotkey stays with the plugin that has it.
pub open spec fn taken_message(plugin_id: Seq<char>, dev: bool, accelerator: Seq<char>) -> Seq<
    char,
> {
    let who = if dev {
        "调试会话中的插件"@
    } else {
        "正式插件"@
    };
    let hint = if dev {
        "调试环境与正式环境互不抢占。请换一个组合键；若那个调试插件已经不用了，重启 iTools 即可释放（插件热键只登记在进程内，关掉调试窗口并不会自动注销）"@
    } else {
        "调试环境不会抢走正式插件的热键。请给调试插件换一个组合键；或重启 iTools 释放（插件热键只登记在进程内，重启后正式插件要等下次被打开才会重新注册）"@
    };
    "快捷键 "@ + accelerator + " 已被"@ + who + "「"@ + plugin_id + "」占用："@ + hint
}

/// Whether a session may take a hotkey that may be bound. Plugins under development and
/// installed ones never take from each other; on the same side, the last one wins.
pub open spec fn arbitrated(
    prev: Option<((Seq<char>, bool))>,
    me: (Seq<char>, bool),
    accelerator: Seq<char>,
) -> TakeoverView {
    match prev {
        None => TakeoverView::Free,
        Some(b) => if b.1 != me.1 {
            TakeoverView::Deny(taken_message(b.0, b.1, accelerator))
        } else {
            TakeoverView::Replace
        },
    }
}

/// Decides whether a session may take a hotkey, see [`arbitrated`].
pub fn arbitrate(prev: Option<&HotkeyBinding>, me: &ActiveSession, accelerator: &str) -> (r:
    Takeover)
    ensures
        r@ == arbitrated(
            match prev {
                Some(b) => Some(b.owner()),
                None => None,
            },
            me@,
            accelerator@,
        ),
{
    let b = match prev {
        Some(b) => b,
        None => {
            return Takeover::Free;
        },
    };
    if b.dev != me.dev {
        let who = if b.dev {
            "调试会话中的插件"
        } else {
            "正式插件"
        };
        let hint = if b.dev {
            "调试环境与正式环境互不抢占。请换一个组合键；若那个调试插件已经不用了，重启 iTools 即可释放（插件热键只登记在进程内，关掉调试窗口并不会自动注销）"
        } else {
            "调试环境不会抢走正式插件的热键。请给调试插件换一个组合键；或重启 iTools 释放（插件热键只登记在进程内，重启后正式插件要等下次被打开才会重新注册）"
        };
        return Takeover::Deny(
            text::owned("快捷键 ").concat(accelerator).concat(" 已被").concat(who).concat(
                "「",
            ).concat(b.plugin_id.as_str()).concat("」占用：").concat(hint),
        );
    }
    Takeover::Replace
}

/// The hotkeys that plugins have, by the numbers of the keys.
#[derive(Debug)]
pub struct PluginHotkeys {
    pub map: HashMap<u32, HotkeyBinding>,
}

/// Who has a key.
pub open spec fn owner_of(m: Map<u32, HotkeyBinding>, key: u32) -> Option<(Seq<char>, bool)> {
    if m.dom().contains(key) {
        Some(m[key].owner())
    } else {
        None
    }
}

impl PluginHotkeys {
    pub fn new() -> (r: Self)
        ensures
            r.map@ == Map::<u32, HotkeyBinding>::empty(),
    {
        PluginHotkeys { map: HashMap::new() }
    }

    /// Prepares for a session to take a key. Where who has it gives way, it is taken out, and
    /// the key has to be given back to the system first: the answer is then `true`.
    pub fn claim(&mut self, key: u32, me: &ActiveSession, accelerator: &str) -> (r: Result<
        bool,
        String,
    >)
        ensures
            match arbitrated(owner_of(old(self).map@, key), me@, accelerator@) {
                TakeoverView::Deny(why) => r is Err && r->Err_0@ == why && final(self).map@
                    == old(self).map@,
                TakeoverView::Free => r == Ok::<bool, String>(false) && final(self).map@ == old(
                    self).map@,
                TakeoverView::Replace => r == Ok::<bool, String>(true) && final(self).map@ == old(
                    self).map@.remove(key),
            },
    {
        let decision = arbitrate(self.map.get(&key), me, accelerator);
        match decision {
            Takeover::Deny(why) => Err(why),
            Takeover::Free => Ok(false),
            Takeover::Replace => {
                self.map.remove(&key);
                Ok(true)
            },
        }
    }

    /// Notes who has a key.
    pub fn bind(
        &mut self,
        key: u32,
        me: &ActiveSession,
        code: Option<String>,
        accelerator: String,
    )
        ensures
            final(self).map@ == old(self).map@.insert(key, final(self).map@[key]),
            final(self).map@[key].owner() == me@,
            final(self).map@[key].code == code,
            final(self).map@[key].accelerator == accelerator,
    {
        let b = HotkeyBinding {
            plugin_id: me.id.clone(),
            code,
            accelerator,
            dev: me.dev,
        };
        self.map.insert(key, b);
    }

    /// Lets a session give a key back; only its own. The answer says whether the key has to be
    /// given back to the system.
    pub fn release(&mut self, key: u32, me: &ActiveSession) -> (r: Result<bool, String>)
        ensures
            text::outcome_of(r) == release_outcome(owner_of(old(self).map@, key), me@),
            match owner_of(old(self).map@, key) {
                None => r == Ok::<bool, String>(false) && final(self).map@ == old(self).map@,
                Some(owner) => if owner == me@ {
                    r == Ok::<bool, String>(true) && final(self).map@ == old(self).map@.remove(key)
                } else {
                    r is Err && r->Err_0@ == "该快捷键不属于本插件，拒绝注销"@ && final(self).map@
                        == old(self).map@
                },
            },
    {
        let own = match self.map.get(&key) {
            Some(b) => b.owned_by(me),
            None => {
                return Ok(false);
            },
        };
        if own {
            self.map.remove(&key);
            Ok(true)
        } else {
            Err(text::owned("该快捷键不属于本插件，拒绝注销"))
        }
    }
}

/// Checks that a plugin may take hotkeys.
pub fn check_register(granted: bool) -> (r: Result<(), String>)
    ensures
        text::message_of(r) == (if granted {
            None
        } else {
            Some("插件未获授权注册全局热键（请在「插件管理」里授权 hotkey）"@)
        }),
{
    if granted {
        Ok(())
    } else {
        Err(text::owned("插件未获授权注册全局热键（请在「插件管理」里授权 hotkey）"))
    }
}

/// Checks that a plugin may give hotkeys back.
pub fn check_unregister(granted: bool) -> (r: Result<(), String>)
    ensures
        text::message_of(r) == (if granted {
            None
        } else {
            Some("插件未获授权全局热键（请在「插件管理」里授权 hotkey）"@)
        }),
{
    if granted {
        Ok(())
    } else {
        Err(text::owned("插件未获授权全局热键（请在「插件管理」里授权 hotkey）"))
    }
}

/// The query that a plugin is opened with by a hotkey, so that it can tell it from a keyword.
pub const HOTKEY_QUERY: &'static str = "__hotkey__";

/// The kind of entry that a plugin under development is opened with by a hotkey.
pub const HOTKEY_ENTER_KIND: &'static str = "keyword";

/// What pressing a hotkey does.
#[derive(Debug)]
pub enum Pressed {
    /// It is left to the host, which does what it does for its own keys: no plugin has the
    /// key, or the plugin does not run and the key names no feature.
    Unhandled,
    /// Run a script in the window of the plugin, which stays as it is.
    Emit(String),
    /// Open a plugin under development.
    OpenDev { id: String, code: String, query: &'static str, kind: &'static str },
    /// Open an installed plugin by its target.
    Open { target: String, query: &'static str, hidden: bool },
}

/// The view of [`Pressed`].
pub enum PressedView {
    Unhandled,
    Emit(Seq<char>),
    OpenDev { id: Seq<char>, code: Seq<char>, query: Seq<char>, kind: Seq<char> },
    Open { target: Seq<char>, query: Seq<char>, hidden: bool },
}

impl View for Pressed {
    type V = PressedView;

    open spec fn view(&self) -> PressedView {
        match self {
            Pressed::Unhandled => PressedView::Unhandled,
            Pressed::Emit(s) => PressedView::Emit(s@),
            Pressed::OpenDev { id, code, query, kind } => PressedView::OpenDev {
                id: id@,
                code: code@,
                query: query@,
                kind: kind@,
            },
            Pressed::Open { target, query, hidden } => PressedView::Open {
                target: target@,
                query: query@,
                hidden: *hidden,
            },
        }
    }
}

impl Pressed {
    /// Whether a plugin takes the key; else the host does what it does for its own keys.
    pub fn is_handled(&self) -> (r: bool)
        ensures
            r == (self@ != PressedView::Unhandled),
    {
        match self {
            Pressed::Unhandled => false,
            _ => true,
        }
    }
}

/// The script that tells a page of a hotkey.
pub open spec fn hotkey_script(accelerator: Seq<char>, code: Option<Seq<char>>) -> Seq<char> {
    "window.__itoolsEmit && window.__itoolsEmit('hotkey', { accelerator: "@ + json::json_quoted(
        accelerator,
    ) + ", code: "@ + (match code {
        Some(c) => json::json_quoted(c),
        None => "null"@,
    }) + " })"@
}

/// What pressing a hotkey does: where the plugin that has it runs in its window, its page is
/// told; else it is opened with the feature of the key, an installed one unseen. A key without
/// a feature is then left to the host, like a key that no plugin has.
pub open spec fn pressed(
    b: Option<HotkeyBinding>,
    window: bool,
    running: Option<(Seq<char>, bool)>,
) -> PressedView {
    match b {
        None => PressedView::Unhandled,
        Some(b) => if window && running == Some(b.owner()) {
            PressedView::Emit(hotkey_script(b.accelerator@, text::opt_view(b.code)))
        } else {
            match b.code {
                None => PressedView::Unhandled,
                Some(code) => if b.dev {
                    PressedView::OpenDev {
                        id: b.plugin_id@,
                        code: code@,
                        query: "__hotkey__"@,
                        kind: "keyword"@,
                    }
                } else {
                    PressedView::Open {
                        target: b.plugin_id@ + "#"@ + code@,
                        query: "__hotkey__"@,
                        hidden: true,
                    }
                },
            }
        },
    }
}

/// Decides what pressing a hotkey does, see [`pressed`]. `window` says whether the window of
/// the plugin's side is open, `running` what runs in it.
pub fn dispatch(b: Option<&HotkeyBinding>, window: bool, running: Option<&ActiveSession>) -> (r:
    Pressed)
    ensures
        r@ == pressed(
            match b {
                Some(x) => Some(*x),
                None => None,
            },
            window,
            match running {
                Some(s) => Some(s@),
                None => None,
            },
        ),
{
    let b = match b {
        Some(b) => b,
        None => {
            return Pressed::Unhandled;
        },
    };
    let here = match running {
        Some(s) => window && b.owned_by(s),
        None => false,
    };
    if here {
        let acc = json::quote(b.accelerator.as_str());
        let code = match &b.code {
            Some(c) => json::quote(c.as_str()),
            None => text::owned("null"),
        };
        return Pressed::Emit(
            text::owned(
                "window.__itoolsEmit && window.__itoolsEmit('hotkey', { accelerator: ",
            ).concat(acc.as_str()).concat(", code: ").concat(code.as_str()).concat(" })"),
        );
    }
    match &b.code {
        None => Pressed::Unhandled,
        Some(code) => {
            if b.dev {
                Pressed::OpenDev {
                    id: b.plugin_id.clone(),
                    code: code.clone(),
                    query: HOTKEY_QUERY,
                    kind: HOTKEY_ENTER_KIND,
                }
            } else {
                Pressed::Open {
                    target: b.plugin_id.clone().concat("#").concat(code.as_str()),
                    query: HOTKEY_QUERY,
                    hidden: true,
                }
            }
        },
    }
}

/// The window that a plugin's hotkey calls up.
pub fn window_label(b: &HotkeyBinding) -> (r: &'static str)
    ensures
        r@ == (if b.dev {
            crate::commands::DEV_WINDOW_LABEL@
        } else {
            crate::commands::PLUGIN_WINDOW_LABEL@
        }),
{
    if b.dev {
        crate::commands::DEV_WINDOW_LABEL
    } else {
        crate::commands::PLUGIN_WINDOW_LABEL
    }
}

/// A key that one side has is never lost to the other side.
pub proof fn sides_never_take_over(
    owner: (Seq<char>, bool),
    me: (Seq<char>, bool),
    accelerator: Seq<char>,
)
    ensures
        arbitrated(Some(owner), me, accelerator) is Deny <==> owner.1 != me.1,
{
}

/// A hotkey is told to the page of the plugin that has it, and to no other.
pub proof fn hotkeys_reach_their_owner(
    b: HotkeyBinding,
    window: bool,
    running: Option<(Seq<char>, bool)>,
)
    requires
        pressed(Some(b), window, running) is Emit,
    ensures
        running == Some(b.owner()),
{
}

/// A key that nobody has is free, and on the same side the last one wins.
pub proof fn the_last_one_wins(
    owner: (Seq<char>, bool),
    me: (Seq<char>, bool),
    accelerator: Seq<char>,
)
    ensures
        arbitrated(None, me, accelerator) == TakeoverView::Free,
        owner.1 == me.1 ==> arbitrated(Some(owner), me, accelerator) == TakeoverView::Replace,
{
}

/// A key of a plugin that does not run opens that plugin with the feature of the key: one under
/// development in the open, an installed one unseen. Without a feature nothing is opened, and
/// the page of a plugin that runs is told, whatever the key is for.
pub proof fn hotkeys_open_their_feature(
    b: HotkeyBinding,
    window: bool,
    running: Option<(Seq<char>, bool)>,
)
    ensures
        window && running == Some((b.plugin_id@, b.dev)) ==> pressed(Some(b), window, running)
            is Emit,
        !window || running != Some((b.plugin_id@, b.dev)) ==> match b.code {
            None => pressed(Some(b), window, running) == PressedView::Unhandled,
            Some(code) => match pressed(Some(b), window, running) {
                PressedView::OpenDev { id, code: c, query, kind } => b.dev && id == b.plugin_id@
                    && c == code@ && query == "__hotkey__"@ && kind == "keyword"@,
                PressedView::Open { target, query, hidden } => !b.dev && target == b.plugin_id@
                    + "#"@ + code@ && query == "__hotkey__"@ && hidden,
                _ => false,
            },
        },
        pressed(None, window, running) == PressedView::Unhandled,
{
}

/// What giving a key back comes to: whether it has to be given back to the system, or why it is
/// kept.
pub open spec fn release_outcome(owner: Option<(Seq<char>, bool)>, me: (Seq<char>, bool)) -> Result<
    bool,
    Seq<char>,
> {
    match owner {
        None => Ok(false),
        Some(o) => if o == me {
            Ok(true)
        } else {
            Err("该快捷键不属于本插件，拒绝注销"@)
        },
    }
}

/// A session gives back its own keys and never those of another one; a key that nobody has is
/// no error.
pub proof fn sessions_give_back_their_own_keys(owner: (Seq<char>, bool), me: (Seq<char>, bool))
    ensures
        release_outcome(Some(me), me) == Ok::<bool, Seq<char>>(true),
        owner != me ==> release_outcome(Some(owner), me) is Err,
        release_outcome(None, me) == Ok::<bool, Seq<char>>(false),
{
}

} // verus!
