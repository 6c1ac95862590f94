//! Who uses the camera, the microphone or the screen right now.

use crate::session::ActiveSession;
use crate::text;
use vstd::prelude::*;

verus! {

/// A use that is shown to the user.
#[derive(Debug)]
pub struct ActiveUse {
    pub plugin_id: String,
    /// The permission that it goes by.
    pub capability: String,
    /// What it is, in words.
    pub label: String,
}

/// A use, with the whole session.
#[derive(Debug)]
pub struct Entry {
    pub session: ActiveSession,
    pub capability: &'static str,
    pub label: String,
}

/// The view of [`Entry`].
#[verifier::ext_equal]
pub struct UseView {
    pub session: (Seq<char>, bool),
    pub capability: Seq<char>,
    pub label: Seq<char>,
}

impl View for Entry {
    type V = UseView;

    open spec fn view(&self) -> UseView {
        UseView { session: self.session@, capability: self.capability@, label: self.label@ }
    }
}

/// The view of a list of uses.
pub open spec fn use_views(v: Seq<Entry>) -> Seq<UseView> {
    Seq::new(v.len(), |i: int| v[i]@)
}

/// The permission that a recording goes by, from what it is called.
pub open spec fn capability_for(label: Seq<char>) -> Seq<char> {
    if text::occurs(label, "内录"@) {
        "audio-capture"@
    } else {
        "screen-capture"@
    }
}

/// The permission that a recording goes by, see [`capability_for`].
pub fn capability_of(label: &str) -> (r: &'static str)
    ensures
        r@ == capability_for(label@),
{
    let v = text::chars_of(label);
    if text::contains_str(v.as_slice(), "内录") {
        "audio-capture"
    } else {
        "screen-capture"
    }
}

/// Everything that is in use: who records sound, who records the screen, whose cameras run, and
/// the recordings with what they are called.
#[derive(Debug)]
pub struct InUse {
    pub audio: Option<ActiveSession>,
    pub record: Option<ActiveSession>,
    pub cameras: Vec<ActiveSession>,
    pub recordings: Vec<(ActiveSession, String)>,
}

/// The uses, in order: sound, screen, cameras, recordings.
pub open spec fn entries_of(u: InUse) -> Seq<UseView> {
    let a = match u.audio {
        Some(s) => seq![
            UseView { session: s@, capability: "audio-capture"@, label: "麦克风"@ },
        ],
        None => Seq::empty(),
    };
    let b = match u.record {
        Some(s) => seq![
            UseView { session: s@, capability: "screen-capture"@, label: "屏幕录制"@ },
        ],
        None => Seq::empty(),
    };
    let c = Seq::new(
        u.cameras@.len(),
        |i: int|
            UseView { session: u.cameras@[i]@, capability: "camera"@, label: "摄像头"@ },
    );
    let d = Seq::new(
        u.recordings@.len(),
        |i: int|
            UseView {
                session: u.recordings@[i].0@,
                capability: capability_for(u.recordings@[i].1@),
                label: u.recordings@[i].1@,
            },
    );
    a + b + c + d
}

/// The uses, see [`entries_of`].
pub fn active_entries(u: &InUse) -> (r: Vec<Entry>)
    ensures
        use_views(r@) == entries_of(*u),
{
    let mut out: Vec<Entry> = Vec::new();
    let ghost all = entries_of(*u);
    if let Some(s) = &u.audio {
        out.push(
            Entry {
                session: s.clone(),
                capability: "audio-capture",
                label: text::owned("麦克风"),
            },
        );
    }
    if let Some(s) = &u.record {
        out.push(
            Entry {
                session: s.clone(),
                capability: "screen-capture",
                label: text::owned("屏幕录制"),
            },
        );
    }
    assert(use_views(out@) =~= all.take(out@.len() as int));
    let ghost first = out@.len();
    let mut i: usize = 0;
    while i < u.cameras.len()
        invariant
            i <= u.cameras@.len(),
            all == entries_of(*u),
            out@.len() == first + i,
            first == (if u.audio is Some {
                1int
            } else {
                0
            }) + (if u.record is Some {
                1int
            } else {
                0
            }),
            use_views(out@) == all.take(out@.len() as int),
        decreases u.cameras@.len() - i,
    {
        let ghost before = out@;
        out.push(
            Entry {
                session: u.cameras[i].clone(),
                capability: "camera",
                label: text::owned("摄像头"),
            },
        );
        assert(all[first + i] == out@[first + i]@);
        assert(use_views(out@) =~= use_views(before).push(all[first + i]));
        assert(use_views(out@) =~= all.take(out@.len() as int));
        i += 1;
    }
    let ghost second = out@.len();
    let mut i: usize = 0;
    while i < u.recordings.len()
        invariant
            i <= u.recordings@.len(),
            all == entries_of(*u),
            out@.len() == second + i,
            second == first + u.cameras@.len(),
            first == (if u.audio is Some {
                1int
            } else {
                0
            }) + (if u.record is Some {
                1int
            } else {
                0
            }),
            use_views(out@) == all.take(out@.len() as int),
        decreases u.recordings@.len() - i,
    {
        let ghost before = out@;
        let label = u.recordings[i].1.clone();
        out.push(
            Entry {
                session: u.recordings[i].0.clone(),
                capability: capability_of(label.as_str()),
                label,
            },
        );
        assert(all[second + i] == out@[second + i]@);
        assert(use_views(out@) =~= use_views(before).push(all[second + i]));
        assert(use_views(out@) =~= all.take(out@.len() as int));
        i += 1;
    }
    assert(all.take(out@.len() as int) =~= all);
    out
}

/// The uses as the user sees them.
pub fn active_uses(u: &InUse) -> (r: Vec<ActiveUse>)
    ensures
        r@.len() == entries_of(*u).len(),
        forall|k: int|
            0 <= k < r@.len() ==> {
                &&& (#[trigger] r@[k]).plugin_id@ == entries_of(*u)[k].session.0
                &&& r@[k].capability@ == entries_of(*u)[k].capability
                &&& r@[k].label@ == entries_of(*u)[k].label
            },
{
    let entries = active_entries(u);
    let mut out: Vec<ActiveUse> = Vec::new();
    let mut i: usize = 0;
    while i < entries.len()
        invariant
            i <= entries@.len(),
            out@.len() == i,
            use_views(entries@) == entries_of(*u),
            forall|k: int|
                0 <= k < i ==> {
                    &&& (#[trigger] out@[k]).plugin_id@ == entries_of(*u)[k].session.0
                    &&& out@[k].capability@ == entries_of(*u)[k].capability
                    &&& out@[k].label@ == entries_of(*u)[k].label
                },
        decreases entries@.len() - i,
    {
        assert(use_views(entries@)[i as int] == entries@[i as int]@);
        out.push(
            ActiveUse {
                plugin_id: entries[i].session.id.clone(),
                capability: text::owned(entries[i].capability),
                label: entries[i].label.clone(),
            },
        );
        i += 1;
    }
    assert(use_views(entries@).len() == entries@.len());
    out
}

/// Whether anything is in use.
pub fn any_active(u: &InUse) -> (r: bool)
    ensures
        r == (entries_of(*u).len() > 0),
{
    u.audio.is_some() || u.record.is_some() || u.cameras.len() > 0 || u.recordings.len() > 0
}

// ---------------------------------------------------------------------------
// What is shown
// ---------------------------------------------------------------------------

/// What is said of each use.
pub open spec fn notes_of(v: Seq<UseView>) -> Seq<Seq<char>> {
    Seq::new(v.len(), |i: int| v[i].session.0 + " 正在使用"@ + v[i].label)
}

/// A list without what stands twice in a row.
pub open spec fn deduped(v: Seq<Seq<char>>) -> Seq<Seq<char>>
    decreases v.len(),
{
    if v.len() == 0 {
        Seq::empty()
    } else if v.len() > 1 && v[v.len() - 2] == v.last() {
        deduped(v.drop_last())
    } else {
        deduped(v.drop_last()).push(v.last())
    }
}

/// What the tray says; nothing while nothing is in use.
pub open spec fn tooltip_of(u: InUse) -> Option<Seq<char>> {
    if entries_of(u).len() == 0 {
        None
    } else {
        Some("iTools — "@ + text::joined(deduped(notes_of(entries_of(u))), "；"@))
    }
}

/// What the tray says, see [`tooltip_of`].
pub fn tray_tooltip(u: &InUse) -> (r: Option<String>)
    ensures
        text::opt_view(r) == tooltip_of(*u),
{
    let uses = active_uses(u);
    if uses.len() == 0 {
        return None;
    }
    let ghost all = notes_of(entries_of(*u));
    let mut parts: Vec<String> = Vec::new();
    let mut i: usize = 0;
    let mut last: Option<String> = None;
    assert(all.take(0) =~= Seq::<Seq<char>>::empty());
    assert(text::texts(parts@) =~= Seq::<Seq<char>>::empty());
    while i < uses.len()
        invariant
            i <= uses@.len(),
            uses@.len() == all.len(),
            all == notes_of(entries_of(*u)),
            forall|k: int|
                0 <= k < uses@.len() ==> (#[trigger] uses@[k]).plugin_id@ == entries_of(
                    *u,
                )[k].session.0 && uses@[k].label@ == entries_of(*u)[k].label,
            text::texts(parts@) == deduped(all.take(i as int)),
            i == 0 ==> last is None,
            i > 0 ==> last is Some && last->0@ == all[i - 1],
        decreases uses@.len() - i,
    {
        assert(all.take(i + 1).drop_last() =~= all.take(i as int));
        let note = uses[i].plugin_id.clone().concat(" 正在使用").concat(
            uses[i].label.as_str(),
        );
        assert(note@ == all[i as int]);
        let repeated = match &last {
            Some(s) => text::str_eq(s.as_str(), note.as_str()),
            None => false,
        };
        if !repeated {
            let ghost before = parts@;
            parts.push(note.clone());
            assert(text::texts(parts@) =~= text::texts(before).push(note@));
        }
        last = Some(note);
        i += 1;
    }
    assert(all.take(i as int) =~= all);
    let joined = text::join_strings(&parts, "；");
    Some(text::owned("iTools — ").concat(joined.as_str()))
}

/// What the tray and its menu show.
#[derive(Debug)]
pub struct TrayState {
    pub tooltip: String,
    pub item: String,
    /// Whether the menu item, which stops everything, can be chosen.
    pub enabled: bool,
}

/// What the tray shows next; `None` when it shows that already.
pub fn indicator_step(last: &Option<String>, tip: &Option<String>) -> (r: Option<TrayState>)
    ensures
        (match r {
            Some(t) => Some((t.tooltip@, t.item@, t.enabled)),
            None => None,
        }) == tray_after(text::opt_view(*last), text::opt_view(*tip)),
        text::opt_view(*last) == text::opt_view(*tip) ==> r is None,
        text::opt_view(*last) != text::opt_view(*tip) ==> {
            &&& r is Some
            &&& match *tip {
                Some(t) => {
                    &&& r->0.tooltip@ == t@
                    &&& r->0.item@ == "⚠ "@ + t@ + "（点击停止）"@
                    &&& r->0.enabled
                },
                None => {
                    &&& r->0.tooltip@ == "iTools"@
                    &&& r->0.item@ == "敏感能力：当前无使用"@
                    &&& !r->0.enabled
                },
            }
        },
{
    let same = match (last, tip) {
        (Some(a), Some(b)) => text::str_eq(a.as_str(), b.as_str()),
        (None, None) => true,
        _ => false,
    };
    if same {
        return None;
    }
    match tip {
        Some(t) => Some(
            TrayState {
                tooltip: t.clone(),
                item: text::owned("⚠ ").concat(t.as_str()).concat("（点击停止）"),
                enabled: true,
            },
        ),
        None => Some(
            TrayState {
                tooltip: text::owned("iTools"),
                item: text::owned("敏感能力：当前无使用"),
                enabled: false,
            },
        ),
    }
}

// ---------------------------------------------------------------------------
// Stopping everything
// ---------------------------------------------------------------------------

/// The sessions of uses, each once, in the order of their first use.
pub open spec fn sessions_of(v: Seq<UseView>) -> Seq<(Seq<char>, bool)>
    decreases v.len(),
{
    if v.len() == 0 {
        Seq::empty()
    } else {
        let before = sessions_of(v.drop_last());
        if before.contains(v.last().session) {
            before
        } else {
            before.push(v.last().session)
        }
    }
}

/// The view of a list of sessions.
pub open spec fn session_views(v: Seq<ActiveSession>) -> Seq<(Seq<char>, bool)> {
    Seq::new(v.len(), |i: int| v[i]@)
}

/// Whether a session is in a list.
pub fn has_session(v: &Vec<ActiveSession>, s: &ActiveSession) -> (r: bool)
    ensures
        r == session_views(v@).contains(s@),
{
    let mut i: usize = 0;
    while i < v.len()
        invariant
            i <= v@.len(),
            forall|j: int| 0 <= j < i ==> #[trigger] session_views(v@)[j] != s@,
        decreases v@.len() - i,
    {
        if v[i].same_as(s) {
            assert(session_views(v@)[i as int] == s@);
            return true;
        }
        assert(session_views(v@)[i as int] != s@);
        i += 1;
    }
    false
}

/// The sessions that are stopped when the user stops everything: those of all uses, each once.
pub fn sessions_to_stop(u: &InUse) -> (r: Vec<ActiveSession>)
    ensures
        session_views(r@) == sessions_of(entries_of(*u)),
{
    let entries = active_entries(u);
    let ghost all = use_views(entries@);
    let mut out: Vec<ActiveSession> = Vec::new();
    let mut i: usize = 0;
    assert(all.take(0) =~= Seq::<UseView>::empty());
    assert(session_views(out@) =~= Seq::<(Seq<char>, bool)>::empty());
    while i < entries.len()
        invariant
            i <= entries@.len(),
            all == use_views(entries@),
            session_views(out@) == sessions_of(all.take(i as int)),
        decreases entries@.len() - i,
    {
        assert(all.take(i + 1).drop_last() =~= all.take(i as int));
        assert(all.take(i + 1).last() == entries@[i as int]@);
        if !has_session(&out, &entries[i].session) {
            let ghost before = out@;
            out.push(entries[i].session.clone());
            assert(session_views(out@) =~= session_views(before).push(
                entries@[i as int]@.session,
            ));
        }
        i += 1;
    }
    assert(all.take(i as int) =~= all);
    out
}

/// Every use that is shown is stopped when the user stops everything.
pub proof fn every_use_is_stopped(v: Seq<UseView>, k: int)
    requires
        0 <= k < v.len(),
    ensures
        sessions_of(v).contains(v[k].session),
    decreases v.len(),
{
    let before = sessions_of(v.drop_last());
    if k < v.len() - 1 {
        every_use_is_stopped(v.drop_last(), k);
        let m = choose|m: int| 0 <= m < before.len() && before[m] == v[k].session;
        assert(sessions_of(v)[m] == v[k].session);
    } else if !before.contains(v.last().session) {
        assert(sessions_of(v)[before.len() as int] == v[k].session);
    }
}

/// The tray speaks exactly while something is in use, so no use goes unseen.
pub proof fn tray_speaks_while_in_use(u: InUse)
    ensures
        tooltip_of(u) is Some <==> entries_of(u).len() > 0,
{
}

/// Every use is shown under its permission: the recorder of sound, the recorder of the screen,
/// each camera and each recording, and nothing besides.
pub proof fn every_use_is_shown(u: InUse, k: int)
    ensures
        u.audio matches Some(s) ==> entries_of(u).contains(
            UseView { session: s@, capability: "audio-capture"@, label: "麦克风"@ },
        ),
        u.record matches Some(s) ==> entries_of(u).contains(
            UseView { session: s@, capability: "screen-capture"@, label: "屏幕录制"@ },
        ),
        0 <= k < u.cameras@.len() ==> entries_of(u).contains(
            UseView { session: u.cameras@[k]@, capability: "camera"@, label: "摄像头"@ },
        ),
        0 <= k < u.recordings@.len() ==> exists|i: int|
            0 <= i < entries_of(u).len() && (#[trigger] entries_of(u)[i]).session
                == u.recordings@[k].0@ && entries_of(u)[i].label == u.recordings@[k].1@
                && entries_of(u)[i].capability == if text::occurs(
                u.recordings@[k].1@,
                "内录"@,
            ) {
                "audio-capture"@
            } else {
                "screen-capture"@
            },
        entries_of(u).len() == (if u.audio is Some {
            1int
        } else {
            0
        }) + (if u.record is Some {
            1int
        } else {
            0
        }) + u.cameras@.len() + u.recordings@.len(),
{
    let all = entries_of(u);
    let a: int = if u.audio is Some {
        1
    } else {
        0
    };
    let b: int = if u.record is Some {
        1
    } else {
        0
    };
    if u.audio is Some {
        assert(all[0].session == u.audio->0@);
        assert(all[0] =~= (UseView {
            session: u.audio->0@,
            capability: "audio-capture"@,
            label: "麦克风"@,
        }));
    }
    if u.record is Some {
        assert(all[a] =~= (UseView {
            session: u.record->0@,
            capability: "screen-capture"@,
            label: "屏幕录制"@,
        }));
    }
    if 0 <= k < u.cameras@.len() {
        assert(all[a + b + k] =~= (UseView {
            session: u.cameras@[k]@,
            capability: "camera"@,
            label: "摄像头"@,
        }));
    }
    if 0 <= k < u.recordings@.len() {
        let i = a + b + u.cameras@.len() + k;
        assert(all[i].session == u.recordings@[k].0@);
    }
}

/// Nothing but uses is stopped, and no session twice.
pub proof fn only_uses_are_stopped(v: Seq<UseView>)
    ensures
        sessions_of(v).no_duplicates(),
        forall|s: (Seq<char>, bool)|
            #[trigger]
            sessions_of(v).contains(s) ==> exists|k: int|
                0 <= k < v.len() && (#[trigger] v[k]).session == s,
    decreases v.len(),
{
    if v.len() > 0 {
        let less = v.drop_last();
        only_uses_are_stopped(less);
        let all = sessions_of(v);
        let before = sessions_of(less);
        assert forall|s: (Seq<char>, bool)| #[trigger] all.contains(s) implies exists|k: int|
            0 <= k < v.len() && (#[trigger] v[k]).session == s by {
            if before.contains(s) {
                let k = choose|k: int| 0 <= k < less.len() && (#[trigger] less[k]).session == s;
                assert(v[k].session == s);
            } else {
                let j = choose|j: int| 0 <= j < all.len() && all[j] == s;
                if j < before.len() {
                    assert(before[j] == s);
                }
                assert(v[v.len() - 1].session == s);
            }
        }
    }
}

/// The tray names every use: who, and what. Only what stands twice in a row is said once.
pub proof fn every_use_is_named(v: Seq<UseView>, k: int)
    requires
        0 <= k < v.len(),
    ensures
        deduped(notes_of(v)).contains(v[k].session.0 + " 正在使用"@ + v[k].label),
{
    assert(notes_of(v)[k] == v[k].session.0 + " 正在使用"@ + v[k].label);
    lemma_deduped(notes_of(v), k);
}

proof fn lemma_deduped(v: Seq<Seq<char>>, k: int)
    requires
        0 <= k < v.len(),
    ensures
        deduped(v).contains(v[k]),
        deduped(v).len() > 0,
        deduped(v).last() == v.last(),
    decreases v.len(),
{
    let less = v.drop_last();
    if v.len() > 1 {
        lemma_deduped(
            less,
            if k < v.len() - 1 {
                k
            } else {
                v.len() - 2
            },
        );
        assert(less.last() == v[v.len() - 2]);
        if k < v.len() - 1 {
            let j = choose|j: int| 0 <= j < deduped(less).len() && deduped(less)[j] == v[k];
            assert(deduped(v)[j] == v[k]);
        } else {
            assert(deduped(v)[deduped(v).len() - 1] == v.last());
        }
    } else {
        assert(deduped(less) =~= Seq::<Seq<char>>::empty());
        assert(deduped(v) =~= seq![v[0]]);
        assert(deduped(v)[0] == v[0]);
    }
}

/// What the tray shows next: its text, that of its menu item, and whether that can be chosen.
pub open spec fn tray_after(last: Option<Seq<char>>, tip: Option<Seq<char>>) -> Option<
    (Seq<char>, Seq<char>, bool),
> {
    if last == tip {
        None
    } else {
        match tip {
            Some(t) => Some((t, "⚠ "@ + t + "（点击停止）"@, true)),
            None => Some(("iTools"@, "敏感能力：当前无使用"@, false)),
        }
    }
}

/// The tray changes just where the uses do. It then shows the uses and can stop them; where
/// there are none any more, there is nothing to stop.
pub proof fn the_tray_shows_every_change(last: Option<Seq<char>>, tip: Option<Seq<char>>)
    ensures
        tray_after(last, tip) is None <==> last == tip,
        last != tip ==> {
            let shown = tray_after(last, tip)->0;
            &&& shown.2 <==> tip is Some
            &&& tip is Some ==> shown.0 == tip->0
            &&& tip is Some ==> shown.1.subrange(2, 2 + tip->0.len() as int) == tip->0
        },
{
    reveal_strlit("⚠ ");
    if last != tip && tip is Some {
        let shown = tray_after(last, tip)->0;
        assert("⚠ "@.len() == 2);
        assert(shown.1.subrange(2, 2 + tip->0.len() as int) =~= tip->0);
    }
}

} // verus!
