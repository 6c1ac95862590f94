//! A log of who used which permission.

use crate::session::ActiveSession;
use crate::text;
use vstd::prelude::*;

verus! {

/// The most entries that are kept.
pub const CAPACITY: usize = 500;

/// The seconds within which a like call counts with the one before it.
pub const MERGE_WINDOW_SECS: u64 = 5;

/// One or more like calls, one after the other.
#[derive(Debug)]
pub struct AuditEntry {
    pub plugin_id: String,
    pub dev: bool,
    pub permission: String,
    /// When the first of them was, in seconds.
    pub first_at: u64,
    /// When the last of them was.
    pub last_at: u64,
    /// How many they are.
    pub count: u64,
    /// Whether they were allowed.
    pub granted: bool,
}

/// The view of [`AuditEntry`].
#[verifier::ext_equal]
pub struct EntryView {
    pub session: (Seq<char>, bool),
    pub permission: Seq<char>,
    pub first_at: u64,
    pub last_at: u64,
    pub count: u64,
    pub granted: bool,
}

impl View for AuditEntry {
    type V = EntryView;

    open spec fn view(&self) -> EntryView {
        EntryView {
            session: (self.plugin_id@, self.dev),
            permission: self.permission@,
            first_at: self.first_at,
            last_at: self.last_at,
            count: self.count,
            granted: self.granted,
        }
    }
}

impl Clone for AuditEntry {
    fn clone(&self) -> (r: Self)
        ensures
            r@ == self@,
    {
        AuditEntry {
            plugin_id: self.plugin_id.clone(),
            dev: self.dev,
            permission: self.permission.clone(),
            first_at: self.first_at,
            last_at: self.last_at,
            count: self.count,
            granted: self.granted,
        }
    }
}

/// The view of a list of entries.
pub open spec fn entry_views(v: Seq<AuditEntry>) -> Seq<EntryView> {
    Seq::new(v.len(), |i: int| v[i]@)
}

/// Whether a call counts with an entry.
pub open spec fn merges(
    e: EntryView,
    session: (Seq<char>, bool),
    permission: Seq<char>,
    granted: bool,
    now: u64,
) -> bool {
    e.session == session && e.permission == permission && e.granted == granted && now - e.last_at
        <= MERGE_WINDOW_SECS
}

/// The log after a call: the last entry counts it, or a new one does, for which the oldest
/// entry goes where there is no room.
pub open spec fn recorded(
    log: Seq<EntryView>,
    session: (Seq<char>, bool),
    permission: Seq<char>,
    granted: bool,
    now: u64,
) -> Seq<EntryView> {
    if log.len() > 0 && merges(log.last(), session, permission, granted, now) {
        let e = log.last();
        log.drop_last().push(
            EntryView {
                last_at: now,
                count: if e.count < u64::MAX {
                    (e.count + 1) as u64
                } else {
                    e.count
                },
                ..e
            },
        )
    } else {
        let kept = if log.len() >= CAPACITY {
            log.drop_first()
        } else {
            log
        };
        kept.push(
            EntryView { session, permission, first_at: now, last_at: now, count: 1, granted },
        )
    }
}

/// The log, oldest entry first.
#[derive(Debug)]
pub struct AuditLog {
    entries: Vec<AuditEntry>,
}

impl View for AuditLog {
    type V = Seq<EntryView>;

    closed spec fn view(&self) -> Seq<EntryView> {
        entry_views(self.entries@)
    }
}

/// The entries of a plugin, or all, newest first.
pub open spec fn newest_first(log: Seq<EntryView>, plugin_id: Option<Seq<char>>) -> Seq<EntryView>
    decreases log.len(),
{
    if log.len() == 0 {
        Seq::empty()
    } else if plugin_id is None || log.last().session.0 == plugin_id->0 {
        seq![log.last()] + newest_first(log.drop_last(), plugin_id)
    } else {
        newest_first(log.drop_last(), plugin_id)
    }
}

/// The first so many of a list.
pub open spec fn at_most(v: Seq<EntryView>, n: nat) -> Seq<EntryView> {
    if v.len() <= n {
        v
    } else {
        v.take(n as int)
    }
}

/// How many entries are shown: 200 where nothing is asked, never more than are kept.
pub open spec fn shown_limit(limit: Option<usize>) -> nat {
    match limit {
        Some(n) => if n < CAPACITY {
            n as nat
        } else {
            CAPACITY as nat
        },
        None => 200,
    }
}

impl AuditLog {
    #[verifier::type_invariant]
    spec fn inv(self) -> bool {
        self.entries@.len() <= CAPACITY
    }

    pub fn new() -> (r: Self)
        ensures
            r@ == Seq::<EntryView>::empty(),
    {
        let r = AuditLog { entries: Vec::new() };
        assert(r@ =~= Seq::<EntryView>::empty());
        r
    }

    /// The entries, newest first, of a plugin where one is named.
    pub fn plugin_audit_log(&self, plugin_id: Option<&str>, limit: Option<usize>) -> (r: Vec<
        AuditEntry,
    >)
        ensures
            entry_views(r@) == at_most(
                newest_first(self@, text::opt_str(plugin_id)),
                shown_limit(limit),
            ),
    {
        let most: usize = match limit {
            Some(n) => if n < CAPACITY {
                n
            } else {
                CAPACITY
            },
            None => 200,
        };
        let ghost all = self@;
        let ghost id = text::opt_str(plugin_id);
        let ghost whole = newest_first(all, id);
        let mut out: Vec<AuditEntry> = Vec::new();
        let mut i: usize = self.entries.len();
        assert(all.take(i as int) =~= all);
        assert(entry_views(out@) =~= Seq::<EntryView>::empty());
        assert(entry_views(out@) + whole =~= whole);
        while i > 0 && out.len() < most
            invariant
                i <= self.entries@.len(),
                all == self@,
                id == text::opt_str(plugin_id),
                whole == newest_first(all, id),
                whole == entry_views(out@) + newest_first(all.take(i as int), id),
                out@.len() <= most,
            decreases i,
        {
            let ghost t = all.take(i as int);
            assert(t.drop_last() =~= all.take(i - 1));
            assert(t.last() == self.entries@[i - 1]@);
            let pass = match plugin_id {
                Some(p) => text::str_eq(self.entries[i - 1].plugin_id.as_str(), p),
                None => true,
            };
            if pass {
                let ghost before = out@;
                let ghost rest = newest_first(all.take(i - 1), id);
                out.push(self.entries[i - 1].clone());
                assert(entry_views(out@) =~= entry_views(before).push(t.last()));
                assert(entry_views(before) + (seq![t.last()] + rest) =~= entry_views(out@) + rest);
            }
            i -= 1;
        }
        proof {
            if i == 0 {
                assert(newest_first(all.take(0), id) =~= Seq::<EntryView>::empty());
                assert(entry_views(out@) + Seq::<EntryView>::empty() =~= entry_views(out@));
                if out@.len() == most {
                    assert(whole.take(most as int) =~= whole);
                }
            } else {
                assert(whole.take(most as int) =~= entry_views(out@));
            }
        }
        out
    }

    /// Drops all entries.
    pub fn plugin_audit_clear(&mut self)
        ensures
            final(self)@ == Seq::<EntryView>::empty(),
    {
        self.entries = Vec::new();
        assert(self@ =~= Seq::<EntryView>::empty());
    }
}

/// Notes a call, see [`recorded`].
pub fn record(
    log: &mut AuditLog,
    session: &ActiveSession,
    permission: &str,
    granted: bool,
    now: u64,
)
    ensures
        final(log)@ == recorded(old(log)@, session@, permission@, granted, now),
        final(log)@.len() <= CAPACITY,
{
    proof {
        use_type_invariant(&*log);
    }
    let ghost before = log@;
    let mut v: Vec<AuditEntry> = Vec::new();
    std::mem::swap(&mut v, &mut log.entries);
    let n: usize = v.len();
    if n > 0 {
        let last = &v[n - 1];
        let same = text::str_eq(last.plugin_id.as_str(), session.id.as_str()) && last.dev
            == session.dev && text::str_eq(last.permission.as_str(), permission) && last.granted
            == granted && (now < last.last_at || now - last.last_at <= MERGE_WINDOW_SECS);
        assert(before.last() == last@);
        assert(same == merges(before.last(), session@, permission@, granted, now));
        if same {
            if let Some(e) = v.pop() {
                let count: u64 = if e.count < u64::MAX {
                    e.count + 1
                } else {
                    e.count
                };
                v.push(
                    AuditEntry {
                        plugin_id: e.plugin_id,
                        dev: e.dev,
                        permission: e.permission,
                        first_at: e.first_at,
                        last_at: now,
                        count,
                        granted: e.granted,
                    },
                );
            }
            log.entries = v;
            assert(log@ =~= recorded(before, session@, permission@, granted, now));
            return ;
        }
    }
    if v.len() >= CAPACITY {
        v.remove(0);
    }
    v.push(
        AuditEntry {
            plugin_id: session.id.clone(),
            dev: session.dev,
            permission: text::owned(permission),
            first_at: now,
            last_at: now,
            count: 1,
            granted,
        },
    );
    log.entries = v;
    assert(log@ =~= recorded(before, session@, permission@, granted, now));
}

/// Whether the first entry that the log shows of a plugin tells of a decision.
pub open spec fn shows_first(
    log: Seq<EntryView>,
    session: (Seq<char>, bool),
    permission: Seq<char>,
    granted: bool,
) -> bool {
    let shown = at_most(newest_first(log, Some(session.0)), shown_limit(None));
    &&& shown.len() > 0
    &&& shown[0].session == session
    &&& shown[0].permission == permission
    &&& shown[0].granted == granted
}

/// Every call is in the newest entry afterwards: who, what, whether allowed, and when. It is
/// also the first that the log shows of the plugin.
pub proof fn calls_are_never_lost(
    log: Seq<EntryView>,
    session: (Seq<char>, bool),
    permission: Seq<char>,
    granted: bool,
    now: u64,
)
    ensures
        ({
            let e = recorded(log, session, permission, granted, now).last();
            &&& e.session == session
            &&& e.permission == permission
            &&& e.granted == granted
            &&& e.last_at == now
        }),
        shows_first(recorded(log, session, permission, granted, now), session, permission, granted),
{
}

/// Calls that differ in plugin, side, permission or outcome never count together.
pub proof fn unlike_calls_stay_apart(
    log: Seq<EntryView>,
    a: (Seq<char>, bool),
    b: (Seq<char>, bool),
    perm_a: Seq<char>,
    perm_b: Seq<char>,
    granted_a: bool,
    granted_b: bool,
    now: u64,
    later: u64,
)
    requires
        a != b || perm_a != perm_b || granted_a != granted_b,
        log.len() < CAPACITY - 1,
    ensures
        ({
            let one = recorded(log, a, perm_a, granted_a, now);
            let two = recorded(one, b, perm_b, granted_b, later);
            two.len() == one.len() + 1 && two[two.len() - 2] == one.last()
        }),
{
}

/// Like calls count together where one follows the other within 5 seconds, and stand apart
/// where it does not.
pub proof fn like_calls_count_together(
    log: Seq<EntryView>,
    session: (Seq<char>, bool),
    permission: Seq<char>,
    granted: bool,
    now: u64,
    later: u64,
)
    requires
        log.len() < 499,
    ensures
        ({
            let one = recorded(log, session, permission, granted, now);
            let two = recorded(one, session, permission, granted, later);
            &&& later <= now + 5 ==> two.len() == one.len() && two.last().first_at
                == one.last().first_at && (one.last().count < u64::MAX ==> two.last().count
                == one.last().count + 1)
            &&& later > now + 5 ==> two == one.push(two.last()) && two.last().count == 1
                && two.last().first_at == later
        }),
{
}

/// How many calls the entries count.
pub open spec fn calls(log: Seq<EntryView>) -> int
    decreases log.len(),
{
    if log.len() == 0 {
        0
    } else {
        calls(log.drop_last()) + log.last().count
    }
}

/// Every call counts once, and entries of earlier calls stay as they are: only where the log
/// holds 500 of them does the oldest go for a new one.
pub proof fn every_call_counts_once(
    log: Seq<EntryView>,
    session: (Seq<char>, bool),
    permission: Seq<char>,
    granted: bool,
    now: u64,
)
    requires
        log.len() <= 500,
        log.len() > 0 ==> 0 < log.last().count < u64::MAX,
    ensures
        ({
            let after = recorded(log, session, permission, granted, now);
            &&& after.len() <= 500
            &&& log.len() < 500 ==> calls(after) == calls(log) + 1
            &&& 0 < log.len() < 500 ==> log.drop_last().is_prefix_of(after)
            &&& log.len() == 500 && after.last().count == 1 ==> after.drop_last() == log.skip(1)
            &&& log.len() == 500 && after.last().count > 1 ==> after.drop_last()
                == log.drop_last()
        }),
{
    let after = recorded(log, session, permission, granted, now);
    if log.len() > 0 && merges(log.last(), session, permission, granted, now) {
        assert(after.drop_last() =~= log.drop_last());
        assert(after.subrange(0, log.len() - 1) =~= log.drop_last());
    } else if log.len() < 500 {
        assert(after.drop_last() =~= log);
        if log.len() > 0 {
            assert(after.subrange(0, log.len() - 1) =~= log.drop_last());
        }
    } else {
        assert(after.drop_last() =~= log.drop_first());
        assert(log.drop_first() =~= log.skip(1));
    }
}

/// What is shown is the newest first: each shown entry is one of the log's, of the plugin that
/// was asked for, and older than the one shown before it; and none of the plugin's is left out.
pub proof fn the_newest_are_shown_first(
    log: Seq<EntryView>,
    plugin_id: Option<Seq<char>>,
    k: int,
) -> (places: Seq<int>)
    ensures
        places.len() == newest_first(log, plugin_id).len(),
        forall|i: int|
            0 <= i < places.len() ==> 0 <= #[trigger] places[i] < log.len() && newest_first(
                log,
                plugin_id,
            )[i] == log[places[i]],
        forall|i: int, j: int|
            0 <= i < j < places.len() ==> #[trigger] places[i] > #[trigger] places[j],
        0 <= k < log.len() ==> (places.contains(k) <==> plugin_id is None || log[k].session.0
            == plugin_id->0),
    decreases log.len(),
{
    if log.len() == 0 {
        Seq::empty()
    } else {
        let less = log.drop_last();
        let last = log.len() - 1;
        let before = the_newest_are_shown_first(less, plugin_id, k);
        if plugin_id is None || log.last().session.0 == plugin_id->0 {
            let all = seq![last] + before;
            assert forall|i: int| 0 <= i < all.len() implies 0 <= #[trigger] all[i] < log.len()
                && newest_first(log, plugin_id)[i] == log[all[i]] by {
                if i > 0 {
                    assert(all[i] == before[i - 1]);
                    assert(less[before[i - 1]] == log[all[i]]);
                }
            }
            assert forall|i: int, j: int| 0 <= i < j < all.len() implies #[trigger] all[i]
                > #[trigger] all[j] by {
                assert(all[j] == before[j - 1]);
                if i > 0 {
                    assert(all[i] == before[i - 1]);
                }
            }
            if k == last {
                assert(all[0] == k);
            } else if 0 <= k < last {
                assert(less[k] == log[k]);
                if before.contains(k) {
                    let i = choose|i: int| 0 <= i < before.len() && before[i] == k;
                    assert(all[i + 1] == k);
                }
                if all.contains(k) {
                    let i = choose|i: int| 0 <= i < all.len() && all[i] == k;
                    assert(before[i - 1] == k);
                }
            }
            all
        } else {
            if 0 <= k < last {
                assert(less[k] == log[k]);
            }
            assert forall|i: int| 0 <= i < before.len() implies 0 <= #[trigger] before[i]
                < log.len() && newest_first(log, plugin_id)[i] == log[before[i]] by {
                assert(less[before[i]] == log[before[i]]);
            }
            before
        }
    }
}

/// As many entries are shown as were asked for, 200 where nothing was, as far as there are so
/// many, and never more than 500.
pub proof fn as_many_are_shown_as_asked_for(v: Seq<EntryView>, limit: Option<usize>)
    ensures
        ({
            let shown = at_most(v, shown_limit(limit));
            let want: int = match limit {
                None => 200,
                Some(n) => if n > 500 {
                    500
                } else {
                    n as int
                },
            };
            &&& shown.is_prefix_of(v)
            &&& shown.len() == if v.len() < want {
                v.len() as int
            } else {
                want
            }
        }),
{
    let shown = at_most(v, shown_limit(limit));
    assert(v.subrange(0, shown.len() as int) =~= shown);
}

} // verus!
