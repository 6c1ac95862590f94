//! Putting a package in its place: moving directories with retries and rollback.

use crate::text;
use vstd::prelude::*;
use vstd::slice::slice_subrange;

verus! {

/// The prefix of directories that keep an old plugin after a failed rollback.
pub const RECOVER_PREFIX: &'static str = ".recover-";

// ---------------------------------------------------------------------------
// Retrying a rename
// ---------------------------------------------------------------------------

/// The system errors that pass by themselves: access denied, sharing and lock violations.
pub open spec fn transient(code: Option<i32>) -> bool {
    code == Some(5i32) || code == Some(32i32) || code == Some(33i32)
}

/// The milliseconds to wait before a retry: 40, then doubled each time.
pub open spec fn wait_before(attempt: int) -> int
    decreases attempt,
{
    if attempt <= 1 {
        40
    } else {
        2 * wait_before(attempt - 1)
    }
}

/// Decides whether a failed rename is tried again, and after how many milliseconds.
///
/// `attempt` counts the retries from 1; there are at most five, and only errors that pass by
/// themselves are retried.
pub fn retry_delay(attempt: u32, code: Option<i32>) -> (r: Option<u64>)
    ensures
        match r {
            Some(ms) => delay_of(attempt, code) == Some(ms as int),
            None => delay_of(attempt, code) is None,
        },
        match r {
            Some(ms) => 1 <= attempt <= 5 && transient(code) && ms == wait_before(attempt as int),
            None => !(1 <= attempt <= 5 && transient(code)),
        },
{
    let passes = match code {
        Some(c) => c == 5 || c == 32 || c == 33,
        None => false,
    };
    if !passes || attempt < 1 || attempt > 5 {
        return None;
    }
    let mut delay: u64 = 40;
    let mut i: u32 = 1;
    while i < attempt
        invariant
            1 <= i <= attempt <= 5,
            delay == wait_before(i as int),
            delay <= 40 * 16,
            i == 1 ==> delay == 40,
            i == 2 ==> delay == 80,
            i == 3 ==> delay == 160,
            i == 4 ==> delay == 320,
        decreases attempt - i,
    {
        delay = delay * 2;
        i += 1;
    }
    Some(delay)
}

/// All retries together wait 1240 milliseconds at most.
pub proof fn retries_are_bounded()
    ensures
        wait_before(1) + wait_before(2) + wait_before(3) + wait_before(4) + wait_before(5) == 1240,
{
    reveal_with_fuel(wait_before, 6);
}

// ---------------------------------------------------------------------------
// Placing a package
// ---------------------------------------------------------------------------

/// What to do next while a package is put in its place.
#[derive(Clone, Copy, PartialEq, Eq, Debug, Structural)]
pub enum PlaceAction {
    /// Delete what an earlier attempt left at the side, then move the old plugin there.
    MoveOldAside,
    /// Move the package to its place.
    MovePackage,
    /// Move the old plugin back.
    RollBack,
    /// Delete the old plugin.
    DropOld,
    /// Nothing is left to do.
    Stop,
}

/// Where placing a package stands.
#[derive(Clone, Copy, PartialEq, Eq, Debug, Structural)]
pub enum PlaceState {
    /// The old plugin is about to be moved aside.
    Aside,
    /// The package is about to be moved; the old plugin is at the side or never was.
    Moving { had_old: bool },
    /// The package could not be moved; the old plugin is about to be moved back.
    Rolling,
    /// The package is in place; the old plugin is about to be deleted.
    Dropping,
    /// The package is in place.
    Placed,
    /// The old plugin could not be moved aside; nothing changed.
    Blocked,
    /// The package could not be moved; what was in place before still is.
    Failed,
    /// The package could not be moved and the old plugin is still at the side.
    Stranded,
}

impl PlaceState {
    pub open spec fn action_of(self) -> PlaceAction {
        match self {
            PlaceState::Aside => PlaceAction::MoveOldAside,
            PlaceState::Moving { had_old } => PlaceAction::MovePackage,
            PlaceState::Rolling => PlaceAction::RollBack,
            PlaceState::Dropping => PlaceAction::DropOld,
            _ => PlaceAction::Stop,
        }
    }

    /// The state after the action of this one succeeded or failed.
    pub open spec fn next(self, done: bool) -> PlaceState {
        match self {
            PlaceState::Aside => if done {
                PlaceState::Moving { had_old: true }
            } else {
                PlaceState::Blocked
            },
            PlaceState::Moving { had_old } => if done {
                if had_old {
                    PlaceState::Dropping
                } else {
                    PlaceState::Placed
                }
            } else if had_old {
                PlaceState::Rolling
            } else {
                PlaceState::Failed
            },
            PlaceState::Rolling => if done {
                PlaceState::Failed
            } else {
                PlaceState::Stranded
            },
            PlaceState::Dropping => PlaceState::Placed,
            s => s,
        }
    }

    /// What to do in this state.
    pub fn action(&self) -> (r: PlaceAction)
        ensures
            r == self.action_of(),
    {
        match self {
            PlaceState::Aside => PlaceAction::MoveOldAside,
            PlaceState::Moving { .. } => PlaceAction::MovePackage,
            PlaceState::Rolling => PlaceAction::RollBack,
            PlaceState::Dropping => PlaceAction::DropOld,
            _ => PlaceAction::Stop,
        }
    }

    /// Takes in whether the action succeeded. That the old plugin could not be deleted after
    /// the package is in place does not matter.
    pub fn advance(&self, done: bool) -> (r: PlaceState)
        ensures
            r == self.next(done),
    {
        match *self {
            PlaceState::Aside => if done {
                PlaceState::Moving { had_old: true }
            } else {
                PlaceState::Blocked
            },
            PlaceState::Moving { had_old } => if done {
                if had_old {
                    PlaceState::Dropping
                } else {
                    PlaceState::Placed
                }
            } else if had_old {
                PlaceState::Rolling
            } else {
                PlaceState::Failed
            },
            PlaceState::Rolling => if done {
                PlaceState::Failed
            } else {
                PlaceState::Stranded
            },
            PlaceState::Dropping => PlaceState::Placed,
            s => s,
        }
    }
}

/// The first state: the old plugin is moved aside only where there is one.
pub open spec fn place_start(had_old: bool) -> PlaceState {
    if had_old {
        PlaceState::Aside
    } else {
        PlaceState::Moving { had_old: false }
    }
}

/// Starts to put a package in its place.
pub fn atomic_place(had_old: bool) -> (r: PlaceState)
    ensures
        r == place_start(had_old),
{
    if had_old {
        PlaceState::Aside
    } else {
        PlaceState::Moving { had_old: false }
    }
}

/// What is told of a placement that has stopped. `why` tells why the move that failed did so,
/// `side` is where the old plugin is kept.
pub open spec fn place_message(state: PlaceState, why: Seq<char>, side: Seq<char>) -> Option<
    Seq<char>,
> {
    match state {
        PlaceState::Blocked => Some("移开旧插件目录失败（可能有程序正占用该目录）: "@ + why),
        PlaceState::Failed => Some("落地插件目录失败: "@ + why),
        PlaceState::Stranded => Some(
            "安装失败且回滚失败："@ + why + "；旧插件已寄存于 "@ + side
                + "，重启 iTools 会自动搬回原位"@,
        ),
        _ => None,
    }
}

/// What is told of a placement, see [`place_message`].
pub fn place_result(state: PlaceState, why: &str, side: &str) -> (r: Result<(), String>)
    ensures
        text::message_of(r) == place_message(state, why@, side@),
{
    match state {
        PlaceState::Blocked => Err(
            text::owned("移开旧插件目录失败（可能有程序正占用该目录）: ").concat(why),
        ),
        PlaceState::Failed => Err(text::owned("落地插件目录失败: ").concat(why)),
        PlaceState::Stranded => Err(
            text::owned("安装失败且回滚失败：").concat(why).concat("；旧插件已寄存于 ").concat(
                side,
            ).concat("，重启 iTools 会自动搬回原位"),
        ),
        _ => Ok(()),
    }
}

/// Which package lies where: in place, at the side, and in the staging area.
#[verifier::ext_equal]
pub struct Disk {
    pub target: Option<int>,
    pub side: Option<int>,
    pub pkg: Option<int>,
}

/// What an action does to the disk when it succeeds; a failed one leaves the disk as it was,
/// except that an attempt to move the old plugin aside has emptied the side first.
pub open spec fn disk_after(d: Disk, action: PlaceAction, done: bool) -> Disk {
    match action {
        PlaceAction::MoveOldAside => if done {
            Disk { target: None, side: d.target, ..d }
        } else {
            Disk { side: None, ..d }
        },
        PlaceAction::MovePackage => if done {
            Disk { target: d.pkg, pkg: None, ..d }
        } else {
            d
        },
        PlaceAction::RollBack => if done {
            Disk { target: d.side, side: None, ..d }
        } else {
            d
        },
        PlaceAction::DropOld => if done {
            Disk { side: None, ..d }
        } else {
            d
        },
        PlaceAction::Stop => d,
    }
}

/// The state and the disk after the first `outcomes`.
pub open spec fn place_run(s: PlaceState, d: Disk, outcomes: Seq<bool>) -> (PlaceState, Disk)
    decreases outcomes.len(),
{
    if outcomes.len() == 0 {
        (s, d)
    } else {
        let (t, e) = place_run(s, d, outcomes.drop_last());
        (t.next(outcomes.last()), disk_after(e, t.action_of(), outcomes.last()))
    }
}

/// Placing a package never loses the old plugin: until the package is in place, the old
/// plugin is either where it was or at the side; a placement that failed but is not stranded
/// has it where it was; one that succeeded has the package in place.
pub proof fn placing_never_loses_the_old_plugin(old: Option<int>, pkg: int, outcomes: Seq<bool>)
    ensures
        ({
            let d = Disk { target: old, side: None, pkg: Some(pkg) };
            let (s, e) = place_run(place_start(old is Some), d, outcomes);
            &&& s is Placed || s is Dropping ==> e.target == Some(pkg)
            &&& !(s is Placed || s is Dropping) ==> e.pkg == Some(pkg)
            &&& old is Some && !(s is Placed) ==> e.target == old || e.side == old
            &&& s is Blocked || s is Failed ==> e.target == old
            &&& s is Stranded ==> e.side == old
        }),
    decreases outcomes.len(),
{
    lemma_place_run(old, pkg, outcomes);
}

proof fn lemma_place_run(old: Option<int>, pkg: int, outcomes: Seq<bool>)
    ensures
        ({
            let d = Disk { target: old, side: None, pkg: Some(pkg) };
            let (s, e) = place_run(place_start(old is Some), d, outcomes);
            match s {
                PlaceState::Aside => old is Some && e.target == old && e.pkg == Some(pkg),
                PlaceState::Moving { had_old } => {
                    &&& had_old == (old is Some)
                    &&& e.target is None
                    &&& e.pkg == Some(pkg)
                    &&& had_old ==> e.side == old
                },
                PlaceState::Rolling => {
                    &&& old is Some
                    &&& e.target is None
                    &&& e.pkg == Some(pkg)
                    &&& e.side == old
                },
                PlaceState::Dropping => e.target == Some(pkg) && e.side == old,
                PlaceState::Placed => e.target == Some(pkg),
                PlaceState::Blocked => e.target == old && e.pkg == Some(pkg),
                PlaceState::Failed => e.target == old && e.pkg == Some(pkg),
                PlaceState::Stranded => e.side == old && e.pkg == Some(pkg),
            }
        }),
    decreases outcomes.len(),
{
    if outcomes.len() > 0 {
        lemma_place_run(old, pkg, outcomes.drop_last());
    }
}

/// Four outcomes at most end a placement.
pub proof fn placing_stops(old: Option<int>, pkg: int, a: bool, b: bool, c: bool, e: bool)
    ensures
        ({
            let d = Disk { target: old, side: None, pkg: Some(pkg) };
            place_run(place_start(old is Some), d, seq![a, b, c, e]).0.action_of()
                == PlaceAction::Stop
        }),
{
    let all = seq![a, b, c, e];
    assert(all.drop_last() =~= seq![a, b, c]);
    assert(seq![a, b, c].drop_last() =~= seq![a, b]);
    assert(seq![a, b].drop_last() =~= seq![a]);
    assert(seq![a].drop_last() =~= Seq::<bool>::empty());
    reveal_with_fuel(place_run, 5);
}

// ---------------------------------------------------------------------------
// Recovering what a failed rollback left
// ---------------------------------------------------------------------------

/// The name of the directory that keeps an old plugin.
pub fn recover_dir(name: &str) -> (r: String)
    ensures
        r@ == RECOVER_PREFIX@ + name@,
{
    text::owned(RECOVER_PREFIX).concat(name)
}

/// The plugin whose old version a directory keeps.
pub open spec fn orphan_of(dir: Seq<char>) -> Option<Seq<char>> {
    if RECOVER_PREFIX@.is_prefix_of(dir) && dir.len() > RECOVER_PREFIX@.len() {
        Some(dir.skip(RECOVER_PREFIX@.len() as int))
    } else {
        None
    }
}

/// The plugin to restore from a directory of the plugin root: the directory keeps an old
/// version, and nothing has taken its place. `taken` lists what the plugin root holds.
pub fn recover_orphans(dir: &str, is_dir: bool, taken: &[String]) -> (r: Option<String>)
    ensures
        text::opt_view(r) == (match orphan_of(dir@) {
            Some(n) => if is_dir && !crate::install::lock::listed(taken@, n) {
                Some(n)
            } else {
                None
            },
            None => None,
        }),
{
    let v = text::chars_of(dir);
    let p = text::chars_of(RECOVER_PREFIX);
    if !is_dir || !text::has_prefix(v.as_slice(), RECOVER_PREFIX) || v.len() <= p.len() {
        return None;
    }
    let rest = slice_subrange(v.as_slice(), p.len(), v.len());
    assert(rest@ =~= dir@.skip(RECOVER_PREFIX@.len() as int));
    let name = text::string_of(rest);
    if crate::install::lock::is_listed(taken, name.as_str()) {
        None
    } else {
        Some(name)
    }
}

/// A directory made to keep a plugin is recognised as that plugin's.
pub proof fn kept_plugins_are_recognised(name: Seq<char>)
    requires
        name.len() > 0,
    ensures
        orphan_of(RECOVER_PREFIX@ + name) == Some(name),
{
    let dir = RECOVER_PREFIX@ + name;
    assert(dir.subrange(0, RECOVER_PREFIX@.len() as int) =~= RECOVER_PREFIX@);
    assert(dir.skip(RECOVER_PREFIX@.len() as int) =~= name);
}

/// The waits before the retries are 40 milliseconds, and each is twice the one before it.
pub proof fn waits_double(attempt: nat)
    requires
        attempt >= 1,
    ensures
        wait_before(attempt as int) == 40 * vstd::arithmetic::power2::pow2((attempt - 1) as nat),
    decreases attempt,
{
    if attempt == 1 {
        vstd::arithmetic::power2::lemma2_to64();
    } else {
        waits_double((attempt - 1) as nat);
        vstd::arithmetic::power2::lemma_pow2_unfold((attempt - 1) as nat);
    }
}

/// Only errors that pass by themselves are waited out: access that is denied, a file in use and
/// a locked part of one.
pub proof fn only_passing_errors_are_waited_out(code: i32)
    ensures
        transient(Some(code)) <==> code == 5 || code == 32 || code == 33,
        !transient(None),
{
}

/// A placement that meets no error puts the package in its place and leaves nothing at the
/// side; each error is told with what it means for the old plugin.
pub proof fn placing_without_errors_places(old: Option<int>, pkg: int)
    ensures
        ({
            let d = Disk { target: old, side: None, pkg: Some(pkg) };
            let (s, e) = place_run(place_start(old is Some), d, seq![true, true, true]);
            &&& s == PlaceState::Placed
            &&& e == (Disk { target: Some(pkg), side: None, pkg: None })
            &&& place_message(s, Seq::empty(), Seq::empty()) is None
        }),
{
    let d = Disk { target: old, side: None, pkg: Some(pkg) };
    let s0 = place_start(old is Some);
    let r0 = Seq::<bool>::empty();
    let r1 = seq![true];
    let r2 = seq![true, true];
    let r3 = seq![true, true, true];
    assert(r1.drop_last() =~= r0);
    assert(r2.drop_last() =~= r1);
    assert(r3.drop_last() =~= r2);
    reveal_with_fuel(place_run, 4);
    assert(place_run(s0, d, r0) == (s0, d));
    assert(place_run(s0, d, r3) == place_run(s0, d, r2.push(true)));
}

/// The milliseconds to wait before a failed rename is tried again; nothing where it is given up.
pub open spec fn delay_of(attempt: u32, code: Option<i32>) -> Option<int> {
    if 1 <= attempt <= 5 && transient(code) {
        Some(wait_before(attempt as int))
    } else {
        None
    }
}

/// A rename that keeps failing in a way that passes is tried again five times, after 40, 80,
/// 160, 320 and 640 milliseconds; one that fails in another way is not tried again.
pub proof fn renames_are_tried_again_five_times(attempt: u32, code: i32)
    ensures
        code == 5 || code == 32 || code == 33 ==> {
            &&& delay_of(1, Some(code)) == Some(40int)
            &&& delay_of(2, Some(code)) == Some(80int)
            &&& delay_of(3, Some(code)) == Some(160int)
            &&& delay_of(4, Some(code)) == Some(320int)
            &&& delay_of(5, Some(code)) == Some(640int)
        },
        attempt == 0 || attempt > 5 ==> delay_of(attempt, Some(code)) is None,
        code != 5 && code != 32 && code != 33 ==> delay_of(attempt, Some(code)) is None,
        delay_of(attempt, None) is None,
{
    reveal_with_fuel(wait_before, 6);
}

/// Only a directory that is made to keep a plugin is taken for one: what it keeps has a name, and
/// the directory is called by it.
pub proof fn only_kept_plugins_are_recovered(dir: Seq<char>)
    ensures
        orphan_of(dir) is Some ==> orphan_of(dir)->0.len() > 0 && dir == ".recover-"@ + orphan_of(
            dir,
        )->0,
        orphan_of(".recover-"@) is None,
{
    reveal_strlit(".recover-");
    assert(RECOVER_PREFIX@ == ".recover-"@);
    if orphan_of(dir) is Some {
        assert(dir =~= ".recover-"@ + orphan_of(dir)->0) by {
            assert(dir.subrange(0, 9) =~= ".recover-"@);
        }
    }
}

} // verus!
