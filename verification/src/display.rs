//! How displays lie next to each other.
//!
//! Places on displays of different scales are reckoned from display to display along the edges
//! that they share. This module decides from which display each one is reckoned.

use crate::image_api;
use crate::image_api::MonitorRect;
use vstd::prelude::*;

verus! {

/// On which side of another display one lies.
#[derive(Clone, Copy, PartialEq, Eq, Debug, Structural)]
pub enum Side {
    Right,
    Left,
    Below,
    Above,
}

/// How the place of a display is reckoned.
#[derive(Clone, Copy, PartialEq, Eq, Debug, Structural)]
pub enum Placement {
    /// It is where reckoning starts.
    Origin,
    /// It touches a display whose place is known.
    Beside { anchor: usize, side: Side },
    /// It touches none, and is reckoned by itself.
    Alone,
}

/// The side on which a display touches another.
pub open spec fn touching(m: MonitorRect, other: MonitorRect) -> Option<Side> {
    if m.x == other.x + other.width {
        Some(Side::Right)
    } else if m.x + m.width == other.x {
        Some(Side::Left)
    } else if m.y == other.y + other.height {
        Some(Side::Below)
    } else if m.y + m.height == other.y {
        Some(Side::Above)
    } else {
        None
    }
}

/// The side on which a display touches another, see [`touching`].
pub fn touch(m: MonitorRect, other: MonitorRect) -> (r: Option<Side>)
    ensures
        r == touching(m, other),
{
    let (mx, my, mw, mh) = (m.x as i64, m.y as i64, m.width as i64, m.height as i64);
    let (ox, oy, ow, oh) = (
        other.x as i64,
        other.y as i64,
        other.width as i64,
        other.height as i64,
    );
    if mx == ox + ow {
        Some(Side::Right)
    } else if mx + mw == ox {
        Some(Side::Left)
    } else if my == oy + oh {
        Some(Side::Below)
    } else if my + mh == oy {
        Some(Side::Above)
    } else {
        None
    }
}

/// Displays in the order in which their places become known, each with how.
pub type Order = Seq<(usize, Placement)>;

/// Whether the place of a display is known.
pub open spec fn known(done: Order, i: int) -> bool {
    exists|k: int| 0 <= k < done.len() && (#[trigger] done[k]).0 == i
}

/// How a display is reckoned from the first of the displays, from `j` on, that it touches and
/// whose place is known.
pub open spec fn anchor_from(mons: Seq<MonitorRect>, done: Order, i: int, j: int) -> Option<
    Placement,
>
    decreases mons.len() - j,
{
    if j < 0 || j >= mons.len() {
        None
    } else if j != i && known(done, j) && touching(mons[i], mons[j]) is Some {
        Some(Placement::Beside { anchor: j as usize, side: touching(mons[i], mons[j])->0 })
    } else {
        anchor_from(mons, done, i, j + 1)
    }
}

/// The order after one display was looked at.
pub open spec fn looked_at(mons: Seq<MonitorRect>, done: Order, i: int) -> Order {
    if known(done, i) {
        done
    } else {
        match anchor_from(mons, done, i, 0) {
            Some(p) => done.push((i as usize, p)),
            None => done,
        }
    }
}

/// The order after the displays from `i` on were looked at once.
pub open spec fn round_from(mons: Seq<MonitorRect>, done: Order, i: int) -> Order
    decreases mons.len() - i,
{
    if i < 0 || i >= mons.len() {
        done
    } else {
        round_from(mons, looked_at(mons, done, i), i + 1)
    }
}

/// The order after rounds over all displays, until one brings nothing new.
pub open spec fn rounds(mons: Seq<MonitorRect>, done: Order, most: nat) -> Order
    decreases most,
{
    let next = round_from(mons, done, 0);
    if most == 0 || next.len() == done.len() {
        done
    } else {
        rounds(mons, next, (most - 1) as nat)
    }
}

/// The order with the displays from `i` on that are left, each by itself.
pub open spec fn with_rest(count: nat, done: Order, i: int) -> Order
    decreases count - i,
{
    if i < 0 || i >= count {
        done
    } else if known(done, i) {
        with_rest(count, done, i + 1)
    } else {
        with_rest(count, done.push((i as usize, Placement::Alone)), i + 1)
    }
}

/// Whether an index is where reckoning starts: the first primary display, or else the first at
/// the origin, or else the first.
pub open spec fn is_start(mons: Seq<MonitorRect>, p: int) -> bool {
    &&& 0 <= p < mons.len()
    &&& if exists|k: int| 0 <= k < mons.len() && (#[trigger] mons[k]).is_primary {
        mons[p].is_primary && forall|k: int| 0 <= k < p ==> !(#[trigger] mons[k]).is_primary
    } else if exists|k: int|
        0 <= k < mons.len() && (#[trigger] mons[k]).x == 0 && mons[k].y == 0 {
        &&& mons[p].x == 0 && mons[p].y == 0
        &&& forall|k: int| 0 <= k < p ==> !((#[trigger] mons[k]).x == 0 && mons[k].y == 0)
    } else {
        p == 0
    }
}

/// The display where reckoning starts, see [`is_start`].
pub fn start(mons: &[MonitorRect]) -> (r: usize)
    requires
        mons@.len() > 0,
    ensures
        is_start(mons@, r as int),
{
    let mut i: usize = 0;
    while i < mons.len()
        invariant
            i <= mons@.len(),
            forall|k: int| 0 <= k < i ==> !(#[trigger] mons@[k]).is_primary,
        decreases mons@.len() - i,
    {
        if mons[i].is_primary {
            return i;
        }
        i += 1;
    }
    let mut i: usize = 0;
    while i < mons.len()
        invariant
            i <= mons@.len(),
            forall|k: int| 0 <= k < mons@.len() ==> !(#[trigger] mons@[k]).is_primary,
            forall|k: int| 0 <= k < i ==> !((#[trigger] mons@[k]).x == 0 && mons@[k].y == 0),
        decreases mons@.len() - i,
    {
        if mons[i].x == 0 && mons[i].y == 0 {
            return i;
        }
        i += 1;
    }
    0
}

fn is_known(done: &Vec<(usize, Placement)>, i: usize) -> (r: bool)
    ensures
        r == known(done@, i as int),
{
    let mut k: usize = 0;
    while k < done.len()
        invariant
            k <= done@.len(),
            forall|m: int| 0 <= m < k ==> (#[trigger] done@[m]).0 != i,
        decreases done@.len() - k,
    {
        if done[k].0 == i {
            return true;
        }
        k += 1;
    }
    false
}

fn find_anchor(mons: &[MonitorRect], done: &Vec<(usize, Placement)>, i: usize) -> (r: Option<
    Placement,
>)
    requires
        i < mons@.len(),
    ensures
        r == anchor_from(mons@, done@, i as int, 0),
{
    let mut j: usize = 0;
    while j < mons.len()
        invariant
            j <= mons@.len(),
            i < mons@.len(),
            anchor_from(mons@, done@, i as int, 0) == anchor_from(
                mons@,
                done@,
                i as int,
                j as int,
            ),
        decreases mons@.len() - j,
    {
        if j != i && is_known(done, j) {
            match touch(mons[i], mons[j]) {
                Some(side) => {
                    return Some(Placement::Beside { anchor: j, side });
                },
                None => {},
            }
        }
        j += 1;
    }
    None
}

/// The order in which the places of displays become known, and how each is reckoned.
pub open spec fn plan_of(mons: Seq<MonitorRect>, p: int) -> Order {
    with_rest(
        mons.len(),
        rounds(mons, seq![(p as usize, Placement::Origin)], mons.len()),
        0,
    )
}

/// Decides in which order the places of displays become known and how each is reckoned, see
/// [`plan_of`].
pub fn plan(mons: &[MonitorRect]) -> (r: Vec<(usize, Placement)>)
    requires
        mons@.len() > 0,
    ensures
        exists|p: int| #[trigger] is_start(mons@, p) && r@ == plan_of(mons@, p),
{
    let p: usize = start(mons);
    let n: usize = mons.len();
    let mut done: Vec<(usize, Placement)> = Vec::new();
    done.push((p, Placement::Origin));
    assert(done@ =~= seq![(p, Placement::Origin)]);
    let ghost first = done@;
    let mut left: usize = n;
    let mut more: bool = true;
    while more && left > 0
        invariant
            n == mons@.len(),
            left <= n,
            more ==> rounds(mons@, first, n as nat) == rounds(mons@, done@, left as nat),
            !more ==> rounds(mons@, first, n as nat) == done@,
        decreases left, (if more {
            1int
        } else {
            0
        }),
    {
        let before: usize = done.len();
        let ghost old_done = done@;
        let mut i: usize = 0;
        while i < n
            invariant
                n == mons@.len(),
                i <= n,
                done@.len() >= before,
                round_from(mons@, old_done, 0) == round_from(mons@, done@, i as int),
            decreases n - i,
        {
            if !is_known(&done, i) {
                match find_anchor(mons, &done, i) {
                    Some(place) => {
                        done.push((i, place));
                    },
                    None => {},
                }
            }
            i += 1;
        }
        assert(round_from(mons@, old_done, 0) == done@);
        if done.len() == before {
            proof {
                lemma_round_grows(mons@, old_done, 0);
                assert(done@ =~= old_done);
            }
            more = false;
        } else {
            left -= 1;
        }
    }
    let ghost placed = done@;
    assert(placed == rounds(mons@, first, n as nat));
    let mut i: usize = 0;
    while i < n
        invariant
            n == mons@.len(),
            i <= n,
            with_rest(n as nat, placed, 0) == with_rest(n as nat, done@, i as int),
        decreases n - i,
    {
        if !is_known(&done, i) {
            done.push((i, Placement::Alone));
        }
        i += 1;
    }
    assert(is_start(mons@, p as int));
    assert(done@ == plan_of(mons@, p as int));
    done
}

proof fn lemma_round_grows(mons: Seq<MonitorRect>, done: Order, i: int)
    ensures
        done.is_prefix_of(round_from(mons, done, i)),
    decreases mons.len() - i,
{
    if 0 <= i < mons.len() {
        let next = looked_at(mons, done, i);
        lemma_round_grows(mons, next, i + 1);
        let r = round_from(mons, next, i + 1);
        assert(done.is_prefix_of(next));
        assert(r.subrange(0, done.len() as int) =~= done) by {
            assert(r.subrange(0, next.len() as int) =~= next);
            assert forall|k: int| 0 <= k < done.len() implies r[k] == done[k] by {
                assert(r.subrange(0, next.len() as int)[k] == next[k]);
            }
        }
    } else {
        assert(done.subrange(0, done.len() as int) =~= done);
    }
}

// ---------------------------------------------------------------------------
// Laws
// ---------------------------------------------------------------------------

/// Whether an order is sound: every index is one of the displays and occurs once, the first
/// one is the start, and every display beside another touches it and comes later.
pub open spec fn is_sound(mons: Seq<MonitorRect>, done: Order) -> bool {
    &&& done.len() > 0
    &&& done[0].1 == Placement::Origin
    &&& forall|k: int| 0 <= k < done.len() ==> (#[trigger] done[k]).0 < mons.len()
    &&& forall|k: int, m: int|
        0 <= k < m < done.len() ==> (#[trigger] done[k]).0 != (#[trigger] done[m]).0
    &&& forall|k: int| 0 <= k < done.len() ==> reckoned(mons, done, #[trigger] done[k], k)
}

/// Whether a display at a place of an order is reckoned from one that comes earlier and that
/// it touches, if from any.
pub open spec fn reckoned(
    mons: Seq<MonitorRect>,
    done: Order,
    e: (usize, Placement),
    k: int,
) -> bool {
    match e.1 {
        Placement::Beside { anchor, side } => {
            &&& anchor < mons.len()
            &&& touching(mons[e.0 as int], mons[anchor as int]) == Some(side)
            &&& known(done.take(k), anchor as int)
        },
        _ => true,
    }
}

proof fn lemma_anchor(mons: Seq<MonitorRect>, done: Order, i: int, j: int)
    requires
        0 <= j,
        mons.len() <= usize::MAX,
        anchor_from(mons, done, i, j) is Some,
    ensures
        ({
            let p = anchor_from(mons, done, i, j)->0;
            &&& p is Beside
            &&& p->anchor < mons.len()
            &&& touching(mons[i], mons[p->anchor as int]) == Some(p->side)
            &&& known(done, p->anchor as int)
        }),
    decreases mons.len() - j,
{
    if j < mons.len() {
        if !(j != i && known(done, j) && touching(mons[i], mons[j]) is Some) {
            lemma_anchor(mons, done, i, j + 1);
        }
    }
}

proof fn lemma_sound_push(mons: Seq<MonitorRect>, done: Order, e: (usize, Placement))
    requires
        is_sound(mons, done),
        e.0 < mons.len(),
        !known(done, e.0 as int),
        reckoned(mons, done.push(e), e, done.len() as int),
    ensures
        is_sound(mons, done.push(e)),
{
    let d = done.push(e);
    assert forall|k: int, m: int| 0 <= k < m < d.len() implies (#[trigger] d[k]).0 != (
    #[trigger] d[m]).0 by {
        if m == done.len() {
            assert(done[k].0 != e.0);
        }
    }
    assert forall|k: int| 0 <= k < d.len() implies reckoned(mons, d, #[trigger] d[k], k) by {
        if k < done.len() {
            assert(reckoned(mons, done, done[k], k));
            assert(d.take(k) =~= done.take(k));
        }
    }
}

proof fn lemma_round_sound(mons: Seq<MonitorRect>, done: Order, i: int)
    requires
        mons.len() <= usize::MAX,
        is_sound(mons, done),
        0 <= i,
    ensures
        is_sound(mons, round_from(mons, done, i)),
        round_from(mons, done, i)[0] == done[0],
    decreases mons.len() - i,
{
    if i < mons.len() {
        let next = looked_at(mons, done, i);
        if !known(done, i) && anchor_from(mons, done, i, 0) is Some {
            lemma_anchor(mons, done, i, 0);
            let e = (i as usize, anchor_from(mons, done, i, 0)->0);
            assert(done.push(e).take(done.len() as int) =~= done);
            lemma_sound_push(mons, done, e);
        }
        assert(next[0] == done[0]);
        lemma_round_sound(mons, next, i + 1);
    }
}

proof fn lemma_rounds_sound(mons: Seq<MonitorRect>, done: Order, most: nat)
    requires
        mons.len() <= usize::MAX,
        is_sound(mons, done),
    ensures
        is_sound(mons, rounds(mons, done, most)),
        rounds(mons, done, most)[0] == done[0],
    decreases most,
{
    lemma_round_sound(mons, done, 0);
    let next = round_from(mons, done, 0);
    if most > 0 && next.len() != done.len() {
        lemma_rounds_sound(mons, next, (most - 1) as nat);
    }
}

proof fn lemma_rest_sound(mons: Seq<MonitorRect>, done: Order, i: int)
    requires
        mons.len() <= usize::MAX,
        is_sound(mons, done),
        0 <= i <= mons.len(),
        forall|k: int| 0 <= k < i ==> #[trigger] known(done, k),
    ensures
        is_sound(mons, with_rest(mons.len(), done, i)),
        with_rest(mons.len(), done, i)[0] == done[0],
        forall|k: int| 0 <= k < mons.len() ==> #[trigger] known(with_rest(mons.len(), done, i), k),
    decreases mons.len() - i,
{
    if i < mons.len() {
        if known(done, i) {
            lemma_rest_sound(mons, done, i + 1);
        } else {
            let e = (i as usize, Placement::Alone);
            let d = done.push(e);
            lemma_sound_push(mons, done, e);
            assert forall|k: int| 0 <= k < i + 1 implies #[trigger] known(d, k) by {
                if k < i {
                    assert(known(done, k));
                    let m = choose|m: int| 0 <= m < done.len() && (#[trigger] done[m]).0 == k;
                    assert(d[m].0 == k);
                } else {
                    assert(d[done.len() as int].0 == i);
                }
            }
            lemma_rest_sound(mons, d, i + 1);
        }
    }
}

/// Every display gets a place exactly once, the start at the origin, and every display that is
/// reckoned from another touches it and comes behind it.
pub proof fn plans_are_sound(mons: Seq<MonitorRect>, p: int)
    requires
        is_start(mons, p),
        mons.len() <= usize::MAX,
    ensures
        is_sound(mons, plan_of(mons, p)),
        plan_of(mons, p)[0] == (p as usize, Placement::Origin),
        forall|i: int| 0 <= i < mons.len() ==> #[trigger] known(plan_of(mons, p), i),
{
    let first: Order = seq![(p as usize, Placement::Origin)];
    assert(is_sound(mons, first));
    lemma_rounds_sound(mons, first, mons.len());
    lemma_rest_sound(mons, rounds(mons, first, mons.len()), 0);
}

proof fn lemma_sound_len(mons: Seq<MonitorRect>, done: Order)
    requires
        is_sound(mons, done),
    ensures
        done.len() <= mons.len(),
{
    let ids = done.map(|k: int, e: (usize, Placement)| e.0 as int);
    assert(ids.no_duplicates()) by {
        assert forall|a: int, b: int| 0 <= a < ids.len() && 0 <= b < ids.len() && a != b implies
            ids[a] != ids[b] by {
            if a < b {
                assert(done[a].0 != done[b].0);
            } else {
                assert(done[b].0 != done[a].0);
            }
        }
    }
    ids.unique_seq_to_set();
    vstd::set_lib::lemma_int_range(0, mons.len() as int);
    let all = vstd::set_lib::set_int_range(0, mons.len() as int);
    assert(ids.to_set().subset_of(all)) by {
        assert forall|v: int| ids.to_set().contains(v) implies all.contains(v) by {
            let k = choose|k: int| 0 <= k < ids.len() && ids[k] == v;
            assert(done[k].0 < mons.len());
        }
    }
    vstd::set_lib::lemma_len_subset(ids.to_set(), all);
}

proof fn lemma_rounds_end(mons: Seq<MonitorRect>, done: Order, most: nat)
    requires
        mons.len() <= usize::MAX,
        is_sound(mons, done),
        done.len() + most > mons.len(),
    ensures
        ({
            let r = rounds(mons, done, most);
            round_from(mons, r, 0).len() == r.len()
        }),
    decreases most,
{
    let next = round_from(mons, done, 0);
    lemma_sound_len(mons, done);
    if next.len() != done.len() {
        lemma_round_sound(mons, done, 0);
        lemma_round_grows(mons, done, 0);
        lemma_rounds_end(mons, next, (most - 1) as nat);
    }
}

proof fn lemma_quiet_round(mons: Seq<MonitorRect>, done: Order, i: int, j: int)
    requires
        0 <= i <= j < mons.len(),
        round_from(mons, done, i).len() == done.len(),
    ensures
        looked_at(mons, done, j) == done,
    decreases j - i,
{
    let next = looked_at(mons, done, i);
    lemma_round_grows(mons, next, i + 1);
    assert(next.len() <= done.len());
    assert(next == done);
    if i < j {
        lemma_quiet_round(mons, done, i + 1, j);
    }
}

proof fn lemma_no_anchor(mons: Seq<MonitorRect>, done: Order, i: int, from: int, j: int)
    requires
        0 <= from <= j < mons.len(),
        j != i,
        known(done, j),
        anchor_from(mons, done, i, from) is None,
    ensures
        touching(mons[i], mons[j]) is None,
    decreases j - from,
{
    if from < j {
        lemma_no_anchor(mons, done, i, from + 1, j);
    }
}

/// A display is reckoned by itself only when it touches none of those that are reckoned from
/// the start.
pub proof fn lone_displays_touch_none(mons: Seq<MonitorRect>, p: int, i: int, j: int)
    requires
        is_start(mons, p),
        mons.len() <= usize::MAX,
        0 <= i < mons.len(),
        0 <= j < mons.len(),
        !known(rounds(mons, seq![(p as usize, Placement::Origin)], mons.len()), i),
        known(rounds(mons, seq![(p as usize, Placement::Origin)], mons.len()), j),
    ensures
        touching(mons[i], mons[j]) is None,
{
    let first: Order = seq![(p as usize, Placement::Origin)];
    let r = rounds(mons, first, mons.len());
    assert(is_sound(mons, first));
    lemma_rounds_end(mons, first, mons.len());
    lemma_quiet_round(mons, r, 0, i);
    assert(anchor_from(mons, r, i, 0) is None) by {
        if anchor_from(mons, r, i, 0) is Some {
            assert(looked_at(mons, r, i).len() == r.len() + 1);
        }
    }
    lemma_no_anchor(mons, r, i, 0, j);
}

/// Displays that touch have no place in common, and nothing lies between their edges: what is
/// to the right starts in the column behind the other's last one, and so on for each side. The
/// one on the right of another has that one on its left, and one below has it above.
pub proof fn touching_displays_share_an_edge(m: MonitorRect, other: MonitorRect, x: int, y: int)
    ensures
        touching(m, other) is Some ==> !(image_api::on_display(m, x, y) && image_api::on_display(
            other,
            x,
            y,
        )),
        touching(m, other) == Some(Side::Right) ==> (m.x <= x <==> other.x + other.width <= x),
        touching(m, other) == Some(Side::Left) ==> (x < m.x + m.width <==> x < other.x),
        touching(m, other) == Some(Side::Below) ==> (m.y <= y <==> other.y + other.height <= y),
        touching(m, other) == Some(Side::Above) ==> (y < m.y + m.height <==> y < other.y),
        touching(m, other) == Some(Side::Right) && m.x + m.width != other.x ==> touching(other, m)
            == Some(Side::Left) || other.x == m.x + m.width,
        touching(m, other) is Some <==> touching(other, m) is Some,
{
}

/// A place lies on a display exactly where it is one of the display's columns and lines, so that
/// displays side by side never share a place.
pub proof fn displays_hold_their_pixels(m: MonitorRect, i: int, j: int)
    ensures
        image_api::on_display(m, m.x + i, m.y + j) <==> 0 <= i < m.width && 0 <= j < m.height,
{
}

/// Reckoning starts at the first primary display where there is one, else at the first display
/// at the origin where there is one, else at the first.
pub proof fn reckoning_starts_at_the_primary(mons: Seq<MonitorRect>, p: int, k: int)
    requires
        is_start(mons, p),
        0 <= k < mons.len(),
    ensures
        0 <= p < mons.len(),
        mons[k].is_primary ==> mons[p].is_primary && p <= k,
        (forall|j: int| 0 <= j < mons.len() ==> !(#[trigger] mons[j]).is_primary) && mons[k].x == 0
            && mons[k].y == 0 ==> mons[p].x == 0 && mons[p].y == 0 && p <= k,
        (forall|j: int|
            0 <= j < mons.len() ==> !(#[trigger] mons[j]).is_primary && !(mons[j].x == 0
                && mons[j].y == 0)) ==> p == 0,
{
}

} // verus!
