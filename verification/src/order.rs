//! The order of texts, and sorting by it.
//!
//! Texts are compared character by character. That is the order of their UTF-8 bytes.

use crate::text;
use vstd::multiset::Multiset;
use vstd::prelude::*;

verus! {

/// Whether `a` comes before `b` or is equal to it.
pub open spec fn le(a: Seq<char>, b: Seq<char>) -> bool
    decreases a.len(),
{
    if a.len() == 0 {
        true
    } else if b.len() == 0 {
        false
    } else if a[0] != b[0] {
        a[0] < b[0]
    } else {
        le(a.drop_first(), b.drop_first())
    }
}

/// The order as a relation.
pub open spec fn text_order() -> spec_fn(Seq<char>, Seq<char>) -> bool {
    |a: Seq<char>, b: Seq<char>| le(a, b)
}

/// The texts in order.
pub open spec fn sorted(v: Seq<Seq<char>>) -> Seq<Seq<char>> {
    v.sort_by(text_order())
}

proof fn lemma_reflexive(a: Seq<char>)
    ensures
        le(a, a),
    decreases a.len(),
{
    if a.len() > 0 {
        lemma_reflexive(a.drop_first());
    }
}

proof fn lemma_antisymmetric(a: Seq<char>, b: Seq<char>)
    requires
        le(a, b),
        le(b, a),
    ensures
        a == b,
    decreases a.len(),
{
    if a.len() > 0 && b.len() > 0 {
        lemma_antisymmetric(a.drop_first(), b.drop_first());
        assert(a =~= seq![a[0]] + a.drop_first());
        assert(b =~= seq![b[0]] + b.drop_first());
    } else {
        assert(a =~= b);
    }
}

proof fn lemma_transitive(a: Seq<char>, b: Seq<char>, c: Seq<char>)
    requires
        le(a, b),
        le(b, c),
    ensures
        le(a, c),
    decreases a.len(),
{
    if a.len() > 0 && b.len() > 0 && c.len() > 0 && a[0] == b[0] && b[0] == c[0] {
        lemma_transitive(a.drop_first(), b.drop_first(), c.drop_first());
    }
}

proof fn lemma_total(a: Seq<char>, b: Seq<char>)
    ensures
        le(a, b) || le(b, a),
    decreases a.len(),
{
    if a.len() > 0 && b.len() > 0 {
        lemma_total(a.drop_first(), b.drop_first());
    }
}

/// Texts are totally ordered.
pub proof fn texts_are_totally_ordered()
    ensures
        vstd::relations::total_ordering(text_order()),
{
    let r = text_order();
    assert forall|a: Seq<char>| #[trigger] r(a, a) by {
        lemma_reflexive(a);
    }
    assert forall|a: Seq<char>, b: Seq<char>| #[trigger] r(a, b) && #[trigger] r(b, a) implies a
        == b by {
        lemma_antisymmetric(a, b);
    }
    assert forall|a: Seq<char>, b: Seq<char>, c: Seq<char>| #[trigger]
        r(a, b) && #[trigger] r(b, c) implies r(a, c) by {
        lemma_transitive(a, b, c);
    }
    assert forall|a: Seq<char>, b: Seq<char>| #[trigger] r(a, b) || #[trigger] r(b, a) by {
        lemma_total(a, b);
    }
}

/// Sorting does not depend on the order in which the texts come.
pub proof fn sorting_ignores_input_order(a: Seq<Seq<char>>, b: Seq<Seq<char>>)
    requires
        a.to_multiset() == b.to_multiset(),
    ensures
        sorted(a) == sorted(b),
{
    texts_are_totally_ordered();
    a.lemma_sort_by_ensures(text_order());
    b.lemma_sort_by_ensures(text_order());
    vstd::seq_lib::lemma_sorted_unique(sorted(a), sorted(b), text_order());
}

/// Whether `a` comes before `b` or is equal to it.
pub fn at_most(a: &[char], b: &[char]) -> (r: bool)
    ensures
        r == le(a@, b@),
{
    let mut i: usize = 0;
    assert(a@.skip(0) =~= a@);
    assert(b@.skip(0) =~= b@);
    loop
        invariant
            i <= a@.len(),
            i <= b@.len(),
            le(a@, b@) == le(a@.skip(i as int), b@.skip(i as int)),
        decreases a@.len() - i,
    {
        if i >= a.len() {
            return true;
        }
        if i >= b.len() {
            return false;
        }
        if a[i] != b[i] {
            return a[i] < b[i];
        }
        assert(a@.skip(i as int).drop_first() =~= a@.skip(i + 1));
        assert(b@.skip(i as int).drop_first() =~= b@.skip(i + 1));
        i += 1;
    }
}

fn copy_range(v: &Vec<Vec<char>>, from: usize, to: usize) -> (r: Vec<Vec<char>>)
    requires
        from <= to <= v@.len(),
    ensures
        text::views(r@) == text::views(v@).subrange(from as int, to as int),
        r@.len() == to - from,
{
    let mut out: Vec<Vec<char>> = Vec::new();
    let mut i: usize = from;
    while i < to
        invariant
            from <= i <= to <= v@.len(),
            text::views(out@) == text::views(v@).subrange(from as int, i as int),
            out@.len() == i - from,
        decreases to - i,
    {
        let ghost before = out@;
        out.push(text::to_vec(v[i].as_slice()));
        assert(text::views(out@) =~= text::views(before).push(v@[i as int]@));
        assert(text::views(v@).subrange(from as int, i + 1) =~= text::views(v@).subrange(
            from as int,
            i as int,
        ).push(v@[i as int]@));
        i += 1;
    }
    out
}

/// Merges two sorted lists.
fn merge(a: &Vec<Vec<char>>, b: &Vec<Vec<char>>) -> (r: Vec<Vec<char>>)
    requires
        vstd::relations::sorted_by(text::views(a@), text_order()),
        vstd::relations::sorted_by(text::views(b@), text_order()),
    ensures
        vstd::relations::sorted_by(text::views(r@), text_order()),
        text::views(r@).to_multiset() == text::views(a@).to_multiset().add(
            text::views(b@).to_multiset(),
        ),
{
    let ghost x = text::views(a@);
    let ghost y = text::views(b@);
    let mut out: Vec<Vec<char>> = Vec::new();
    let mut i: usize = 0;
    let mut j: usize = 0;
    proof {
        assert(x.take(0) =~= Seq::<Seq<char>>::empty());
        assert(y.take(0) =~= Seq::<Seq<char>>::empty());
        assert(text::views(out@) =~= Seq::<Seq<char>>::empty());
        vstd::seq_lib::to_multiset_len(Seq::<Seq<char>>::empty());
        assert(Seq::<Seq<char>>::empty().to_multiset() =~= Multiset::<Seq<char>>::empty());
    }
    while i < a.len() || j < b.len()
        invariant
            i <= a@.len(),
            j <= b@.len(),
            x == text::views(a@),
            y == text::views(b@),
            vstd::relations::sorted_by(x, text_order()),
            vstd::relations::sorted_by(y, text_order()),
            vstd::relations::sorted_by(text::views(out@), text_order()),
            text::views(out@).to_multiset() == x.take(i as int).to_multiset().add(
                y.take(j as int).to_multiset(),
            ),
            forall|k: int, m: int|
                0 <= k < out@.len() && i <= m < x.len() ==> #[trigger] le(
                    text::views(out@)[k],
                    x[m],
                ),
            forall|k: int, m: int|
                0 <= k < out@.len() && j <= m < y.len() ==> #[trigger] le(
                    text::views(out@)[k],
                    y[m],
                ),
        decreases a@.len() - i + b@.len() - j,
    {
        let from_a = if i >= a.len() {
            false
        } else if j >= b.len() {
            true
        } else {
            at_most(a[i].as_slice(), b[j].as_slice())
        };
        let ghost before = text::views(out@);
        let ghost e = if from_a {
            x[i as int]
        } else {
            y[j as int]
        };
        proof {
            // The chosen text comes before everything that is left.
            assert forall|m: int| i <= m < x.len() implies #[trigger] le(e, x[m]) by {
                if from_a {
                    if m > i {
                        assert(text_order()(x[i as int], x[m]));
                    } else {
                        lemma_reflexive(e);
                    }
                } else {
                    lemma_total(x[i as int], y[j as int]);
                    if m > i {
                        assert(text_order()(x[i as int], x[m]));
                        lemma_transitive(e, x[i as int], x[m]);
                    }
                }
            }
            assert forall|m: int| j <= m < y.len() implies #[trigger] le(e, y[m]) by {
                if from_a {
                    if m > j {
                        assert(text_order()(y[j as int], y[m]));
                        lemma_transitive(e, y[j as int], y[m]);
                    }
                } else {
                    if m > j {
                        assert(text_order()(y[j as int], y[m]));
                    } else {
                        lemma_reflexive(e);
                    }
                }
            }
        }
        if from_a {
            out.push(text::to_vec(a[i].as_slice()));
            proof {
                assert(x.take(i + 1) =~= x.take(i as int).push(x[i as int]));
                vstd::seq_lib::to_multiset_build(x.take(i as int), x[i as int]);
            }
            i += 1;
        } else {
            out.push(text::to_vec(b[j].as_slice()));
            proof {
                assert(y.take(j + 1) =~= y.take(j as int).push(y[j as int]));
                vstd::seq_lib::to_multiset_build(y.take(j as int), y[j as int]);
            }
            j += 1;
        }
        proof {
            let after = text::views(out@);
            assert(after =~= before.push(e));
            vstd::seq_lib::to_multiset_build(before, e);
            assert(after.to_multiset() =~= x.take(i as int).to_multiset().add(
                y.take(j as int).to_multiset(),
            ));
            assert forall|k: int, m: int| 0 <= k < m < after.len() implies #[trigger] text_order()(
                after[k],
                after[m],
            ) by {
                if m == before.len() {
                    assert(le(before[k], e));
                } else {
                    assert(text_order()(before[k], before[m]));
                }
            }
            assert forall|k: int, m: int|
                0 <= k < after.len() && i <= m < x.len() implies #[trigger] le(after[k], x[m]) by {
                if k < before.len() {
                    assert(le(before[k], x[m]));
                }
            }
            assert forall|k: int, m: int|
                0 <= k < after.len() && j <= m < y.len() implies #[trigger] le(after[k], y[m]) by {
                if k < before.len() {
                    assert(le(before[k], y[m]));
                }
            }
        }
    }
    assert(x.take(i as int) =~= x);
    assert(y.take(j as int) =~= y);
    out
}

/// Sorts texts, see [`sorted`].
pub fn sort(v: &Vec<Vec<char>>) -> (r: Vec<Vec<char>>)
    ensures
        text::views(r@) == sorted(text::views(v@)),
    decreases v@.len(),
{
    let ghost all = text::views(v@);
    let n: usize = v.len();
    if n <= 1 {
        let r = copy_range(v, 0, n);
        proof {
            assert(all.subrange(0, n as int) =~= all);
            texts_are_totally_ordered();
            all.lemma_sort_by_ensures(text_order());
            vstd::seq_lib::lemma_sorted_unique(all, sorted(all), text_order());
        }
        return r;
    }
    let left = copy_range(v, 0, n / 2);
    let right = copy_range(v, n / 2, n);
    let a = sort(&left);
    let b = sort(&right);
    proof {
        texts_are_totally_ordered();
        text::views(left@).lemma_sort_by_ensures(text_order());
        text::views(right@).lemma_sort_by_ensures(text_order());
    }
    let r = merge(&a, &b);
    proof {
        assert(all =~= text::views(left@) + text::views(right@));
        vstd::seq_lib::lemma_multiset_commutative(text::views(left@), text::views(right@));
        all.lemma_sort_by_ensures(text_order());
        vstd::seq_lib::lemma_sorted_unique(text::views(r@), sorted(all), text_order());
    }
    r
}

/// The first character in which texts differ decides, by its number; a text comes before those
/// that go on where it ends.
pub proof fn the_first_difference_decides(
    p: Seq<char>,
    c: char,
    d: char,
    x: Seq<char>,
    y: Seq<char>,
)
    requires
        (c as int) < (d as int),
    ensures
        le(p + seq![c] + x, p + seq![d] + y),
        !le(p + seq![d] + y, p + seq![c] + x),
        le(p, p + x),
        x.len() > 0 ==> !le(p + x, p),
    decreases p.len(),
{
    let a = p + seq![c] + x;
    let b = p + seq![d] + y;
    if p.len() == 0 {
        assert(a[0] == c && b[0] == d);
    } else {
        let t = p.drop_first();
        the_first_difference_decides(t, c, d, x, y);
        assert(a.drop_first() =~= t + seq![c] + x);
        assert(b.drop_first() =~= t + seq![d] + y);
        assert((p + x).drop_first() =~= t + x);
    }
}

} // verus!
