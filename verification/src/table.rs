//! Tables from names to values.

use crate::text;
use vstd::prelude::*;

verus! {

/// A table from names to values: no name occurs twice.
#[derive(Debug)]
pub struct Table<V> {
    entries: Vec<(String, V)>,
}

/// Whether no two entries have the same name.
pub open spec fn distinct<V>(s: Seq<(String, V)>) -> bool {
    forall|i: int, j: int|
        0 <= i < j < s.len() ==> (#[trigger] s[i]).0@ != (#[trigger] s[j]).0@
}

/// Whether the entry at an index has a name.
pub open spec fn named_at<V>(s: Seq<(String, V)>, i: int, name: Seq<char>) -> bool {
    0 <= i < s.len() && s[i].0@ == name
}

/// The index of a name.
pub open spec fn place<V>(s: Seq<(String, V)>, name: Seq<char>) -> int {
    choose|i: int| named_at(s, i, name)
}

/// The map that a list of entries stands for.
pub open spec fn as_map<V>(s: Seq<(String, V)>) -> Map<Seq<char>, V> {
    Map::new(
        |name: Seq<char>| exists|i: int| named_at(s, i, name),
        |name: Seq<char>| s[place(s, name)].1,
    )
}

proof fn lemma_place<V>(s: Seq<(String, V)>, i: int)
    requires
        distinct(s),
        0 <= i < s.len(),
    ensures
        as_map(s).dom().contains(s[i].0@),
        place(s, s[i].0@) == i,
        as_map(s)[s[i].0@] == s[i].1,
{
    assert(named_at(s, i, s[i].0@));
    let j = place(s, s[i].0@);
    assert(named_at(s, j, s[i].0@));
    if j < i {
        assert(s[j].0@ != s[i].0@);
    }
    if i < j {
        assert(s[i].0@ != s[j].0@);
    }
}

proof fn lemma_absent<V>(s: Seq<(String, V)>, name: Seq<char>)
    requires
        forall|i: int| 0 <= i < s.len() ==> (#[trigger] s[i]).0@ != name,
    ensures
        !as_map(s).dom().contains(name),
{
    if exists|i: int| named_at(s, i, name) {
        let i = choose|i: int| named_at(s, i, name);
        assert(s[i].0@ == name);
    }
}

proof fn lemma_push<V>(s: Seq<(String, V)>, e: (String, V))
    requires
        distinct(s),
        !as_map(s).dom().contains(e.0@),
    ensures
        distinct(s.push(e)),
        as_map(s.push(e)) == as_map(s).insert(e.0@, e.1),
{
    let t = s.push(e);
    assert forall|i: int, j: int| 0 <= i < j < t.len() implies (#[trigger] t[i]).0@ != (
    #[trigger] t[j]).0@ by {
        if j == s.len() && s[i].0@ == e.0@ {
            assert(named_at(s, i, e.0@));
        }
    }
    lemma_place(t, s.len() as int);
    assert forall|name: Seq<char>| #[trigger]
        as_map(t).dom().contains(name) == as_map(s).insert(e.0@, e.1).dom().contains(name) by {
        if exists|i: int| named_at(t, i, name) {
            let i = choose|i: int| named_at(t, i, name);
            if i < s.len() {
                assert(named_at(s, i, name));
            }
        }
        if exists|i: int| named_at(s, i, name) {
            let i = choose|i: int| named_at(s, i, name);
            assert(named_at(t, i, name));
        }
    }
    assert forall|name: Seq<char>| #[trigger]
        as_map(t).dom().contains(name) implies as_map(t)[name] == as_map(s).insert(
        e.0@,
        e.1,
    )[name] by {
        if name != e.0@ {
            let i = choose|i: int| named_at(s, i, name);
            assert(named_at(s, i, name));
            lemma_place(s, i);
            assert(t[i] == s[i]);
            lemma_place(t, i);
        }
    }
    assert(as_map(t) =~= as_map(s).insert(e.0@, e.1));
}

proof fn lemma_remove<V>(s: Seq<(String, V)>, k: int)
    requires
        distinct(s),
        0 <= k < s.len(),
    ensures
        distinct(s.remove(k)),
        as_map(s.remove(k)) == as_map(s).remove(s[k].0@),
{
    let t = s.remove(k);
    assert forall|i: int, j: int| 0 <= i < j < t.len() implies (#[trigger] t[i]).0@ != (
    #[trigger] t[j]).0@ by {
        let a = if i < k {
            i
        } else {
            i + 1
        };
        let b = if j < k {
            j
        } else {
            j + 1
        };
        assert(t[i] == s[a]);
        assert(t[j] == s[b]);
    }
    assert forall|name: Seq<char>| #[trigger]
        as_map(t).dom().contains(name) == as_map(s).remove(s[k].0@).dom().contains(name) by {
        if exists|i: int| named_at(t, i, name) {
            let i = choose|i: int| named_at(t, i, name);
            let a = if i < k {
                i
            } else {
                i + 1
            };
            assert(t[i] == s[a]);
            assert(named_at(s, a, name));
            if a < k {
                assert(s[a].0@ != s[k].0@);
            } else {
                assert(s[k].0@ != s[a].0@);
            }
        }
        if name != s[k].0@ && exists|i: int| named_at(s, i, name) {
            let i = choose|i: int| named_at(s, i, name);
            let a = if i < k {
                i
            } else {
                i - 1
            };
            assert(t[a] == s[i]);
            assert(named_at(t, a, name));
        }
    }
    assert forall|name: Seq<char>| #[trigger]
        as_map(t).dom().contains(name) implies as_map(t)[name] == as_map(s).remove(
        s[k].0@,
    )[name] by {
        let i = choose|i: int| named_at(t, i, name);
        assert(named_at(t, i, name));
        let a = if i < k {
            i
        } else {
            i + 1
        };
        assert(t[i] == s[a]);
        lemma_place(t, i);
        lemma_place(s, a);
    }
    assert(as_map(t) =~= as_map(s).remove(s[k].0@));
}

/// The entries of other names.
pub open spec fn rows_without<V>(s: Seq<(String, V)>, name: Seq<char>) -> Seq<(String, V)>
    decreases s.len(),
{
    if s.len() == 0 {
        Seq::empty()
    } else if s.last().0@ == name {
        rows_without(s.drop_last(), name)
    } else {
        rows_without(s.drop_last(), name).push(s.last())
    }
}

proof fn lemma_without_absent<V>(s: Seq<(String, V)>, name: Seq<char>)
    requires
        forall|i: int| 0 <= i < s.len() ==> (#[trigger] s[i]).0@ != name,
    ensures
        rows_without(s, name) == s,
    decreases s.len(),
{
    if s.len() > 0 {
        let t = s.drop_last();
        assert forall|i: int| 0 <= i < t.len() implies (#[trigger] t[i]).0@ != name by {
            assert(t[i] == s[i]);
        }
        lemma_without_absent(t, name);
        assert(t.push(s.last()) =~= s);
    }
}

proof fn lemma_without_at<V>(s: Seq<(String, V)>, k: int)
    requires
        distinct(s),
        0 <= k < s.len(),
    ensures
        rows_without(s, s[k].0@) == s.remove(k),
    decreases s.len(),
{
    let name = s[k].0@;
    let t = s.drop_last();
    if k == s.len() - 1 {
        assert forall|i: int| 0 <= i < t.len() implies (#[trigger] t[i]).0@ != name by {
            assert(t[i] == s[i]);
        }
        lemma_without_absent(t, name);
        assert(s.remove(k) =~= t);
    } else {
        assert(t[k] == s[k]);
        assert(distinct(t)) by {
            assert forall|i: int, j: int| 0 <= i < j < t.len() implies (#[trigger] t[i]).0@ != (
            #[trigger] t[j]).0@ by {
                assert(t[i] == s[i] && t[j] == s[j]);
            }
        }
        lemma_without_at(t, k);
        assert(s[k].0@ != s[s.len() - 1].0@);
        assert(t.remove(k).push(s.last()) =~= s.remove(k));
    }
}

impl<V> View for Table<V> {
    type V = Map<Seq<char>, V>;

    closed spec fn view(&self) -> Map<Seq<char>, V> {
        as_map(self.entries@)
    }
}

impl<V> Table<V> {
    /// The entries in the order in which their names first came in.
    pub closed spec fn rows(&self) -> Seq<(String, V)> {
        self.entries@
    }

    #[verifier::type_invariant]
    spec fn inv(self) -> bool {
        distinct(self.entries@)
    }

    /// Every name of the table has a row.
    pub proof fn lemma_rows_cover(&self, name: Seq<char>)
        requires
            self@.dom().contains(name),
        ensures
            exists|j: int| 0 <= j < self.rows().len() && (#[trigger] self.rows()[j]).0@ == name,
    {
        let j = choose|j: int| named_at(self.entries@, j, name);
        assert(self.rows()[j].0@ == name);
    }

    /// The value of a name is the one in its row.
    pub proof fn lemma_row_value(&self, j: int)
        requires
            0 <= j < self.rows().len(),
            distinct(self.rows()),
        ensures
            self@.dom().contains(self.rows()[j].0@),
            self@[self.rows()[j].0@] == self.rows()[j].1,
    {
        lemma_place(self.entries@, j);
    }

    /// No two rows have the same name.
    pub fn rows_are_distinct(&self)
        ensures
            distinct(self.rows()),
    {
        proof {
            use_type_invariant(self);
        }
    }

    pub fn new() -> (r: Self)
        ensures
            r@ == Map::<Seq<char>, V>::empty(),
            r.rows() == Seq::<(String, V)>::empty(),
    {
        let r = Table { entries: Vec::new() };
        proof {
            assert(r@ =~= Map::<Seq<char>, V>::empty());
        }
        r
    }

    /// The number of names.
    pub fn len(&self) -> (r: usize)
        ensures
            r == self.rows().len(),
    {
        self.entries.len()
    }

    /// The entry at an index.
    pub fn row(&self, i: usize) -> (r: &(String, V))
        requires
            i < self.rows().len(),
        ensures
            *r == self.rows()[i as int],
            self@.dom().contains(r.0@),
            self@[r.0@] == r.1,
    {
        proof {
            use_type_invariant(self);
            lemma_place(self.entries@, i as int);
        }
        &self.entries[i]
    }

    fn find(&self, name: &str) -> (r: Option<usize>)
        ensures
            match r {
                Some(i) => i < self.entries@.len() && self.entries@[i as int].0@ == name@,
                None => forall|i: int|
                    0 <= i < self.entries@.len() ==> (#[trigger] self.entries@[i]).0@ != name@,
            },
    {
        let mut i: usize = 0;
        while i < self.entries.len()
            invariant
                i <= self.entries@.len(),
                forall|j: int| 0 <= j < i ==> (#[trigger] self.entries@[j]).0@ != name@,
            decreases self.entries@.len() - i,
        {
            if text::str_eq(self.entries[i].0.as_str(), name) {
                return Some(i);
            }
            i += 1;
        }
        None
    }

    /// The value of a name.
    pub fn get(&self, name: &str) -> (r: Option<&V>)
        ensures
            match r {
                Some(v) => self@.dom().contains(name@) && *v == self@[name@],
                None => !self@.dom().contains(name@),
            },
    {
        proof {
            use_type_invariant(self);
        }
        match self.find(name) {
            Some(i) => {
                proof {
                    lemma_place(self.entries@, i as int);
                }
                Some(&self.entries[i].1)
            },
            None => {
                proof {
                    lemma_absent(self.entries@, name@);
                }
                None
            },
        }
    }

    /// Whether a name is in the table.
    pub fn contains(&self, name: &str) -> (r: bool)
        ensures
            r == self@.dom().contains(name@),
    {
        self.get(name).is_some()
    }

    /// Takes a name out of the table.
    pub fn remove(&mut self, name: &str) -> (r: Option<V>)
        ensures
            final(self)@ == old(self)@.remove(name@),
            final(self).rows() == rows_without(old(self).rows(), name@),
            match r {
                Some(v) => old(self)@.dom().contains(name@) && v == old(self)@[name@],
                None => !old(self)@.dom().contains(name@),
            },
    {
        proof {
            use_type_invariant(&*self);
        }
        let ghost before = self.entries@;
        match self.find(name) {
            Some(i) => {
                proof {
                    lemma_place(before, i as int);
                    lemma_remove(before, i as int);
                    lemma_without_at(before, i as int);
                }
                let mut v: Vec<(String, V)> = Vec::new();
                std::mem::swap(&mut v, &mut self.entries);
                let (_, value) = v.remove(i);
                assert(v@ == before.remove(i as int));
                self.entries = v;
                Some(value)
            },
            None => {
                proof {
                    lemma_absent(before, name@);
                    lemma_without_absent(before, name@);
                    assert(as_map(before).remove(name@) =~= as_map(before));
                }
                None
            },
        }
    }

    /// Sets the value of a name.
    pub fn insert(&mut self, name: String, value: V)
        ensures
            final(self)@ == old(self)@.insert(name@, value),
            final(self).rows() == rows_without(old(self).rows(), name@).push((name, value)),
    {
        self.remove(name.as_str());
        proof {
            use_type_invariant(&*self);
            lemma_push(self.entries@, (name, value));
            assert(old(self)@.remove(name@).insert(name@, value) =~= old(self)@.insert(
                name@,
                value,
            ));
        }
        let mut v: Vec<(String, V)> = Vec::new();
        std::mem::swap(&mut v, &mut self.entries);
        v.push((name, value));
        self.entries = v;
    }
}

impl<V> Default for Table<V> {
    fn default() -> (r: Self)
        ensures
            r@ == Map::<Seq<char>, V>::empty(),
    {
        Table::new()
    }
}

} // verus!
