//! What a plugin says of itself.

use crate::text;
use vstd::prelude::*;

verus! {

/// How a feature is called up.
#[derive(Debug)]
pub enum Cmd {
    /// By a keyword that the user types.
    Keyword(String),
    /// By anything else.
    Other,
}

/// One feature of a plugin.
#[derive(Debug)]
pub struct Feature {
    pub code: String,
    pub cmds: Vec<Cmd>,
}

/// A plugin's manifest.
#[derive(Debug)]
pub struct PluginManifest {
    pub name: String,
    pub version: String,
    pub description: String,
    pub author: String,
    pub permissions: Vec<String>,
    pub features: Vec<Feature>,
}

/// The keywords among a feature's commands.
pub open spec fn keywords_in(cmds: Seq<Cmd>) -> Seq<Seq<char>>
    decreases cmds.len(),
{
    if cmds.len() == 0 {
        Seq::empty()
    } else {
        let before = keywords_in(cmds.drop_last());
        match cmds.last() {
            Cmd::Keyword(k) => before.push(k@),
            Cmd::Other => before,
        }
    }
}

/// The keywords of all features, in order.
pub open spec fn keywords_of(features: Seq<Feature>) -> Seq<Seq<char>>
    decreases features.len(),
{
    if features.len() == 0 {
        Seq::empty()
    } else {
        keywords_of(features.drop_last()) + keywords_in(features.last().cmds@)
    }
}

/// The keywords of a manifest, see [`keywords_of`].
pub fn keyword_cmds(manifest: &PluginManifest) -> (r: Vec<String>)
    ensures
        text::texts(r@) == keywords_of(manifest.features@),
{
    let mut out: Vec<String> = Vec::new();
    let mut i: usize = 0;
    let ghost fs = manifest.features@;
    assert(fs.take(0) =~= Seq::<Feature>::empty());
    assert(text::texts(out@) =~= Seq::<Seq<char>>::empty());
    while i < manifest.features.len()
        invariant
            i <= fs.len(),
            fs == manifest.features@,
            text::texts(out@) == keywords_of(fs.take(i as int)),
        decreases fs.len() - i,
    {
        assert(fs.take(i + 1).drop_last() =~= fs.take(i as int));
        let cmds = &manifest.features[i].cmds;
        let ghost done = text::texts(out@);
        let mut j: usize = 0;
        assert(cmds@.take(0) =~= Seq::<Cmd>::empty());
        assert(done + keywords_in(cmds@.take(0)) =~= done);
        while j < cmds.len()
            invariant
                j <= cmds@.len(),
                text::texts(out@) == done + keywords_in(cmds@.take(j as int)),
            decreases cmds@.len() - j,
        {
            assert(cmds@.take(j + 1).drop_last() =~= cmds@.take(j as int));
            match &cmds[j] {
                Cmd::Keyword(k) => {
                    let ghost before = out@;
                    out.push(k.clone());
                    assert(text::texts(out@) =~= text::texts(before).push(k@));
                    assert(done + keywords_in(cmds@.take(j as int)).push(k@) =~= (done
                        + keywords_in(cmds@.take(j as int))).push(k@));
                },
                Cmd::Other => {},
            }
            j += 1;
        }
        assert(cmds@.take(j as int) =~= cmds@);
        i += 1;
    }
    assert(fs.take(i as int) =~= fs);
    out
}

/// The codes of features, in order.
pub open spec fn codes_of(features: Seq<Feature>) -> Seq<Seq<char>> {
    features.map_values(|f: Feature| f.code@)
}

/// The first code that was there before.
pub open spec fn first_repeat(codes: Seq<Seq<char>>) -> Option<Seq<char>>
    decreases codes.len(),
{
    if codes.len() == 0 {
        None
    } else {
        match first_repeat(codes.drop_last()) {
            Some(c) => Some(c),
            None => if codes.drop_last().contains(codes.last()) {
                Some(codes.last())
            } else {
                None
            },
        }
    }
}

/// No code repeats where no first one does.
pub proof fn lemma_no_repeat(codes: Seq<Seq<char>>)
    ensures
        first_repeat(codes) is None <==> codes.no_duplicates(),
    decreases codes.len(),
{
    if codes.len() > 0 {
        let t = codes.drop_last();
        let n = codes.len() - 1;
        lemma_no_repeat(t);
        if codes.no_duplicates() {
            assert(t.no_duplicates());
            if t.contains(codes.last()) {
                let j = choose|j: int| 0 <= j < t.len() && t[j] == codes.last();
                assert(codes[j] == codes[n]);
            }
        } else if t.no_duplicates() {
            let (i, j) = choose|i: int, j: int|
                0 <= i < codes.len() && 0 <= j < codes.len() && i != j && codes[i] == codes[j];
            if i < n && j < n {
                assert(t[i] == t[j]);
            } else {
                let k = if i == n {
                    j
                } else {
                    i
                };
                assert(t[k] == codes.last());
            }
        } else {
            let (i, j) = choose|i: int, j: int|
                0 <= i < t.len() && 0 <= j < t.len() && i != j && t[i] == t[j];
            assert(codes[i] == codes[j]);
        }
    }
}

/// The first code of a feature that another one had before, see [`first_repeat`].
pub fn repeated_code(manifest: &PluginManifest) -> (r: Option<String>)
    ensures
        text::opt_view(r) == first_repeat(codes_of(manifest.features@)),
{
    let ghost codes = codes_of(manifest.features@);
    let n: usize = manifest.features.len();
    let mut i: usize = 0;
    assert(codes.take(0) =~= Seq::<Seq<char>>::empty());
    while i < n
        invariant
            i <= n == manifest.features@.len(),
            codes == codes_of(manifest.features@),
            first_repeat(codes.take(i as int)) is None,
        decreases n - i,
    {
        let ghost before = codes.take(i as int);
        let ghost after = codes.take(i + 1);
        assert(after.drop_last() =~= before);
        assert(after.last() == manifest.features@[i as int].code@);
        let mut j: usize = 0;
        let mut found: bool = false;
        while j < i && !found
            invariant
                j <= i < n == manifest.features@.len(),
                codes == codes_of(manifest.features@),
                before == codes.take(i as int),
                found ==> before.contains(codes[i as int]),
                !found ==> forall|k: int| 0 <= k < j ==> codes[k] != codes[i as int],
            decreases i - j + (if found {
                0int
            } else {
                1
            }),
        {
            if text::str_eq(manifest.features[j].code.as_str(), manifest.features[i].code.as_str()) {
                assert(before[j as int] == codes[i as int]);
                found = true;
            } else {
                assert(codes[j as int] != codes[i as int]);
                j += 1;
            }
        }
        if found {
            proof {
                lemma_first_repeat_stays(codes, (i + 1) as nat);
            }
            return Some(manifest.features[i].code.clone());
        }
        assert(!before.contains(codes[i as int]));
        i += 1;
    }
    assert(codes.take(i as int) =~= codes);
    None
}

proof fn lemma_first_repeat_stays(codes: Seq<Seq<char>>, n: nat)
    requires
        n <= codes.len(),
        first_repeat(codes.take(n as int)) is Some,
    ensures
        first_repeat(codes) == first_repeat(codes.take(n as int)),
    decreases codes.len(),
{
    if n < codes.len() {
        let t = codes.drop_last();
        assert(t.take(n as int) =~= codes.take(n as int));
        lemma_first_repeat_stays(t, n);
    } else {
        assert(codes.take(n as int) =~= codes);
    }
}

/// The keywords are those of all features, and no others.
pub proof fn every_keyword_is_listed(features: Seq<Feature>, word: Seq<char>)
    ensures
        keywords_of(features).contains(word) <==> exists|k: int, j: int|
            0 <= k < features.len() && 0 <= j < features[k].cmds@.len() && (
            #[trigger] features[k].cmds@[j]) is Keyword && (features[k].cmds@[j]->Keyword_0)@
                == word,
    decreases features.len(),
{
    let all = keywords_of(features);
    if features.len() > 0 {
        let less = features.drop_last();
        let before = keywords_of(less);
        let cmds = features.last().cmds@;
        let last = keywords_in(cmds);
        every_keyword_is_listed(less, word);
        lemma_keywords_in(cmds, word);
        if all.contains(word) {
            let i = choose|i: int| 0 <= i < all.len() && all[i] == word;
            if i < before.len() {
                assert(before[i] == word);
                let (k, j) = choose|k: int, j: int|
                    0 <= k < less.len() && 0 <= j < less[k].cmds@.len() && (
                    #[trigger] less[k].cmds@[j]) is Keyword && (less[k].cmds@[j]->Keyword_0)@
                        == word;
                assert(features[k] == less[k]);
                assert(features[k].cmds@[j] is Keyword);
            } else {
                assert(last[i - before.len()] == word);
                let j = choose|j: int|
                    0 <= j < cmds.len() && (#[trigger] cmds[j]) is Keyword && (
                    cmds[j]->Keyword_0)@ == word;
                assert(features[features.len() - 1].cmds@[j] is Keyword);
            }
        }
        if exists|k: int, j: int|
            0 <= k < features.len() && 0 <= j < features[k].cmds@.len() && (
            #[trigger] features[k].cmds@[j]) is Keyword && (features[k].cmds@[j]->Keyword_0)@
                == word {
            let (k, j) = choose|k: int, j: int|
                0 <= k < features.len() && 0 <= j < features[k].cmds@.len() && (
                #[trigger] features[k].cmds@[j]) is Keyword && (features[k].cmds@[j]->Keyword_0)@
                    == word;
            if k < less.len() {
                assert(less[k] == features[k]);
                assert(less[k].cmds@[j] is Keyword);
                assert(before.contains(word));
                let i = choose|i: int| 0 <= i < before.len() && before[i] == word;
                assert(all[i] == word);
            } else {
                assert(cmds[j] is Keyword);
                assert(last.contains(word));
                let i = choose|i: int| 0 <= i < last.len() && last[i] == word;
                assert(all[before.len() + i] == word);
            }
        }
    }
}

proof fn lemma_keywords_in(cmds: Seq<Cmd>, word: Seq<char>)
    ensures
        keywords_in(cmds).contains(word) <==> exists|j: int|
            0 <= j < cmds.len() && (#[trigger] cmds[j]) is Keyword && (cmds[j]->Keyword_0)@ == word,
    decreases cmds.len(),
{
    let all = keywords_in(cmds);
    if cmds.len() > 0 {
        let less = cmds.drop_last();
        let before = keywords_in(less);
        lemma_keywords_in(less, word);
        if all.contains(word) {
            let i = choose|i: int| 0 <= i < all.len() && all[i] == word;
            if i < before.len() {
                assert(before[i] == word);
                let j = choose|j: int|
                    0 <= j < less.len() && (#[trigger] less[j]) is Keyword && (
                    less[j]->Keyword_0)@ == word;
                assert(cmds[j] == less[j]);
            } else {
                assert(cmds[cmds.len() - 1] is Keyword);
            }
        }
        if exists|j: int|
            0 <= j < cmds.len() && (#[trigger] cmds[j]) is Keyword && (cmds[j]->Keyword_0)@
                == word {
            let j = choose|j: int|
                0 <= j < cmds.len() && (#[trigger] cmds[j]) is Keyword && (cmds[j]->Keyword_0)@
                    == word;
            if j < less.len() {
                assert(less[j] == cmds[j]);
                assert(before.contains(word));
                let i = choose|i: int| 0 <= i < before.len() && before[i] == word;
                assert(all[i] == word);
            } else {
                assert(all[before.len() as int] == word);
            }
        }
    }
}

/// A code is told as repeated just where one is: it is in the list twice.
pub proof fn repeated_codes_are_found(codes: Seq<Seq<char>>, i: int, j: int)
    ensures
        0 <= i < j < codes.len() && codes[i] == codes[j] ==> first_repeat(codes) is Some,
        first_repeat(codes) is Some ==> exists|a: int, b: int|
            0 <= a < b < codes.len() && #[trigger] codes[a] == #[trigger] codes[b] && codes[a]
                == first_repeat(codes)->0,
    decreases codes.len(),
{
    if codes.len() > 0 {
        let less = codes.drop_last();
        let n = less.len() as int;
        repeated_codes_are_found(less, i, j);
        if 0 <= i < j < codes.len() && codes[i] == codes[j] {
            assert(less[i] == codes[i]);
            if j < n {
                assert(less[j] == codes[j]);
            } else {
                assert(less.contains(codes.last()));
            }
        }
        if first_repeat(less) is Some {
            let (a, b) = choose|a: int, b: int|
                0 <= a < b < less.len() && #[trigger] less[a] == #[trigger] less[b] && less[a]
                    == first_repeat(less)->0;
            assert(codes[a] == less[a] && codes[b] == less[b]);
        } else if first_repeat(codes) is Some {
            let a = choose|a: int| 0 <= a < less.len() && less[a] == codes.last();
            assert(codes[a] == less[a] && codes[n] == codes.last());
        }
    }
}

} // verus!
