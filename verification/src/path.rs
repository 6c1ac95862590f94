//! Paths as text, read as Windows reads them, the system that the host runs on: slashes and
//! backslashes both separate, and a letter with a colon in front names a drive.

use crate::text;
use vstd::prelude::*;
use vstd::slice::slice_subrange;

verus! {

/// The pieces of a path that carry a name.
pub open spec fn named_pieces(v: Seq<Seq<char>>) -> Seq<Seq<char>>
    decreases v.len(),
{
    if v.len() == 0 {
        Seq::empty()
    } else if v.last().len() == 0 || v.last() == "."@ {
        named_pieces(v.drop_last())
    } else {
        named_pieces(v.drop_last()).push(v.last())
    }
}

/// The named pieces of a path.
pub open spec fn parts(path: Seq<char>) -> Seq<Seq<char>> {
    named_pieces(text::pieces(text::replaced(path, '\\', '/'), '/'))
}

/// The named pieces of a path, see [`parts`].
pub fn named_parts(path: &str) -> (r: Vec<Vec<char>>)
    ensures
        text::views(r@) == parts(path@),
{
    let v = text::chars_of(path);
    let unified = text::replace_char(v.as_slice(), '\\', '/');
    let pieces = text::split(unified.as_slice(), '/');
    let ghost all = text::views(pieces@);
    let mut kept: Vec<Vec<char>> = Vec::new();
    let mut i: usize = 0;
    assert(all.take(0) =~= Seq::<Seq<char>>::empty());
    assert(text::views(kept@) =~= Seq::<Seq<char>>::empty());
    while i < pieces.len()
        invariant
            i <= pieces@.len(),
            all == text::views(pieces@),
            text::views(kept@) == named_pieces(all.take(i as int)),
        decreases pieces@.len() - i,
    {
        assert(all.take(i + 1).drop_last() =~= all.take(i as int));
        assert(all.take(i + 1).last() == pieces@[i as int]@);
        let piece = pieces[i].as_slice();
        if piece.len() > 0 && !text::same(piece, ".") {
            let ghost before = kept@;
            kept.push(text::to_vec(piece));
            assert(text::views(kept@) =~= text::views(before).push(piece@));
        }
        i += 1;
    }
    assert(all.take(i as int) =~= all);
    kept
}

/// The pieces that carry a name are not empty, no single dots, and among all pieces.
pub proof fn lemma_named(v: Seq<Seq<char>>)
    ensures
        forall|k: int|
            0 <= k < named_pieces(v).len() ==> {
                &&& (#[trigger] named_pieces(v)[k]).len() > 0
                &&& named_pieces(v)[k] != "."@
                &&& v.contains(named_pieces(v)[k])
            },
    decreases v.len(),
{
    if v.len() > 0 {
        let t = v.drop_last();
        lemma_named(t);
        assert forall|k: int| 0 <= k < named_pieces(v).len() implies {
            &&& (#[trigger] named_pieces(v)[k]).len() > 0
            &&& named_pieces(v)[k] != "."@
            &&& v.contains(named_pieces(v)[k])
        } by {
            let p = named_pieces(v)[k];
            if k < named_pieces(t).len() {
                assert(p == named_pieces(t)[k]);
                let m = choose|m: int| 0 <= m < t.len() && t[m] == p;
                assert(v[m] == p);
            } else {
                assert(v[v.len() - 1] == p);
            }
        }
    }
}

/// Pieces that all carry a name are kept.
pub proof fn lemma_named_id(v: Seq<Seq<char>>)
    requires
        forall|k: int| 0 <= k < v.len() ==> (#[trigger] v[k]).len() > 0 && v[k] != "."@,
    ensures
        named_pieces(v) == v,
    decreases v.len(),
{
    if v.len() > 0 {
        let t = v.drop_last();
        assert forall|k: int| 0 <= k < t.len() implies (#[trigger] t[k]).len() > 0 && t[k]
            != "."@ by {
            assert(t[k] == v[k]);
        }
        lemma_named_id(t);
        assert(named_pieces(v) =~= v);
    }
}

// ---------------------------------------------------------------------------
// Relative paths
// ---------------------------------------------------------------------------

/// Whether a path starts with a drive.
pub open spec fn has_drive(path: Seq<char>) -> bool {
    path.len() >= 2 && path[1] == ':' && text::is_letter(path[0])
}

/// Whether a path starts with a separator.
pub open spec fn is_rooted(path: Seq<char>) -> bool {
    path.len() > 0 && (path[0] == '/' || path[0] == '\\')
}

/// Whether a path leads nowhere but down from where it is used: no drive, no root, no step up.
pub open spec fn is_plain(path: Seq<char>) -> bool {
    !has_drive(path) && !is_rooted(path) && !parts(path).contains(".."@)
}

/// The pieces of a path that leads nowhere but down, see [`is_plain`].
pub fn plain_parts(path: &str) -> (r: Option<Vec<String>>)
    ensures
        match r {
            Some(v) => is_plain(path@) && text::texts(v@) == parts(path@),
            None => !is_plain(path@),
        },
{
    let v = text::chars_of(path);
    if v.len() >= 2 && v[1] == ':' && (('a' <= v[0] && v[0] <= 'z') || ('A' <= v[0] && v[0]
        <= 'Z')) {
        return None;
    }
    if v.len() > 0 && (v[0] == '/' || v[0] == '\\') {
        return None;
    }
    let named = named_parts(path);
    let ghost all = text::views(named@);
    let mut out: Vec<String> = Vec::new();
    let mut i: usize = 0;
    assert(text::texts(out@) =~= all.take(0));
    while i < named.len()
        invariant
            i <= named@.len(),
            all == text::views(named@),
            all == parts(path@),
            text::texts(out@) == all.take(i as int),
            forall|j: int| 0 <= j < i ==> #[trigger] all[j] != ".."@,
        decreases named@.len() - i,
    {
        let part = named[i].as_slice();
        assert(all[i as int] == part@);
        if text::same(part, "..") {
            assert(parts(path@).contains(".."@));
            return None;
        }
        let ghost before = out@;
        out.push(text::string_of(part));
        assert(text::texts(out@) =~= text::texts(before).push(part@));
        assert(all.take(i + 1) =~= all.take(i as int).push(all[i as int]));
        i += 1;
    }
    assert(all.take(i as int) =~= all);
    Some(out)
}

/// The named pieces of a path hold no separator.
proof fn lemma_parts(path: Seq<char>)
    ensures
        forall|k: int|
            0 <= k < parts(path).len() ==> {
                let p = #[trigger] parts(path)[k];
                &&& p.len() > 0
                &&& p != "."@
                &&& !p.contains('/')
                &&& !p.contains('\\')
            },
{
    let unified = text::replaced(path, '\\', '/');
    let all = text::pieces(unified, '/');
    text::lemma_pieces_free(unified, '/');
    lemma_named(all);
    assert forall|k: int| 0 <= k < parts(path).len() implies {
        let p = #[trigger] parts(path)[k];
        &&& !p.contains('/')
        &&& !p.contains('\\')
    } by {
        let p = parts(path)[k];
        let m = choose|m: int| 0 <= m < all.len() && all[m] == p;
        assert forall|j: int| 0 <= j < p.len() implies p[j] != '/' && p[j] != '\\' by {
            assert(all[m][j] != '/');
            assert(unified.contains(all[m][j]));
        }
    }
}

/// Every piece of a path that leads nowhere but down is a name, not a step.
pub proof fn plain_parts_are_names(path: Seq<char>)
    requires
        is_plain(path),
    ensures
        forall|k: int|
            0 <= k < parts(path).len() ==> {
                let p = #[trigger] parts(path)[k];
                &&& p.len() > 0
                &&& p != "."@
                &&& p != ".."@
                &&& !p.contains('/')
                &&& !p.contains('\\')
            },
{
    lemma_parts(path);
    assert forall|k: int| 0 <= k < parts(path).len() implies #[trigger] parts(path)[k]
        != ".."@ by {
        assert(parts(path).contains(parts(path)[k]));
    }
}

// ---------------------------------------------------------------------------
// File names
// ---------------------------------------------------------------------------

/// A path without its drive.
pub open spec fn without_drive(path: Seq<char>) -> Seq<char> {
    if has_drive(path) {
        path.skip(2)
    } else {
        path
    }
}

/// The name of the file that a path leads to; nothing when it ends with a step up.
pub open spec fn file_name(path: Seq<char>) -> Option<Seq<char>> {
    let p = parts(without_drive(path));
    if p.len() == 0 || p.last() == ".."@ {
        None
    } else {
        Some(p.last())
    }
}

/// The name of the file that a path leads to is a plain name.
pub proof fn lemma_file_name(path: Seq<char>)
    ensures
        file_name(path) matches Some(n) ==> {
            &&& n.len() > 0
            &&& n != "."@
            &&& n != ".."@
            &&& !n.contains('/')
            &&& !n.contains('\\')
        },
{
    let p = parts(without_drive(path));
    lemma_parts(without_drive(path));
    if p.len() > 0 {
        assert(p.last() == p[p.len() - 1]);
    }
}

/// The index of the last dot.
pub open spec fn last_dot(s: Seq<char>) -> int
    decreases s.len(),
{
    if s.len() == 0 {
        -1
    } else if s.last() == '.' {
        s.len() - 1
    } else {
        last_dot(s.drop_last())
    }
}

/// The extension of a file name: what stands behind its last dot, unless that is in front.
pub open spec fn name_ext(name: Seq<char>) -> Option<Seq<char>> {
    if last_dot(name) <= 0 {
        None
    } else {
        Some(name.skip(last_dot(name) + 1))
    }
}

/// The extension of a path in lower case; empty when there is none.
pub open spec fn ext_of(path: Seq<char>) -> Seq<char> {
    match file_name(path) {
        None => Seq::empty(),
        Some(n) => match name_ext(n) {
            None => Seq::empty(),
            Some(e) => text::lowered(e),
        },
    }
}

/// The name of the file that a path leads to, see [`file_name`].
pub fn name_in(path: &str) -> (r: Option<Vec<char>>)
    ensures
        text::opt_view(r) == file_name(path@),
{
    let v = text::chars_of(path);
    let drive = v.len() >= 2 && v[1] == ':' && (('a' <= v[0] && v[0] <= 'z') || ('A' <= v[0]
        && v[0] <= 'Z'));
    let tail = if drive {
        slice_subrange(v.as_slice(), 2, v.len())
    } else {
        v.as_slice()
    };
    assert(tail@ =~= without_drive(path@));
    let inner = text::string_of(tail);
    let named = named_parts(inner.as_str());
    if named.len() == 0 {
        return None;
    }
    let name = named[named.len() - 1].as_slice();
    assert(parts(without_drive(path@)).last() == name@);
    if text::same(name, "..") {
        return None;
    }
    Some(text::to_vec(name))
}

/// The extension of a path in lower case, see [`ext_of`].
pub fn extension(path: &str) -> (r: Vec<char>)
    ensures
        r@ == ext_of(path@),
{
    let none: Vec<char> = Vec::new();
    assert(none@ =~= Seq::<char>::empty());
    let found = match name_in(path) {
        Some(n) => n,
        None => {
            return none;
        },
    };
    let name = found.as_slice();
    let mut i: usize = name.len();
    assert(name@.take(i as int) =~= name@);
    while i > 0
        invariant
            i <= name@.len(),
            none@ == Seq::<char>::empty(),
            last_dot(name@) == last_dot(name@.take(i as int)),
            file_name(path@) == Some(name@),
        decreases i,
    {
        assert(name@.take(i as int).drop_last() =~= name@.take(i - 1));
        if name[i - 1] == '.' {
            if i == 1 {
                return none;
            }
            let ext = slice_subrange(name, i, name.len());
            assert(ext@ =~= name@.skip(i as int));
            return text::to_lower(ext);
        }
        i -= 1;
    }
    none
}

// ---------------------------------------------------------------------------
// Paths that the system resolved
// ---------------------------------------------------------------------------

/// Whether a path, given by its pieces, is a directory or lies below it.
pub open spec fn covers(dir: Seq<Seq<char>>, path: Seq<Seq<char>>) -> bool {
    dir.is_prefix_of(path)
}

/// The pieces of many paths.
pub open spec fn many(v: Seq<Vec<String>>) -> Seq<Seq<Seq<char>>> {
    Seq::new(v.len(), |i: int| text::texts(v[i]@))
}

/// Whether a path is one of directories or lies below one.
pub open spec fn any_covers(dirs: Seq<Seq<Seq<char>>>, path: Seq<Seq<char>>) -> bool {
    exists|i: int| 0 <= i < dirs.len() && #[trigger] covers(dirs[i], path)
}

/// Whether a path is a directory or lies below it, see [`covers`].
pub fn is_within(dir: &Vec<String>, path: &Vec<String>) -> (r: bool)
    ensures
        r == covers(text::texts(dir@), text::texts(path@)),
{
    let ghost d = text::texts(dir@);
    let ghost p = text::texts(path@);
    if dir.len() > path.len() {
        return false;
    }
    let mut i: usize = 0;
    while i < dir.len()
        invariant
            i <= dir@.len() <= path@.len(),
            d == text::texts(dir@),
            p == text::texts(path@),
            forall|j: int| 0 <= j < i ==> d[j] == p[j],
        decreases dir@.len() - i,
    {
        if !text::str_eq(dir[i].as_str(), path[i].as_str()) {
            assert(d[i as int] != p[i as int]);
            assert(p.subrange(0, d.len() as int)[i as int] == p[i as int]);
            return false;
        }
        i += 1;
    }
    assert(d =~= p.subrange(0, d.len() as int));
    true
}

/// Whether a path is one of directories or lies below one, see [`any_covers`].
pub fn is_within_any(dirs: &Vec<Vec<String>>, path: &Vec<String>) -> (r: bool)
    ensures
        r == any_covers(many(dirs@), text::texts(path@)),
{
    let mut i: usize = 0;
    while i < dirs.len()
        invariant
            i <= dirs@.len(),
            forall|j: int|
                0 <= j < i ==> !#[trigger] covers(many(dirs@)[j], text::texts(path@)),
        decreases dirs@.len() - i,
    {
        assert(many(dirs@)[i as int] == text::texts(dirs@[i as int]@));
        if is_within(&dirs[i], path) {
            assert(covers(many(dirs@)[i as int], text::texts(path@)));
            return true;
        }
        i += 1;
    }
    false
}

// ---------------------------------------------------------------------------
// What holds of paths
// ---------------------------------------------------------------------------

/// Whether a text can stand for itself in a path.
pub open spec fn is_name(n: Seq<char>) -> bool {
    n.len() > 0 && n != "."@ && !n.contains('/') && !n.contains('\\')
}

proof fn lemma_replaced_back(a: Seq<char>, b: Seq<char>)
    requires
        !b.contains('\\'),
    ensures
        text::replaced(a + b, '\\', '/') == text::replaced(a, '\\', '/') + b,
{
    let whole = text::replaced(a + b, '\\', '/');
    assert forall|i: int| 0 <= i < whole.len() implies whole[i] == (text::replaced(a, '\\', '/')
        + b)[i] by {
        if i >= a.len() {
            assert(b.contains(b[i - a.len()]));
        }
    }
    assert(whole =~= text::replaced(a, '\\', '/') + b);
}

/// A name behind a separator, whichever of the two, is the last piece of a path; the pieces in
/// front of it are those of what stands there.
pub proof fn names_are_pieces(d: Seq<char>, sep: char, n: Seq<char>)
    requires
        is_name(n),
        sep == '/' || sep == '\\',
    ensures
        parts(d.push(sep) + n) == parts(d).push(n),
        parts(n) == seq![n],
{
    let f = text::replaced(d, '\\', '/');
    lemma_replaced_back(d.push(sep), n);
    assert(text::replaced(d.push(sep), '\\', '/') =~= f.push('/'));
    text::lemma_pieces_back(f, '/', n);
    let v = text::pieces(f, '/');
    assert(v.push(n).drop_last() =~= v);
    lemma_replaced_back(Seq::empty(), n);
    assert(Seq::<char>::empty() + n =~= n);
    assert(text::replaced(Seq::empty(), '\\', '/') + n =~= n);
    text::lemma_pieces_one(n, '/');
    assert(seq![n].drop_last() =~= Seq::<Seq<char>>::empty());
    assert(named_pieces(Seq::<Seq<char>>::empty()) =~= Seq::<Seq<char>>::empty());
    assert(parts(n) =~= seq![n]);
}

/// Names with slashes between them are the pieces of the path that they make.
pub proof fn paths_are_made_of_names(v: Seq<Seq<char>>)
    requires
        v.len() > 0,
        forall|k: int| 0 <= k < v.len() ==> is_name(#[trigger] v[k]),
    ensures
        parts(text::joined(v, "/"@)) == v,
    decreases v.len(),
{
    reveal_strlit("/");
    assert("/"@ =~= seq!['/']);
    if v.len() == 1 {
        names_are_pieces(Seq::empty(), '/', v[0]);
        assert(v =~= seq![v[0]]);
    } else {
        let less = v.drop_last();
        assert forall|k: int| 0 <= k < less.len() implies is_name(#[trigger] less[k]) by {
            assert(less[k] == v[k]);
        }
        assert(is_name(v[v.len() - 1]));
        paths_are_made_of_names(less);
        let d = text::joined(less, "/"@);
        names_are_pieces(d, '/', v.last());
        assert(d + "/"@ + v.last() =~= d.push('/') + v.last());
        assert(less.push(v.last()) =~= v);
    }
}

/// A path that is made of names, none of them a step up and the first with no drive, leads
/// nowhere but down; one with a step up, a drive or a root does not.
pub proof fn plain_paths_are_made_of_names(v: Seq<Seq<char>>, p: Seq<char>)
    requires
        v.len() > 0,
        forall|k: int| 0 <= k < v.len() ==> is_name(#[trigger] v[k]) && v[k] != ".."@,
        v[0].len() < 2 || v[0][1] != ':',
    ensures
        is_plain(text::joined(v, "/"@)),
        p.len() > 0 && (p[0] == '/' || p[0] == '\\') ==> !is_plain(p),
        p.len() > 1 && p[1] == ':' && text::is_letter(p[0]) ==> !is_plain(p),
        parts(p).contains(".."@) ==> !is_plain(p),
{
    let whole = text::joined(v, "/"@);
    paths_are_made_of_names(v);
    lemma_join_starts(v);
    reveal_strlit("/");
    assert(is_name(v[0]));
    assert(v[0].contains(v[0][0]));
    assert(whole[0] == v[0][0]);
    if parts(whole).contains(".."@) {
        let k = choose|k: int| 0 <= k < v.len() && v[k] == ".."@;
        assert(is_name(v[k]));
    }
    if v[0].len() > 1 {
        assert(whole[1] == v[0][1]);
    } else if v.len() > 1 {
        assert(whole[1] == '/');
    }
}

proof fn lemma_join_starts(v: Seq<Seq<char>>)
    requires
        v.len() > 0,
    ensures
        text::joined(v, "/"@).len() >= v[0].len(),
        text::joined(v, "/"@).take(v[0].len() as int) == v[0],
        v.len() == 1 ==> text::joined(v, "/"@) == v[0],
        v.len() > 1 ==> text::joined(v, "/"@).len() > v[0].len() && text::joined(
            v,
            "/"@,
        )[v[0].len() as int] == '/',
        forall|i: int|
            0 <= i < v[0].len() ==> #[trigger] text::joined(v, "/"@)[i] == v[0][i],
    decreases v.len(),
{
    reveal_strlit("/");
    let whole = text::joined(v, "/"@);
    if v.len() > 1 {
        let less = v.drop_last();
        lemma_join_starts(less);
        assert(less[0] == v[0]);
        let front = text::joined(less, "/"@);
        assert(whole == front + "/"@ + v.last());
        assert forall|i: int| 0 <= i < v[0].len() implies #[trigger] whole[i] == v[0][i] by {
            assert(whole[i] == front[i]);
        }
        if less.len() > 1 {
            assert(whole[v[0].len() as int] == front[v[0].len() as int]);
        }
    }
    assert(whole.take(v[0].len() as int) =~= v[0]);
}

/// The name of a file is what stands behind the last separator, and its extension what stands
/// behind the last dot of that, in lower case: a name with several dots hides nothing, and one
/// without a dot has none.
pub proof fn extensions_stand_behind_the_last_dot(
    d: Seq<char>,
    sep: char,
    stem: Seq<char>,
    ext: Seq<char>,
)
    requires
        sep == '/' || sep == '\\',
        stem.len() > 0,
        is_name(stem + "."@ + ext),
        stem + "."@ + ext != ".."@,
        !ext.contains('.'),
    ensures
        file_name(d.push(sep) + (stem + "."@ + ext)) == Some(stem + "."@ + ext),
        ext_of(d.push(sep) + (stem + "."@ + ext)) == text::lowered(ext),
        is_name(stem) && stem != ".."@ && !stem.contains('.') ==> file_name(d.push(sep) + stem)
            == Some(stem) && ext_of(d.push(sep) + stem) == Seq::<char>::empty(),
{
    reveal_strlit(".");
    let n = stem + "."@ + ext;
    lemma_named_at_end(d, sep, n);
    assert("."@ =~= seq!['.']);
    lemma_last_dot(stem.push('.'), ext);
    assert(n =~= stem.push('.') + ext);
    assert(last_dot(stem.push('.')) == stem.len());
    assert(n.skip(last_dot(n) + 1) =~= ext);
    if is_name(stem) && stem != ".."@ && !stem.contains('.') {
        lemma_named_at_end(d, sep, stem);
        lemma_last_dot(Seq::empty(), stem);
        assert(Seq::<char>::empty() + stem =~= stem);
    }
}

proof fn lemma_named_at_end(d: Seq<char>, sep: char, n: Seq<char>)
    requires
        sep == '/' || sep == '\\',
        is_name(n),
        n != ".."@,
    ensures
        file_name(d.push(sep) + n) == Some(n),
{
    let p = d.push(sep) + n;
    if has_drive(p) {
        assert(d.len() >= 2) by {
            if d.len() == 0 {
                assert(p[0] == sep);
            } else if d.len() == 1 {
                assert(p[1] == sep);
            }
        }
        assert(p.skip(2) =~= d.skip(2).push(sep) + n);
        names_are_pieces(d.skip(2), sep, n);
    } else {
        names_are_pieces(d, sep, n);
    }
}

proof fn lemma_last_dot(a: Seq<char>, b: Seq<char>)
    requires
        !b.contains('.'),
    ensures
        last_dot(a + b) == last_dot(a),
    decreases b.len(),
{
    if b.len() == 0 {
        assert(a + b =~= a);
    } else {
        let less = b.drop_last();
        assert((a + b).drop_last() =~= a + less);
        assert((a + b).last() == b.last());
        assert(b.contains(b[b.len() - 1]));
        if less.contains('.') {
            let i = choose|i: int| 0 <= i < less.len() && less[i] == '.';
            assert(b[i] == '.');
        }
        lemma_last_dot(a, less);
    }
}

/// A directory covers itself and what lies below it, piece by piece, and nothing else.
pub proof fn directories_cover_what_lies_below(
    dir: Seq<Seq<char>>,
    below: Seq<Seq<char>>,
    path: Seq<Seq<char>>,
    k: int,
)
    ensures
        covers(dir, dir + below),
        covers(dir, path) && 0 <= k < dir.len() ==> k < path.len() && path[k] == dir[k],
        path.len() < dir.len() ==> !covers(dir, path),
{
    assert((dir + below).subrange(0, dir.len() as int) =~= dir);
    if covers(dir, path) && 0 <= k < dir.len() {
        assert(path.subrange(0, dir.len() as int)[k] == dir[k]);
    }
}

} // verus!
