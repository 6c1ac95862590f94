//! Names of archive entries, turned into paths that cannot leave their directory.

use crate::install::source;
use crate::text;
use vstd::prelude::*;

verus! {

/// What is wrong with one segment of an entry name.
pub open spec fn segment_error(seg: Seq<char>, name: Seq<char>) -> Option<Seq<char>> {
    if source::all_dots(seg) {
        Some("归档条目含上跳路径（..）："@ + name)
    } else if seg.len() >= 2 && seg[1] == ':' && text::is_letter(seg[0]) {
        Some("归档条目含盘符（不安全）："@ + name)
    } else if seg.last() == ' ' || seg.last() == '.' {
        Some("归档条目名以空格或点结尾（不安全）："@ + name)
    } else {
        None
    }
}

/// The segments of an entry name that make up its path, or what is wrong with them.
pub open spec fn entry_segments(parts: Seq<Seq<char>>, name: Seq<char>) -> Result<
    Seq<Seq<char>>,
    Seq<char>,
>
    decreases parts.len(),
{
    if parts.len() == 0 {
        Ok(Seq::empty())
    } else {
        let seg = parts.last();
        match entry_segments(parts.drop_last(), name) {
            Err(e) => Err(e),
            Ok(segs) => if seg.len() == 0 || seg == "."@ {
                Ok(segs)
            } else {
                match segment_error(seg, name) {
                    Some(e) => Err(e),
                    None => Ok(segs.push(seg)),
                }
            },
        }
    }
}

/// The path that an entry name stands for: backslashes separate like slashes, empty and
/// single-dot segments go, everything that could lead outside is refused.
pub open spec fn entry_path(name: Seq<char>) -> Result<Seq<Seq<char>>, Seq<char>> {
    let unified = text::replaced(name, '\\', '/');
    if name.len() == 0 {
        Err("归档中存在空路径条目"@)
    } else if name.contains('\0') {
        Err("归档条目路径非法："@ + name)
    } else if unified[0] == '/' {
        Err("归档含绝对路径条目（不安全）："@ + name)
    } else {
        match entry_segments(text::pieces(unified, '/'), name) {
            Err(e) => Err(e),
            Ok(segs) => if segs.len() == 0 {
                Err("归档条目路径为空："@ + name)
            } else {
                Ok(segs)
            },
        }
    }
}

/// The view of a path result.
pub open spec fn path_outcome(r: Result<Vec<String>, String>) -> Result<
    Seq<Seq<char>>,
    Seq<char>,
> {
    match r {
        Ok(v) => Ok(text::texts(v@)),
        Err(e) => Err(e@),
    }
}

proof fn lemma_entry_prefix_error(v: Seq<Seq<char>>, name: Seq<char>, k: int)
    requires
        0 <= k <= v.len(),
        entry_segments(v.take(k), name) is Err,
    ensures
        entry_segments(v, name) == entry_segments(v.take(k), name),
    decreases v.len() - k,
{
    if k < v.len() {
        assert(v.take(k + 1).drop_last() =~= v.take(k));
        lemma_entry_prefix_error(v, name, k + 1);
    } else {
        assert(v.take(k) =~= v);
    }
}

/// Checks one segment of an entry name.
fn check_segment(seg: &[char], name: &str) -> (r: Result<(), String>)
    requires
        seg@.len() > 0,
    ensures
        text::message_of(r) == segment_error(seg@, name@),
{
    let n: usize = seg.len();
    if source::dots_only(seg) {
        return Err(text::owned("归档条目含上跳路径（..）：").concat(name));
    }
    if n >= 2 && seg[1] == ':' && (('a' <= seg[0] && seg[0] <= 'z') || ('A' <= seg[0] && seg[0]
        <= 'Z')) {
        return Err(text::owned("归档条目含盘符（不安全）：").concat(name));
    }
    if seg[n - 1] == ' ' || seg[n - 1] == '.' {
        return Err(text::owned("归档条目名以空格或点结尾（不安全）：").concat(name));
    }
    Ok(())
}

/// Turns the name of an archive entry into path segments, see [`entry_path`].
pub fn split_entry_name(name: &str) -> (r: Result<Vec<String>, String>)
    ensures
        path_outcome(r) == entry_path(name@),
{
    let v = text::chars_of(name);
    if v.len() == 0 {
        return Err(text::owned("归档中存在空路径条目"));
    }
    if text::contains_char(v.as_slice(), '\0') {
        return Err(text::owned("归档条目路径非法：").concat(name));
    }
    let unified = text::replace_char(v.as_slice(), '\\', '/');
    if unified[0] == '/' {
        return Err(text::owned("归档含绝对路径条目（不安全）：").concat(name));
    }
    let parts = text::split(unified.as_slice(), '/');
    let ghost all = text::views(parts@);
    let mut out: Vec<String> = Vec::new();
    let mut i: usize = 0;
    assert(all.take(0) =~= Seq::<Seq<char>>::empty());
    assert(text::texts(out@) =~= Seq::<Seq<char>>::empty());
    while i < parts.len()
        invariant
            i <= parts@.len(),
            all == text::views(parts@),
            all == text::pieces(text::replaced(name@, '\\', '/'), '/'),
            name@.len() > 0,
            !name@.contains('\0'),
            text::replaced(name@, '\\', '/')[0] != '/',
            entry_segments(all.take(i as int), name@) == Ok::<Seq<Seq<char>>, Seq<char>>(
                text::texts(out@),
            ),
        decreases parts@.len() - i,
    {
        assert(all.take(i + 1).drop_last() =~= all.take(i as int));
        assert(all.take(i + 1).last() == parts@[i as int]@);
        let seg = parts[i].as_slice();
        if seg.len() == 0 || text::same(seg, ".") {
            i += 1;
            continue ;
        }
        match check_segment(seg, name) {
            Err(e) => {
                proof {
                    lemma_entry_prefix_error(all, name@, i + 1);
                }
                return Err(e);
            },
            Ok(_) => {
                let ghost before = out@;
                out.push(text::string_of(seg));
                assert(text::texts(out@) =~= text::texts(before).push(seg@));
            },
        }
        i += 1;
    }
    assert(all.take(i as int) =~= all);
    if out.len() == 0 {
        return Err(text::owned("归档条目路径为空：").concat(name));
    }
    Ok(out)
}

/// Every path that an entry name gives stays below its directory: its segments are not empty,
/// no upward or current-directory step, no drive, and hold no separator or NUL.
pub proof fn entry_paths_stay_inside(name: Seq<char>)
    requires
        entry_path(name) is Ok,
    ensures
        entry_path(name)->Ok_0.len() > 0,
        forall|k: int|
            0 <= k < entry_path(name)->Ok_0.len() ==> {
                let seg = #[trigger] entry_path(name)->Ok_0[k];
                &&& seg.len() > 0
                &&& !source::all_dots(seg)
                &&& !(seg.len() >= 2 && seg[1] == ':' && text::is_letter(seg[0]))
                &&& seg.last() != ' ' && seg.last() != '.'
                &&& !seg.contains('/') && !seg.contains('\\') && !seg.contains('\0')
            },
{
    let unified = text::replaced(name, '\\', '/');
    text::lemma_pieces_free(unified, '/');
    lemma_entry_segments(text::pieces(unified, '/'), name);
    let segs = entry_path(name)->Ok_0;
    let parts = text::pieces(unified, '/');
    assert forall|k: int| 0 <= k < segs.len() implies {
        let seg = #[trigger] segs[k];
        !seg.contains('/') && !seg.contains('\\') && !seg.contains('\0')
    } by {
        assert(parts.contains(segs[k]));
        let m = choose|m: int| 0 <= m < parts.len() && parts[m] == segs[k];
        assert forall|j: int| 0 <= j < segs[k].len() implies segs[k][j] != '/' && segs[k][j]
            != '\\' && segs[k][j] != '\0' by {
            assert(parts[m][j] != '/');
            assert(unified.contains(parts[m][j]));
            let u = choose|u: int| 0 <= u < unified.len() && unified[u] == parts[m][j];
            if unified[u] == '\0' {
                assert(name[u] == '\0');
            }
        }
    }
}

proof fn lemma_entry_segments(parts: Seq<Seq<char>>, name: Seq<char>)
    requires
        entry_segments(parts, name) is Ok,
    ensures
        ({
            let segs = entry_segments(parts, name)->Ok_0;
            forall|k: int|
                0 <= k < segs.len() ==> {
                    &&& (#[trigger] segs[k]).len() > 0
                    &&& segment_error(segs[k], name) is None
                    &&& parts.contains(segs[k])
                }
        }),
    decreases parts.len(),
{
    if parts.len() > 0 {
        let t = parts.drop_last();
        lemma_entry_segments(t, name);
        let segs = entry_segments(parts, name)->Ok_0;
        let before = entry_segments(t, name)->Ok_0;
        assert forall|k: int| 0 <= k < segs.len() implies parts.contains(#[trigger] segs[k]) by {
            if k < before.len() {
                assert(segs[k] == before[k]);
                assert(t.contains(before[k]));
                let m = choose|m: int| 0 <= m < t.len() && t[m] == before[k];
                assert(parts[m] == segs[k]);
            } else {
                assert(parts[parts.len() - 1] == segs[k]);
            }
        }
        assert forall|k: int| 0 <= k < segs.len() implies (#[trigger] segs[k]).len() > 0
            && segment_error(segs[k], name) is None by {
            if k < before.len() {
                assert(segs[k] == before[k]);
            }
        }
    }
}

/// An entry whose name is made of fine names with slashes, or backslashes, between them has
/// these as its path: nothing of it is changed or refused.
pub proof fn fine_names_are_kept(v: Seq<Seq<char>>)
    requires
        v.len() > 0,
        forall|k: int|
            0 <= k < v.len() ==> {
                let seg = #[trigger] v[k];
                &&& seg.len() > 0
                &&& !source::all_dots(seg)
                &&& !(seg.len() >= 2 && seg[1] == ':' && text::is_letter(seg[0]))
                &&& seg.last() != ' ' && seg.last() != '.'
                &&& !seg.contains('/') && !seg.contains('\\') && !seg.contains('\0')
            },
    ensures
        entry_path(text::joined(v, "/"@)) == Ok::<Seq<Seq<char>>, Seq<char>>(v),
        entry_path(text::replaced(text::joined(v, "/"@), '/', '\\')) == Ok::<
            Seq<Seq<char>>,
            Seq<char>,
        >(v),
{
    reveal_strlit("/");
    reveal_strlit(".");
    assert("/"@ =~= seq!['/']);
    let name = text::joined(v, "/"@);
    let back = text::replaced(name, '/', '\\');
    assert forall|i: int| 0 <= i < name.len() implies #[trigger] name[i] != '\\' && name[i]
        != '\0' by {
        text::lemma_joined_chars(v, "/"@, i);
        if !"/"@.contains(name[i]) {
            let k = choose|k: int| 0 <= k < v.len() && (#[trigger] v[k]).contains(name[i]);
            assert(!v[k].contains('\\') && !v[k].contains('\0'));
        } else {
            let j = choose|j: int| 0 <= j < "/"@.len() && "/"@[j] == name[i];
        }
    }
    assert(text::replaced(name, '\\', '/') =~= name);
    assert(text::replaced(back, '\\', '/') =~= name);
    if name.contains('\0') {
        let i = choose|i: int| 0 <= i < name.len() && name[i] == '\0';
        assert(name[i] != '\0');
    }
    if back.contains('\0') {
        let i = choose|i: int| 0 <= i < back.len() && back[i] == '\0';
        assert(name[i] != '\0');
    }
    lemma_first_of_join(v);
    assert(v[0].len() > 0);
    assert(v[0].contains(v[0][0]));
    assert(back.len() == name.len());
    assert forall|k: int| 0 <= k < v.len() implies !(#[trigger] v[k]).contains('/') by {}
    text::lemma_pieces_joined(v, '/');
    lemma_fine_segments(v, name);
    lemma_fine_segments(v, back);
}

proof fn lemma_first_of_join(v: Seq<Seq<char>>)
    requires
        v.len() > 0,
        v[0].len() > 0,
    ensures
        text::joined(v, "/"@).len() > 0,
        text::joined(v, "/"@)[0] == v[0][0],
    decreases v.len(),
{
    if v.len() > 1 {
        assert(v.drop_last()[0] == v[0]);
        lemma_first_of_join(v.drop_last());
    }
}

proof fn lemma_fine_segments(v: Seq<Seq<char>>, name: Seq<char>)
    requires
        forall|k: int|
            0 <= k < v.len() ==> {
                let seg = #[trigger] v[k];
                &&& seg.len() > 0
                &&& !source::all_dots(seg)
                &&& !(seg.len() >= 2 && seg[1] == ':' && text::is_letter(seg[0]))
                &&& seg.last() != ' ' && seg.last() != '.'
            },
    ensures
        entry_segments(v, name) == Ok::<Seq<Seq<char>>, Seq<char>>(v),
    decreases v.len(),
{
    reveal_strlit(".");
    if v.len() > 0 {
        let less = v.drop_last();
        assert forall|k: int| 0 <= k < less.len() implies {
            let seg = #[trigger] less[k];
            &&& seg.len() > 0
            &&& !source::all_dots(seg)
            &&& !(seg.len() >= 2 && seg[1] == ':' && text::is_letter(seg[0]))
            &&& seg.last() != ' ' && seg.last() != '.'
        } by {
            assert(less[k] == v[k]);
        }
        lemma_fine_segments(less, name);
        let seg = v[v.len() - 1];
        assert(seg.last() != '.');
        if seg == "."@ {
            assert(seg.last() == '.');
        }
        assert(less.push(seg) =~= v);
    } else {
        assert(v =~= Seq::<Seq<char>>::empty());
    }
}

} // verus!
